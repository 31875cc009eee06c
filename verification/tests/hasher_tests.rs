use tile_engine::hasher::{calculate_hash, calculate_hash_short};

#[test]
fn test_calculate_hash() {
    let data = b"test data";
    let hash = calculate_hash(data);

    // a 256-bit digest renders as 64 hex characters
    assert_eq!(hash.len(), 64);

    // the same data always gives the same digest
    assert_eq!(hash, calculate_hash(data));
}

#[test]
fn test_calculate_hash_short() {
    let data = b"test data";
    let hash = calculate_hash_short(data);

    // the short form has 16 characters
    assert_eq!(hash.len(), 16);
}

#[test]
fn test_different_data_different_hash() {
    let hash1 = calculate_hash(b"data1");
    let hash2 = calculate_hash(b"data2");

    assert_ne!(hash1, hash2);
}

#[test]
fn known_digest_value() {
    assert_eq!(
        calculate_hash(b"test data"),
        "916f0027a575074ce72a331777c3478d6513f786a591bd892da1a577bf2335f9"
    );
}

#[test]
fn empty_buffer_digest() {
    assert_eq!(
        calculate_hash(b""),
        "e3b0c44298fc1c149afbf4c8996fb92427ae41e4649b934ca495991b7852b855"
    );
}

#[test]
fn short_digest_is_prefix_of_full() {
    let full = calculate_hash(b"abc");
    let short = calculate_hash_short(b"abc");
    assert_eq!(&full[..16], short.as_str());
}

#[test]
fn digest_is_lowercase_hex() {
    let hash = calculate_hash(b"some bytes");
    assert!(hash.chars().all(|c| c.is_ascii_hexdigit() && !c.is_ascii_uppercase()));
}

#[test]
fn root_calculate_hash_agrees() {
    let data = b"test data";
    assert_eq!(tile_engine::calculate_hash(data), calculate_hash(data));
}
