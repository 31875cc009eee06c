//! Building blocks for the serialized metadata document: ASCII byte
//! buffers, decimal renderings of unsigned integers, and the character
//! discipline for strings embedded in the document.
//!
//! The document is assembled as a byte buffer and only turned into a
//! `String` at the very end; every byte pushed along the way is ASCII.

use vstd::prelude::*;
use vstd::string::is_ascii_spec_bytes;

verus! {

/// The bytes of an ASCII character sequence, one byte per character.
pub open spec fn ascii_seq(s: Seq<char>) -> Seq<u8> {
    Seq::new(s.len(), |i: int| s[i] as u8)
}

/// The characters of an ASCII byte sequence, one character per byte.
pub open spec fn chars_of_ascii(b: Seq<u8>) -> Seq<char> {
    Seq::new(b.len(), |i: int| b[i] as char)
}

/// The decimal rendering of `n` as ASCII digit bytes, most significant
/// digit first, with no leading zeros (`0` renders as the single digit 0).
pub open spec fn dec_digits(n: nat) -> Seq<u8>
    decreases n,
{
    if n < 10 {
        seq![(48 + n) as u8]
    } else {
        dec_digits(n / 10).push((48 + n % 10) as u8)
    }
}

/// Whether `c` may stand inside a quoted string of the document without
/// escaping: printable ASCII, neither a quote nor a backslash.
pub open spec fn string_char_ok(c: char) -> bool {
    &&& 32 <= c as u32 <= 126
    &&& c as u32 != 34
    &&& c as u32 != 92
}

/// Whether every character of `s` may stand inside a quoted string of the
/// document without escaping.
pub open spec fn string_ok(s: Seq<char>) -> bool {
    forall|i: int| 0 <= i < s.len() ==> string_char_ok(#[trigger] s[i])
}

/// A printable document character is an ASCII character.
pub proof fn lemma_printable_is_ascii(c: char)
    requires
        32 <= c as u32 <= 126,
    ensures
        '\0' <= c <= '\u{7f}',
{
}

/// An ASCII character's byte is its scalar value.
pub proof fn lemma_ascii_byte(c: char)
    requires
        '\0' <= c <= '\u{7f}',
    ensures
        c as u8 == c as u32,
        c as u32 <= 127,
{
}

/// Every decimal digit byte is ASCII.
pub proof fn lemma_dec_digits_ascii(n: nat)
    ensures
        forall|i: int| 0 <= i < dec_digits(n).len() ==> #[trigger] dec_digits(n)[i] < 128,
    decreases n,
{
    if n >= 10 {
        lemma_dec_digits_ascii(n / 10);
        assert forall|i: int| 0 <= i < dec_digits(n).len() implies #[trigger] dec_digits(n)[i]
            < 128 by {
            if i < dec_digits(n / 10).len() {
                assert(dec_digits(n)[i] == dec_digits(n / 10)[i]);
            } else {
                assert(dec_digits(n)[i] == (48 + n % 10) as u8);
            }
        }
    }
}

/// Appends the bytes of an ASCII string slice to the buffer.
pub fn push_str_bytes(out: &mut Vec<u8>, s: &str)
    requires
        s.is_ascii(),
    ensures
        final(out)@ == old(out)@ + ascii_seq(s@),
        forall|i: int|
            old(out)@.len() <= i < final(out)@.len() ==> #[trigger] final(out)@[i] < 128,
{
    let b = s.as_bytes();
    proof {
        is_ascii_spec_bytes(s);
        assert(b@ =~= ascii_seq(s@));
    }
    out.extend_from_slice(b);
    proof {
        assert(out@ =~= old(out)@ + ascii_seq(s@));
    }
}

/// Appends the decimal rendering of `n` to the buffer.
pub fn push_decimal(out: &mut Vec<u8>, n: u64)
    ensures
        final(out)@ == old(out)@ + dec_digits(n as nat),
        forall|i: int|
            old(out)@.len() <= i < final(out)@.len() ==> #[trigger] final(out)@[i] < 128,
    decreases n,
{
    proof {
        lemma_dec_digits_ascii(n as nat);
    }
    if n < 10 {
        out.push(48 + n as u8);
        proof {
            assert(out@ =~= old(out)@ + dec_digits(n as nat));
        }
    } else {
        push_decimal(out, n / 10);
        out.push(48 + (n % 10) as u8);
        proof {
            assert(out@ =~= old(out)@ + dec_digits(n as nat));
        }
    }
}

/// Reports whether `s` may stand inside a quoted string of the document
/// without escaping.
pub fn string_valid(s: &str) -> (ok: bool)
    ensures
        ok == string_ok(s@),
{
    if !s.is_ascii() {
        proof {
            assert(!string_ok(s@)) by {
                if string_ok(s@) {
                    assert forall|j: int| 0 <= j < s@.len() implies '\0' <= #[trigger] s@[j]
                        <= '\u{7f}' by {
                        assert(string_char_ok(s@[j]));
                        lemma_printable_is_ascii(s@[j]);
                    }
                    assert(vstd::utf8::is_ascii_chars(s@));
                }
            }
        }
        return false;
    }
    let b = s.as_bytes();
    proof {
        is_ascii_spec_bytes(s);
        assert(b@ =~= ascii_seq(s@));
    }
    let mut i: usize = 0;
    while i < b.len()
        invariant
            b@ == ascii_seq(s@),
            s.is_ascii(),
            i <= b@.len(),
            forall|j: int| 0 <= j < i ==> string_char_ok(#[trigger] s@[j]),
        decreases b@.len() - i,
    {
        let c = b[i];
        proof {
            assert('\0' <= s@[i as int] <= '\u{7f}');
            lemma_ascii_byte(s@[i as int]);
            assert(c == s@[i as int] as u8);
        }
        if c < 32 || c > 126 || c == 34 || c == 92 {
            proof {
                assert(!string_char_ok(s@[i as int]));
            }
            return false;
        }
        proof {
            assert(string_char_ok(s@[i as int]));
        }
        i = i + 1;
    }
    true
}

/// Appends the bytes of a validated string to the buffer.
pub fn push_string_bytes(out: &mut Vec<u8>, s: &str)
    requires
        string_ok(s@),
    ensures
        final(out)@ == old(out)@ + ascii_seq(s@),
        forall|i: int|
            old(out)@.len() <= i < final(out)@.len() ==> #[trigger] final(out)@[i] < 128,
{
    assert(s.is_ascii()) by {
        assert forall|j: int| 0 <= j < s@.len() implies '\0' <= #[trigger] s@[j] <= '\u{7f}' by {
            assert(string_char_ok(s@[j]));
            lemma_printable_is_ascii(s@[j]);
        }
        assert(vstd::utf8::is_ascii_chars(s@));
    }
    push_str_bytes(out, s);
}

/// Relies on `String::from_utf8`: a buffer of ASCII bytes is valid UTF-8
/// and decodes to one character per byte.
#[verifier::external_body]
pub fn ascii_string(bytes: Vec<u8>) -> (r: String)
    requires
        forall|i: int| 0 <= i < bytes@.len() ==> bytes@[i] < 128,
    ensures
        r@ == chars_of_ascii(bytes@),
{
    match String::from_utf8(bytes) {
        Ok(s) => s,
        Err(_) => String::new(),
    }
}

} // verus!


