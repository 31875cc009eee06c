use image::{DynamicImage, ImageBuffer, ImageFormat, Rgba};
use std::io::Cursor;
use tile_engine::errors::TileError;
use tile_engine::hasher::calculate_hash;
use tile_engine::tiler::tile_image;

fn png_bytes(width: u32, height: u32, pixel: [u8; 4]) -> Vec<u8> {
    let img: ImageBuffer<Rgba<u8>, Vec<u8>> = ImageBuffer::from_pixel(width, height, Rgba(pixel));
    let dynamic_img = DynamicImage::ImageRgba8(img);
    let mut buffer = Cursor::new(Vec::new());
    dynamic_img.write_to(&mut buffer, ImageFormat::Png).unwrap();
    buffer.into_inner()
}

#[test]
fn test_tile_image() {
    let image_data = png_bytes(100, 100, [255, 255, 255, 255]);

    let result = tile_image(&image_data, 50, Some(80)).unwrap();

    assert_eq!(result.width, 100);
    assert_eq!(result.height, 100);
    assert_eq!(result.tile_size, 50);
    assert_eq!(result.tiles.len(), 4); // a 2x2 grid
}

#[test]
fn test_crop_and_pad() {
    let img: ImageBuffer<Rgba<u8>, Vec<u8>> = ImageBuffer::from_pixel(100, 100, Rgba([255, 0, 0, 255]));
    let pixels = img.into_raw();

    // an edge tile that needs padding
    let result = tile_engine::tiler::crop_and_pad(&pixels, 100, 100, 50, 50, 50, 50, 64);

    assert_eq!(result.len(), 64 * 64 * 4);
    // the cropped region sits at the top-left corner
    assert_eq!(&result[0..4], &[255, 0, 0, 255]);
    // outside the region the canvas is transparent white
    let corner = 4 * (63 * 64 + 63);
    assert_eq!(&result[corner..corner + 4], &[255, 255, 255, 0]);
}

#[test]
fn exact_grid_coordinates() {
    let image_data = png_bytes(100, 100, [10, 20, 30, 255]);
    let result = tile_image(&image_data, 50, None).unwrap();

    let coords: Vec<(u32, u32)> = result.tiles.iter().map(|t| (t.x, t.y)).collect();
    assert_eq!(coords, vec![(0, 0), (1, 0), (0, 1), (1, 1)]);

    // no tile needs padding: every decoded tile is a full 50x50 crop
    for tile in &result.tiles {
        let decoded = image::load_from_memory(&tile.data).unwrap();
        assert_eq!(decoded.width(), 50);
        assert_eq!(decoded.height(), 50);
    }
}

#[test]
fn edge_tiles_are_padded() {
    let image_data = png_bytes(100, 100, [0, 0, 0, 255]);
    let result = tile_image(&image_data, 64, None).unwrap();

    assert_eq!(result.tiles.len(), 4);
    for tile in &result.tiles {
        // every tile's encoded image decodes to exactly 64x64
        let decoded = image::load_from_memory(&tile.data).unwrap();
        assert_eq!(decoded.width(), 64);
        assert_eq!(decoded.height(), 64);
        if tile.x == 1 || tile.y == 1 {
            // past the source boundary the canvas is transparent white
            let rgba = decoded.to_rgba8();
            assert_eq!(rgba.get_pixel(63, 63).0, [255, 255, 255, 0]);
        }
    }
    // the interior of a padded tile still shows the source image
    let last = &result.tiles[3];
    assert_eq!((last.x, last.y), (1, 1));
    let rgba = image::load_from_memory(&last.data).unwrap().to_rgba8();
    assert_eq!(rgba.get_pixel(0, 0).0, [0, 0, 0, 255]);
}

#[test]
fn tiling_is_deterministic() {
    let image_data = png_bytes(130, 70, [120, 130, 140, 255]);

    let first = tile_image(&image_data, 64, Some(80)).unwrap();
    let second = tile_image(&image_data, 64, None).unwrap();

    let hashes1: Vec<String> = first.tiles.iter().map(|t| t.hash.clone()).collect();
    let hashes2: Vec<String> = second.tiles.iter().map(|t| t.hash.clone()).collect();
    assert_eq!(hashes1, hashes2);
}

#[test]
fn tile_count_matches_grid_formula() {
    let image_data = png_bytes(130, 70, [1, 2, 3, 255]);
    let result = tile_image(&image_data, 64, None).unwrap();

    // ceil(130/64) * ceil(70/64) = 3 * 2
    assert_eq!(result.tiles.len(), 6);
    assert_eq!(result.tile_count(), 6);
}

#[test]
fn zero_tile_size_is_rejected() {
    let image_data = png_bytes(10, 10, [0, 0, 0, 255]);
    let result = tile_image(&image_data, 0, None);
    assert!(matches!(result, Err(TileError::InvalidTileSize)));
}

#[test]
fn undecodable_input_is_rejected() {
    let result = tile_image(b"not an image at all", 50, None);
    assert!(matches!(result, Err(TileError::DecodeError { .. })));
}

#[test]
fn hash_is_digest_of_encoded_bytes() {
    let image_data = png_bytes(80, 80, [9, 9, 9, 255]);
    let result = tile_image(&image_data, 40, None).unwrap();

    for tile in &result.tiles {
        assert_eq!(tile.hash, calculate_hash(&tile.data));
        assert_eq!(tile.hash.len(), 64);
    }
}

#[test]
fn tile_data_retrieval_is_bounds_checked() {
    let image_data = png_bytes(100, 100, [5, 6, 7, 255]);
    let result = tile_image(&image_data, 50, None).unwrap();

    assert!(result.get_tile_data(3).is_ok());
    assert_eq!(result.get_tile_data(0).unwrap(), &result.tiles[0].data);
    assert!(matches!(result.get_tile_data(4), Err(TileError::IndexOutOfBounds)));
}

#[test]
fn repeated_tiles_signal() {
    // a uniform image: all four tiles are identical, so every tile after
    // the first is a repeat
    let uniform = png_bytes(100, 100, [200, 200, 200, 255]);
    let result = tile_image(&uniform, 50, None).unwrap();
    assert_eq!(result.repeated_tiles(), vec![1, 2, 3]);

    // a gradient image: every tile differs, so nothing repeats
    let img: ImageBuffer<Rgba<u8>, Vec<u8>> =
        ImageBuffer::from_fn(100, 100, |x, y| Rgba([x as u8, y as u8, 0, 255]));
    let mut buffer = Cursor::new(Vec::new());
    DynamicImage::ImageRgba8(img).write_to(&mut buffer, ImageFormat::Png).unwrap();
    let result = tile_image(&buffer.into_inner(), 50, None).unwrap();
    assert_eq!(result.repeated_tiles(), Vec::<usize>::new());
}
