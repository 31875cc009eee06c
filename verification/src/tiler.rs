//! The tile engine: decodes a source image, partitions it into a grid of
//! square tiles in row-major order, pads edge tiles with transparent white,
//! encodes every tile, and identifies each tile by the content digest of
//! its encoded bytes.
//!
//! The pixel model is a flat row-major RGBA byte buffer: pixel `(col, row)`
//! of a `w`-pixel-wide image occupies bytes `4 * (row * w + col) ..` with
//! channels in R, G, B, A order.

use vstd::prelude::*;
use vstd::arithmetic::div_mod::{lemma_basic_div, lemma_fundamental_div_mod,
    lemma_fundamental_div_mod_converse};
use vstd::arithmetic::mul::lemma_mul_inequality;
use crate::errors::TileError;
use crate::hasher::{calculate_hash, digest_chars};

verus! {

/// One cell of the partition grid for a page.
pub struct TileInfo {
    /// Grid column of the tile (tile units, not pixels).
    pub x: u32,
    /// Grid row of the tile (tile units, not pixels).
    pub y: u32,
    /// Content digest of `data`, used as the tile's identifier and filename.
    pub hash: String,
    /// The tile's encoded image bytes.
    pub data: Vec<u8>,
}

/// The outcome of tiling one image.
pub struct TileResult {
    /// Width of the decoded source image in pixels.
    pub width: u32,
    /// Height of the decoded source image in pixels.
    pub height: u32,
    /// Edge length of every tile of this result, in pixels.
    pub tile_size: u32,
    /// The tiles in row-major order: row 0 left to right, then row 1, and
    /// so on.
    pub tiles: Vec<TileInfo>,
}

/// What the source bytes decode to: `None` when they are not a supported
/// raster image, otherwise the width, height, and flat RGBA pixel buffer.
/// Decoding is a pure function of the bytes alone.
pub uninterp spec fn rgba_decoding(bytes: Seq<u8>) -> Option<(u32, u32, Seq<u8>)>;

/// What a `width` by `height` RGBA pixel buffer encodes to: `None` when
/// the codec rejects it, otherwise the encoded image bytes.  Encoding is a
/// pure function of the dimensions and pixels alone.
pub uninterp spec fn webp_encoding(width: u32, height: u32, pixels: Seq<u8>) -> Option<Seq<u8>>;

/// The number of tiles needed to cover `len` pixels at `tile_size` pixels
/// per tile.
pub open spec fn grid_count(len: u32, tile_size: u32) -> nat
    recommends
        tile_size > 0,
{
    crate::div_ceil(len as nat, tile_size as nat)
}

/// The pixel buffer of one tile: the rectangle of `pixels` with origin
/// `(x, y)` and extent `(w, h)` placed at the top-left corner of a
/// `tile_size` by `tile_size` canvas whose remaining pixels are
/// transparent white.
pub open spec fn padded_tile(
    pixels: Seq<u8>,
    img_w: int,
    x: int,
    y: int,
    w: int,
    h: int,
    tile_size: int,
) -> Seq<u8> {
    Seq::new((4 * tile_size * tile_size) as nat, |k: int| {
        let row = k / (4 * tile_size);
        let rem = k % (4 * tile_size);
        let col = rem / 4;
        let chan = rem % 4;
        if col < w && row < h {
            pixels[4 * ((y + row) * img_w + x + col) + chan]
        } else if chan == 3 {
            0u8
        } else {
            255u8
        }
    })
}

/// The extent of a tile starting at `origin`: `tile_size`, clamped at the
/// image boundary `len`.
pub open spec fn clamped_extent(len: u32, origin: int, tile_size: u32) -> int {
    if len - origin < tile_size { len - origin } else { tile_size as int }
}

/// The pixel buffer of the grid cell `(tx, ty)` of a decoded image.
pub open spec fn tile_pixels(
    pixels: Seq<u8>,
    width: u32,
    height: u32,
    tile_size: u32,
    tx: int,
    ty: int,
) -> Seq<u8> {
    padded_tile(
        pixels,
        width as int,
        tx * tile_size,
        ty * tile_size,
        clamped_extent(width, tx * tile_size, tile_size),
        clamped_extent(height, ty * tile_size, tile_size),
        tile_size as int,
    )
}

/// The encoded bytes of the grid cell `(tx, ty)` of the image `bytes`
/// decodes to, or `None` when the codec rejects that tile.
pub open spec fn tile_encoding(bytes: Seq<u8>, tile_size: u32, tx: int, ty: int) -> Option<
    Seq<u8>,
>
    recommends
        rgba_decoding(bytes) is Some,
{
    let d = rgba_decoding(bytes)->0;
    webp_encoding(tile_size, tile_size, tile_pixels(d.2, d.0, d.1, tile_size, tx, ty))
}

/// Uniform tile dimensions: whether a grid cell is padded or not, the
/// pixel buffer handed to the encoder for it is exactly a `tile_size` by
/// `tile_size` canvas.
pub proof fn lemma_tile_pixels_len(
    pixels: Seq<u8>,
    width: u32,
    height: u32,
    tile_size: u32,
    tx: int,
    ty: int,
)
    ensures
        tile_pixels(pixels, width, height, tile_size, tx, ty).len() == 4 * tile_size * tile_size,
{
}

/// Whether the codec accepts every tile of the grid of the image `bytes`
/// decodes to.
pub open spec fn all_tiles_encodable(bytes: Seq<u8>, tile_size: u32) -> bool
    recommends
        rgba_decoding(bytes) is Some,
        tile_size > 0,
{
    let d = rgba_decoding(bytes)->0;
    forall|tx: int, ty: int|
        0 <= tx < grid_count(d.0, tile_size) && 0 <= ty < grid_count(d.1, tile_size)
            ==> (#[trigger] tile_encoding(bytes, tile_size, tx, ty)) is Some
}

/// Whether the tile at position `k` of the row-major tile list is the
/// correct record for grid cell `(k % gw, k / gw)`: right coordinates,
/// encoded bytes pinned by the codec, and the hash the content digest of
/// those bytes.
pub open spec fn tile_ok(bytes: Seq<u8>, tile_size: u32, gw: nat, k: int, t: TileInfo) -> bool
    recommends
        gw > 0,
{
    let tx = k % (gw as int);
    let ty = k / (gw as int);
    &&& t.x == tx
    &&& t.y == ty
    &&& tile_encoding(bytes, tile_size, tx, ty) == Some(t.data@)
    &&& t.hash@ == digest_chars(t.data@)
}

/// Whether `r` is the correct tiling of the image `bytes` decodes to, at
/// the given tile size.
pub open spec fn tiling_ok(bytes: Seq<u8>, tile_size: u32, r: TileResult) -> bool {
    &&& tile_size > 0
    &&& rgba_decoding(bytes) matches Some(d) && {
        let gw = grid_count(d.0, tile_size);
        let gh = grid_count(d.1, tile_size);
        &&& r.width == d.0
        &&& r.height == d.1
        &&& r.tile_size == tile_size
        &&& r.tiles@.len() == gw * gh
        &&& forall|k: int|
            0 <= k < r.tiles@.len() ==> tile_ok(bytes, tile_size, gw, k, #[trigger] r.tiles@[k])
    }
}

/// Relies on `image::load_from_memory` and `DynamicImage::to_rgba8`: the
/// decoder sniffs the format from the bytes alone, and the RGBA buffer of
/// a decoded image holds exactly `4 * width * height` bytes in row-major
/// R, G, B, A order.
#[verifier::external_body]
fn decode_rgba(bytes: &[u8]) -> (r: Result<(u32, u32, Vec<u8>), String>)
    ensures
        r is Ok <==> rgba_decoding(bytes@) is Some,
        r matches Ok(t) ==> rgba_decoding(bytes@) == Some((t.0, t.1, t.2@)),
        r matches Ok(t) ==> t.2@.len() == 4 * t.0 * t.1,
{
    match image::load_from_memory(bytes) {
        Ok(img) => {
            let rgba = img.to_rgba8();
            let (w, h) = (rgba.width(), rgba.height());
            Ok((w, h, rgba.into_raw()))
        },
        Err(e) => Err(format!("Failed to decode image: {}", e)),
    }
}

/// Relies on `image::ImageBuffer::from_raw` and `DynamicImage::write_to`
/// with the WebP format: the encoder is lossless, takes no parameters
/// beyond the pixels and dimensions, and its output depends on them alone.
#[verifier::external_body]
fn encode_webp(width: u32, height: u32, pixels: &Vec<u8>) -> (r: Result<Vec<u8>, String>)
    requires
        pixels@.len() == 4 * width * height,
    ensures
        r is Ok <==> webp_encoding(width, height, pixels@) is Some,
        r matches Ok(d) ==> webp_encoding(width, height, pixels@) == Some(d@),
{
    let buffer: Option<image::RgbaImage> = image::ImageBuffer::from_raw(
        width,
        height,
        pixels.clone(),
    );
    let img = match buffer {
        Some(b) => image::DynamicImage::ImageRgba8(b),
        None => return Err(String::from("pixel buffer does not match dimensions")),
    };
    let mut cursor = std::io::Cursor::new(Vec::new());
    match img.write_to(&mut cursor, image::ImageFormat::WebP) {
        Ok(()) => Ok(cursor.into_inner()),
        Err(e) => Err(format!("Failed to encode WebP: {}", e)),
    }
}

/// The ceiling quotient lies between the exact quotient's multiples: it is
/// at most `a`, covers `a`, and its predecessor does not.
proof fn lemma_div_ceil_bounds(a: int, b: int)
    requires
        a >= 0,
        b >= 1,
    ensures
        0 <= (a + b - 1) / b <= a,
        a <= ((a + b - 1) / b) * b,
        a >= 1 ==> ((a + b - 1) / b - 1) * b < a,
        a >= 1 ==> (a + b - 1) / b >= 1,
{
    let q = (a + b - 1) / b;
    let r = (a + b - 1) % b;
    lemma_fundamental_div_mod(a + b - 1, b);
    assert(a + b - 1 == q * b + r);
    if a == 0 {
        lemma_basic_div(b - 1, b);
    } else {
        assert(q * b == a + b - 1 - r);
        assert(q * b >= a) by {
            assert(r <= b - 1);
        }
        assert((q - 1) * b == q * b - b) by (nonlinear_arith);
        assert((q - 1) * b < a);
        assert(q >= 1) by {
            if q <= 0 {
                assert(q * b <= 0) by {
                    lemma_mul_inequality(q, 0, b);
                }
            }
        }
        assert(q <= a) by {
            if q > a {
                lemma_mul_inequality(a + 1, q, b);
                assert((a + 1) * b <= q * b);
                assert(a * b + b == (a + 1) * b) by {
                    assert((a + 1) * b == a * b + 1 * b) by (nonlinear_arith);
                }
                assert(a <= a * b) by {
                    lemma_mul_inequality(1, b, a);
                    assert(a * 1 == a) by (nonlinear_arith);
                    assert(1 * a == a * 1 && b * a == a * b) by (nonlinear_arith);
                }
            }
        }
    }
}

/// Splitting a flat index into row, column and channel: byte
/// `4 * (row * ts + col) + chan` of a padded tile is the channel `chan`
/// of its pixel `(col, row)`.
proof fn lemma_padded_tile_index(
    pixels: Seq<u8>,
    img_w: int,
    x: int,
    y: int,
    w: int,
    h: int,
    ts: int,
    col: int,
    row: int,
    chan: int,
)
    requires
        0 <= col < ts,
        0 <= row < ts,
        0 <= chan < 4,
    ensures
        0 <= 4 * (row * ts + col) + chan < 4 * ts * ts,
        padded_tile(pixels, img_w, x, y, w, h, ts)[4 * (row * ts + col) + chan] == (if col < w
            && row < h {
            pixels[4 * ((y + row) * img_w + x + col) + chan]
        } else if chan == 3 {
            0u8
        } else {
            255u8
        }),
{
    let k = 4 * (row * ts + col) + chan;
    assert(4 * (row * ts + col) + chan == row * (4 * ts) + (4 * col + chan)) by (nonlinear_arith);
    assert(0 <= 4 * col + chan < 4 * ts);
    assert(k < 4 * ts * ts) by {
        lemma_mul_inequality(row, ts - 1, 4 * ts);
        assert((ts - 1) * (4 * ts) + 4 * ts == 4 * ts * ts) by (nonlinear_arith);
    }
    assert(k >= 0) by {
        lemma_mul_inequality(0, row, 4 * ts);
        assert(0 * (4 * ts) == 0) by (nonlinear_arith);
    }
    lemma_fundamental_div_mod_converse(k, 4 * ts, row, 4 * col + chan);
    assert(k / (4 * ts) == row);
    assert(k % (4 * ts) == 4 * col + chan);
    lemma_fundamental_div_mod_converse(4 * col + chan, 4, col, chan);
}

/// Cuts the rectangle with origin `(x, y)` and extent `(w, h)` out of a
/// row-major RGBA pixel buffer and pads it to a `tile_size` by `tile_size`
/// tile: the rectangle sits at the top-left corner and every pixel outside
/// it is transparent white (RGBA 255, 255, 255, 0).  Tiles that already
/// fill the canvas are copied unchanged.
pub fn crop_and_pad(
    pixels: &Vec<u8>,
    img_w: u32,
    img_h: u32,
    x: u32,
    y: u32,
    w: u32,
    h: u32,
    tile_size: u32,
) -> (r: Vec<u8>)
    requires
        pixels@.len() == 4 * img_w * img_h,
        x + w <= img_w,
        y + h <= img_h,
        w <= tile_size,
        h <= tile_size,
    ensures
        r@ == padded_tile(
            pixels@,
            img_w as int,
            x as int,
            y as int,
            w as int,
            h as int,
            tile_size as int,
        ),
        r@.len() == 4 * tile_size * tile_size,
{
    let ghost target = padded_tile(
        pixels@,
        img_w as int,
        x as int,
        y as int,
        w as int,
        h as int,
        tile_size as int,
    );
    let total: usize = pixels.len();
    assert(total == 4 * img_w * img_h);
    let mut out: Vec<u8> = Vec::new();
    let mut row: u32 = 0;
    while row < tile_size
        invariant
            pixels@.len() == 4 * img_w * img_h,
            pixels@.len() <= usize::MAX,
            x + w <= img_w,
            y + h <= img_h,
            w <= tile_size,
            h <= tile_size,
            row <= tile_size,
            target == padded_tile(
                pixels@,
                img_w as int,
                x as int,
                y as int,
                w as int,
                h as int,
                tile_size as int,
            ),
            out@.len() == 4 * ((row as int) * (tile_size as int)),
            forall|k: int| 0 <= k < out@.len() ==> out@[k] == target[k],
        decreases tile_size - row,
    {
        let mut col: u32 = 0;
        while col < tile_size
            invariant
                pixels@.len() == 4 * img_w * img_h,
                pixels@.len() <= usize::MAX,
                x + w <= img_w,
                y + h <= img_h,
                w <= tile_size,
                h <= tile_size,
                row < tile_size,
                col <= tile_size,
                target == padded_tile(
                    pixels@,
                    img_w as int,
                    x as int,
                    y as int,
                    w as int,
                    h as int,
                    tile_size as int,
                ),
                out@.len() == 4 * ((row as int) * (tile_size as int) + col as int),
                forall|k: int| 0 <= k < out@.len() ==> out@[k] == target[k],
            decreases tile_size - col,
        {
            proof {
                lemma_padded_tile_index(
                    pixels@,
                    img_w as int,
                    x as int,
                    y as int,
                    w as int,
                    h as int,
                    tile_size as int,
                    col as int,
                    row as int,
                    0,
                );
                lemma_padded_tile_index(
                    pixels@,
                    img_w as int,
                    x as int,
                    y as int,
                    w as int,
                    h as int,
                    tile_size as int,
                    col as int,
                    row as int,
                    1,
                );
                lemma_padded_tile_index(
                    pixels@,
                    img_w as int,
                    x as int,
                    y as int,
                    w as int,
                    h as int,
                    tile_size as int,
                    col as int,
                    row as int,
                    2,
                );
                lemma_padded_tile_index(
                    pixels@,
                    img_w as int,
                    x as int,
                    y as int,
                    w as int,
                    h as int,
                    tile_size as int,
                    col as int,
                    row as int,
                    3,
                );
            }
            if col < w && row < h {
                let src_row: usize = (y + row) as usize;
                let src_col: usize = (x + col) as usize;
                proof {
                    let sr = src_row as int;
                    let iw = img_w as int;
                    let ih = img_h as int;
                    lemma_mul_inequality(sr + 1, ih, iw);
                    assert(sr * iw + iw == (sr + 1) * iw) by (nonlinear_arith);
                    assert(4 * (ih * iw) == 4 * iw * ih) by (nonlinear_arith);
                    assert(ih * iw >= 0) by (nonlinear_arith)
                        requires
                            ih >= 0,
                            iw >= 0,
                    ;
                }
                let base: usize = 4 * (src_row * (img_w as usize) + src_col);
                out.push(pixels[base]);
                out.push(pixels[base + 1]);
                out.push(pixels[base + 2]);
                out.push(pixels[base + 3]);
            } else {
                out.push(255);
                out.push(255);
                out.push(255);
                out.push(0);
            }
            col = col + 1;
        }
        proof {
            let r = row as int;
            let t = tile_size as int;
            assert(4 * (r * t + t) == 4 * ((r + 1) * t)) by (nonlinear_arith);
        }
        row = row + 1;
    }
    proof {
        let t = tile_size as int;
        assert(4 * (t * t) == 4 * t * t) by (nonlinear_arith);
        assert(out@ =~= target);
    }
    out
}

/// Partitions an image into a row-major grid of `tile_size` by `tile_size`
/// tiles, each encoded and identified by the content digest of its encoded
/// bytes.  `quality` is accepted for callers that configure a lossy
/// encoder; the encoder used here is lossless, so the value has no effect
/// on the output.
///
/// The result is a pure function of `image_data` and `tile_size`: tiling
/// the same bytes at the same size twice yields identical tiles, hashes
/// included.
#[allow(unused_variables)]
pub fn tile_image(image_data: &[u8], tile_size: u32, quality: Option<u8>) -> (r: Result<
    TileResult,
    TileError,
>)
    ensures
        match r {
            Ok(res) => tiling_ok(image_data@, tile_size, res),
            Err(e) => match e {
                TileError::InvalidTileSize => tile_size == 0,
                TileError::DecodeError { .. } => tile_size > 0 && rgba_decoding(image_data@)
                    is None,
                TileError::EncodeError { .. } => tile_size > 0 && rgba_decoding(image_data@)
                    is Some && !all_tiles_encodable(image_data@, tile_size),
                _ => false,
            },
        },
        r is Ok <==> (tile_size > 0 && rgba_decoding(image_data@) is Some && all_tiles_encodable(
            image_data@,
            tile_size,
        )),
{
    if tile_size == 0 {
        return Err(TileError::InvalidTileSize);
    }
    let decoded = match decode_rgba(image_data) {
        Ok(t) => t,
        Err(message) => {
            return Err(TileError::DecodeError { message });
        },
    };
    let (width, height, pixels) = decoded;
    proof {
        lemma_div_ceil_bounds(width as int, tile_size as int);
        lemma_div_ceil_bounds(height as int, tile_size as int);
    }
    let tiles_x: u32 = ((width as u64 + tile_size as u64 - 1) / (tile_size as u64)) as u32;
    let tiles_y: u32 = ((height as u64 + tile_size as u64 - 1) / (tile_size as u64)) as u32;
    assert(tiles_x == grid_count(width, tile_size));
    assert(tiles_y == grid_count(height, tile_size));
    let ghost gw = grid_count(width, tile_size);
    let ghost gh = grid_count(height, tile_size);
    let mut tiles: Vec<TileInfo> = Vec::new();
    let mut ty: u32 = 0;
    while ty < tiles_y
        invariant
            tile_size > 0,
            rgba_decoding(image_data@) == Some((width, height, pixels@)),
            pixels@.len() == 4 * width * height,
            tiles_x == gw,
            tiles_y == gh,
            gw == grid_count(width, tile_size),
            gh == grid_count(height, tile_size),
            ty <= tiles_y,
            tiles@.len() == gw * ty,
            forall|k: int|
                0 <= k < tiles@.len() ==> tile_ok(
                    image_data@,
                    tile_size,
                    gw,
                    k,
                    #[trigger] tiles@[k],
                ),
        decreases tiles_y - ty,
    {
        let mut tx: u32 = 0;
        while tx < tiles_x
            invariant
                tile_size > 0,
                rgba_decoding(image_data@) == Some((width, height, pixels@)),
                pixels@.len() == 4 * width * height,
                tiles_x == gw,
                tiles_y == gh,
                gw == grid_count(width, tile_size),
                gh == grid_count(height, tile_size),
                ty < tiles_y,
                tx <= tiles_x,
                tiles@.len() == gw * ty + tx,
                forall|k: int|
                    0 <= k < tiles@.len() ==> tile_ok(
                        image_data@,
                        tile_size,
                        gw,
                        k,
                        #[trigger] tiles@[k],
                    ),
            decreases tiles_x - tx,
        {
            proof {
                lemma_div_ceil_bounds(width as int, tile_size as int);
                lemma_div_ceil_bounds(height as int, tile_size as int);
                lemma_mul_inequality(tx as int, gw as int - 1, tile_size as int);
                lemma_mul_inequality(ty as int, gh as int - 1, tile_size as int);
            }
            let ox: u32 = tx * tile_size;
            let oy: u32 = ty * tile_size;
            let w: u32 = if width - ox < tile_size {
                width - ox
            } else {
                tile_size
            };
            let h: u32 = if height - oy < tile_size {
                height - oy
            } else {
                tile_size
            };
            let tile_px = crop_and_pad(&pixels, width, height, ox, oy, w, h, tile_size);
            assert(tile_px@ == tile_pixels(
                pixels@,
                width,
                height,
                tile_size,
                tx as int,
                ty as int,
            ));
            let data = match encode_webp(tile_size, tile_size, &tile_px) {
                Ok(d) => d,
                Err(message) => {
                    assert(tile_encoding(image_data@, tile_size, tx as int, ty as int) is None);
                    assert(!all_tiles_encodable(image_data@, tile_size));
                    return Err(TileError::EncodeError { message });
                },
            };
            let hash = calculate_hash(data.as_slice());
            let tile = TileInfo { x: tx, y: ty, hash, data };
            proof {
                let k = tiles@.len() as int;
                assert((gw as int) * (ty as int) == (ty as int) * (gw as int))
                    by (nonlinear_arith);
                lemma_fundamental_div_mod_converse(k, gw as int, ty as int, tx as int);
                assert(tile_ok(image_data@, tile_size, gw, k, tile));
            }
            tiles.push(tile);
            tx = tx + 1;
        }
        proof {
            assert(gw * ty + gw == gw * (ty + 1)) by (nonlinear_arith);
        }
        ty = ty + 1;
    }
    proof {
        assert(gw * gh == gh * gw) by (nonlinear_arith);
        assert forall|txq: int, tyq: int|
            0 <= txq < gw && 0 <= tyq < gh implies (#[trigger] tile_encoding(
            image_data@,
            tile_size,
            txq,
            tyq,
        )) is Some by {
            let k = tyq * gw + txq;
            lemma_fundamental_div_mod_converse(k, gw as int, tyq, txq);
            assert(0 <= k < gw * gh) by {
                lemma_mul_inequality(tyq + 1, gh as int, gw as int);
                assert(tyq * (gw as int) + gw as int == (tyq + 1) * (gw as int))
                    by (nonlinear_arith);
                lemma_mul_inequality(0, tyq, gw as int);
                assert(0 * (gw as int) == 0) by (nonlinear_arith);
                assert((gh as int) * (gw as int) == (gw as int) * (gh as int))
                    by (nonlinear_arith);
            }
            assert(tile_ok(image_data@, tile_size, gw, k, tiles@[k]));
        }
    }
    Ok(TileResult { width, height, tile_size, tiles })
}

/// Tiling is deterministic: any two results that the tiling contract
/// admits for the same image bytes and tile size agree on the dimensions,
/// the tile count, and every tile's coordinates, encoded bytes and hash —
/// whatever quality was requested, since the encoder is lossless.
pub proof fn lemma_tile_image_deterministic(
    bytes: Seq<u8>,
    tile_size: u32,
    r1: TileResult,
    r2: TileResult,
)
    ensures
        (tiling_ok(bytes, tile_size, r1) && tiling_ok(bytes, tile_size, r2)) ==> {
            &&& r1.width == r2.width
            &&& r1.height == r2.height
            &&& r1.tile_size == r2.tile_size
            &&& r1.tiles@.len() == r2.tiles@.len()
            &&& forall|k: int|
                0 <= k < r1.tiles@.len() ==> {
                    &&& (#[trigger] r1.tiles@[k]).x == r2.tiles@[k].x
                    &&& r1.tiles@[k].y == r2.tiles@[k].y
                    &&& r1.tiles@[k].data@ == r2.tiles@[k].data@
                    &&& r1.tiles@[k].hash@ == r2.tiles@[k].hash@
                }
        },
{
    if tiling_ok(bytes, tile_size, r1) && tiling_ok(bytes, tile_size, r2) {
        let d = rgba_decoding(bytes)->0;
        let gw = grid_count(d.0, tile_size);
        assert forall|k: int| 0 <= k < r1.tiles@.len() implies {
            &&& (#[trigger] r1.tiles@[k]).x == r2.tiles@[k].x
            &&& r1.tiles@[k].y == r2.tiles@[k].y
            &&& r1.tiles@[k].data@ == r2.tiles@[k].data@
            &&& r1.tiles@[k].hash@ == r2.tiles@[k].hash@
        } by {
            assert(tile_ok(bytes, tile_size, gw, k, r1.tiles@[k]));
            assert(tile_ok(bytes, tile_size, gw, k, r2.tiles@[k]));
        }
    }
}

/// Whether the tile at position `k` of the list repeats the hash, and so
/// the content, of an earlier tile.
pub open spec fn is_repeat(tiles: Seq<TileInfo>, k: int) -> bool {
    exists|j: int| 0 <= j < k && tiles[j].hash@ == tiles[k].hash@
}

/// A 100 by 100 image tiled at 50 yields exactly four tiles, in row-major
/// order at grid coordinates (0,0), (1,0), (0,1), (1,1), and none needs
/// padding: every cell's extent is the full tile size in both axes, so by
/// the definition of `padded_tile` every canvas byte is a source byte and
/// no transparent fill is added.
pub proof fn lemma_hundred_square_at_fifty(bytes: Seq<u8>, r: TileResult)
    ensures
        (tiling_ok(bytes, 50, r) && r.width == 100 && r.height == 100) ==> {
            &&& r.tiles@.len() == 4
            &&& r.tiles@[0].x == 0 && r.tiles@[0].y == 0
            &&& r.tiles@[1].x == 1 && r.tiles@[1].y == 0
            &&& r.tiles@[2].x == 0 && r.tiles@[2].y == 1
            &&& r.tiles@[3].x == 1 && r.tiles@[3].y == 1
            &&& forall|t: int|
                0 <= t < 2 ==> #[trigger] clamped_extent(100, t * 50, 50) == 50
        },
{
    if tiling_ok(bytes, 50, r) && r.width == 100 && r.height == 100 {
        let d = rgba_decoding(bytes)->0;
        let gw = grid_count(d.0, 50);
        assert(gw == 2);
        assert(r.tiles@.len() == 4);
        assert(tile_ok(bytes, 50, gw, 0, r.tiles@[0]));
        assert(tile_ok(bytes, 50, gw, 1, r.tiles@[1]));
        assert(tile_ok(bytes, 50, gw, 2, r.tiles@[2]));
        assert(tile_ok(bytes, 50, gw, 3, r.tiles@[3]));
        assert(clamped_extent(100, (0 as int) * 50, 50) == 50);
        assert(clamped_extent(100, (1 as int) * 50, 50) == 50);
    }
}

/// A 100 by 100 image tiled at 64 yields four tiles at grid coordinates
/// (0,0), (1,0), (0,1), (1,1); a cell at grid position 1 overlaps the
/// source by only 36 pixels in that axis, so its canvas is padded: the
/// encoder input for cell (1,1) is a full 64 by 64 canvas whose
/// bottom-right corner pixel, outside the source extent, is transparent
/// white (RGBA 255, 255, 255, 0).
pub proof fn lemma_hundred_square_at_sixty_four(bytes: Seq<u8>, r: TileResult)
    ensures
        (tiling_ok(bytes, 64, r) && r.width == 100 && r.height == 100) ==> {
            &&& r.tiles@.len() == 4
            &&& r.tiles@[0].x == 0 && r.tiles@[0].y == 0
            &&& r.tiles@[1].x == 1 && r.tiles@[1].y == 0
            &&& r.tiles@[2].x == 0 && r.tiles@[2].y == 1
            &&& r.tiles@[3].x == 1 && r.tiles@[3].y == 1
            &&& clamped_extent(100, 0, 64) == 64
            &&& clamped_extent(100, 64, 64) == 36
            &&& tile_pixels((rgba_decoding(bytes)->0).2, 100, 100, 64, 1, 1).len() == 4 * 64 * 64
            &&& forall|c: int|
                0 <= c < 4 ==> #[trigger] tile_pixels((rgba_decoding(bytes)->0).2, 100, 100, 64, 1, 1)[4
                    * (63 * 64 + 63) + c] == (if c == 3 {
                    0u8
                } else {
                    255u8
                })
        },
{
    if tiling_ok(bytes, 64, r) && r.width == 100 && r.height == 100 {
        let d = rgba_decoding(bytes)->0;
        let gw = grid_count(d.0, 64);
        assert(gw == 2);
        assert(r.tiles@.len() == 4);
        assert(tile_ok(bytes, 64, gw, 0, r.tiles@[0]));
        assert(tile_ok(bytes, 64, gw, 1, r.tiles@[1]));
        assert(tile_ok(bytes, 64, gw, 2, r.tiles@[2]));
        assert(tile_ok(bytes, 64, gw, 3, r.tiles@[3]));
        assert forall|c: int|
            0 <= c < 4 implies #[trigger] tile_pixels(d.2, 100, 100, 64, 1, 1)[4 * (63 * 64 + 63)
            + c] == (if c == 3 {
            0u8
        } else {
            255u8
        }) by {
            lemma_padded_tile_index(d.2, 100, 64, 64, 36, 36, 64, 63, 63, c);
        }
    }
}

impl TileResult {
    /// The deduplication signal: the positions, in increasing order, of
    /// every tile whose hash already occurred earlier in the list.  The
    /// engine only detects repeats; every tile's full data stays in the
    /// result, and what to store for a repeat is the caller's decision.
    pub fn repeated_tiles(&self) -> (r: Vec<usize>)
        ensures
            forall|m1: int, m2: int| 0 <= m1 < m2 < r@.len() ==> r@[m1] < r@[m2],
            forall|m: int| 0 <= m < r@.len() ==> r@[m] < self.tiles@.len(),
            forall|k: int|
                0 <= k < self.tiles@.len() ==> (r@.contains(k as usize) <==> is_repeat(
                    self.tiles@,
                    k,
                )),
    {
        let mut r: Vec<usize> = Vec::new();
        let mut k: usize = 0;
        while k < self.tiles.len()
            invariant
                k <= self.tiles@.len(),
                forall|m1: int, m2: int| 0 <= m1 < m2 < r@.len() ==> r@[m1] < r@[m2],
                forall|m: int| 0 <= m < r@.len() ==> r@[m] < k,
                forall|kk: int|
                    0 <= kk < k ==> (r@.contains(kk as usize) <==> is_repeat(self.tiles@, kk)),
            decreases self.tiles@.len() - k,
        {
            let mut found = false;
            let mut j: usize = 0;
            while j < k
                invariant
                    j <= k,
                    k < self.tiles@.len(),
                    found <==> exists|jj: int|
                        0 <= jj < j && self.tiles@[jj].hash@ == self.tiles@[k as int].hash@,
                decreases k - j,
            {
                if self.tiles[j].hash == self.tiles[k].hash {
                    found = true;
                }
                j = j + 1;
            }
            if found {
                proof {
                    assert(!r@.contains(k));
                }
                let ghost r_old = r@;
                r.push(k);
                proof {
                    assert forall|kk: int| 0 <= kk < k + 1 implies (r@.contains(kk as usize)
                        <==> is_repeat(self.tiles@, kk)) by {
                        if kk < k {
                            if r_old.contains(kk as usize) {
                                let m = choose|m: int|
                                    0 <= m < r_old.len() && r_old[m] == kk as usize;
                                assert(r@[m] == kk as usize);
                            }
                            if r@.contains(kk as usize) {
                                let m = choose|m: int| 0 <= m < r@.len() && r@[m] == kk as usize;
                                if m < r_old.len() {
                                    assert(r_old[m] == kk as usize);
                                } else {
                                    assert(r@[m] == k);
                                }
                            }
                        } else {
                            assert(r@[r@.len() - 1] == k);
                        }
                    }
                }
            } else {
                proof {
                    assert forall|kk: int| 0 <= kk < k + 1 implies (r@.contains(kk as usize)
                        <==> is_repeat(self.tiles@, kk)) by {
                        if kk == k {
                            assert(!r@.contains(k));
                            assert(!is_repeat(self.tiles@, kk));
                        }
                    }
                }
            }
            k = k + 1;
        }
        r
    }

    /// The number of tiles of this result.
    pub fn tile_count(&self) -> (n: usize)
        ensures
            n == self.tiles@.len(),
    {
        self.tiles.len()
    }

    /// The encoded bytes of the tile at `index` in row-major order, or
    /// `IndexOutOfBounds` exactly when `index` is past the tile list.
    pub fn get_tile_data(&self, index: usize) -> (r: Result<&Vec<u8>, TileError>)
        ensures
            r is Ok <==> index < self.tiles@.len(),
            r matches Ok(d) ==> d@ == self.tiles@[index as int].data@,
            r matches Err(e) ==> e is IndexOutOfBounds,
    {
        if index >= self.tiles.len() {
            return Err(TileError::IndexOutOfBounds);
        }
        Ok(&self.tiles[index].data)
    }
}

} // verus!
