//! A tile partitioning and content-addressing engine for large raster images.
//!
//! Given raw image bytes and a tile size, the engine deterministically cuts
//! the image into a grid of fixed-size square tiles, pads edge tiles with
//! transparent white, encodes each tile, and assigns every tile an identifier
//! derived from its encoded bytes.  A separate assembler combines per-page
//! tile descriptions into one serialized metadata document.

use vstd::prelude::*;
use crate::errors::TileError;
use crate::jsonfmt::{ascii_seq, chars_of_ascii, dec_digits, string_ok, push_str_bytes,
    push_decimal, push_string_bytes, string_valid, ascii_string};

pub mod errors;
pub mod hasher;
pub mod jsonfmt;
pub mod tiler;

verus! {

/// Ceiling division on naturals: the number of tiles needed to cover
/// `len` pixels with tiles of `step` pixels each.
pub open spec fn div_ceil(len: nat, step: nat) -> nat
    recommends
        step > 0,
{
    (((len + step - 1) as int) / (step as int)) as nat
}


/// The externally supplied description of one tile: grid coordinates and
/// content hash, with no pixel data.
pub struct TileMetadata {
    /// Grid column of the tile.
    pub x: u32,
    /// Grid row of the tile.
    pub y: u32,
    /// Content digest of the tile's encoded bytes.
    pub hash: String,
}

/// The externally supplied description of one tiled page, consumed by the
/// metadata assembler.
pub struct PageInfo {
    /// Page number.
    pub page: u32,
    /// Width of the page image in pixels.
    pub width: u32,
    /// Height of the page image in pixels.
    pub height: u32,
    /// The page's tiles in row-major order.
    pub tiles: Vec<TileMetadata>,
}

/// The serialized form of one tile description.
pub open spec fn tile_json(t: TileMetadata) -> Seq<u8> {
    ascii_seq("{\"x\":"@) + dec_digits(t.x as nat) + ascii_seq(",\"y\":"@) + dec_digits(
        t.y as nat,
    ) + ascii_seq(",\"hash\":\""@) + ascii_seq(t.hash@) + ascii_seq("\"}"@)
}

/// The serialized form of a list of tile descriptions, comma separated.
pub open spec fn tiles_json(ts: Seq<TileMetadata>) -> Seq<u8>
    decreases ts.len(),
{
    if ts.len() == 0 {
        Seq::empty()
    } else if ts.len() == 1 {
        tile_json(ts[0])
    } else {
        tiles_json(ts.drop_last()) + ascii_seq(","@) + tile_json(ts.last())
    }
}

/// The serialized form of one page description.
pub open spec fn page_json(p: PageInfo) -> Seq<u8> {
    ascii_seq("{\"page\":"@) + dec_digits(p.page as nat) + ascii_seq(",\"width\":"@) + dec_digits(
        p.width as nat,
    ) + ascii_seq(",\"height\":"@) + dec_digits(p.height as nat) + ascii_seq(",\"tiles\":["@)
        + tiles_json(p.tiles@) + ascii_seq("]}"@)
}

/// The serialized form of a list of page descriptions, comma separated.
pub open spec fn pages_json(ps: Seq<PageInfo>) -> Seq<u8>
    decreases ps.len(),
{
    if ps.len() == 0 {
        Seq::empty()
    } else if ps.len() == 1 {
        page_json(ps[0])
    } else {
        pages_json(ps.drop_last()) + ascii_seq(","@) + page_json(ps.last())
    }
}

/// The serialized metadata document: the generation timestamp, the tile
/// size the pages were tiled at, and every page's tile grid.
pub open spec fn metadata_json(version: u64, tile_size: u32, ps: Seq<PageInfo>) -> Seq<u8> {
    ascii_seq("{\"version\":"@) + dec_digits(version as nat) + ascii_seq(",\"tile_size\":"@)
        + dec_digits(tile_size as nat) + ascii_seq(",\"pages\":["@) + pages_json(ps) + ascii_seq(
        "]}"@,
    )
}

/// Whether every hash of the page can stand in the document unescaped.
pub open spec fn page_ok(p: PageInfo) -> bool {
    forall|i: int| 0 <= i < p.tiles@.len() ==> string_ok((#[trigger] p.tiles@[i]).hash@)
}

/// Whether every page of the collection can be represented.
pub open spec fn pages_ok(ps: Seq<PageInfo>) -> bool {
    forall|i: int| 0 <= i < ps.len() ==> page_ok(#[trigger] ps[i])
}

/// Appends the serialized form of one tile description.
fn push_tile(out: &mut Vec<u8>, t: &TileMetadata)
    requires
        string_ok(t.hash@),
    ensures
        final(out)@ == old(out)@ + tile_json(*t),
        forall|i: int|
            old(out)@.len() <= i < final(out)@.len() ==> #[trigger] final(out)@[i] < 128,
{
    proof {
        reveal_strlit("{\"x\":");
        reveal_strlit(",\"y\":");
        reveal_strlit(",\"hash\":\"");
        reveal_strlit("\"}");
        assert("{\"x\":".is_ascii());
        assert(",\"y\":".is_ascii());
        assert(",\"hash\":\"".is_ascii());
        assert("\"}".is_ascii());
    }
    push_str_bytes(out, "{\"x\":");
    push_decimal(out, t.x as u64);
    push_str_bytes(out, ",\"y\":");
    push_decimal(out, t.y as u64);
    push_str_bytes(out, ",\"hash\":\"");
    push_string_bytes(out, t.hash.as_str());
    push_str_bytes(out, "\"}");
    proof {
        assert(out@ =~= old(out)@ + tile_json(*t));
    }
}

/// Appends the serialized form of one page description.
fn push_page(out: &mut Vec<u8>, p: &PageInfo)
    requires
        page_ok(*p),
    ensures
        final(out)@ == old(out)@ + page_json(*p),
        forall|i: int|
            old(out)@.len() <= i < final(out)@.len() ==> #[trigger] final(out)@[i] < 128,
{
    proof {
        reveal_strlit("{\"page\":");
        reveal_strlit(",\"width\":");
        reveal_strlit(",\"height\":");
        reveal_strlit(",\"tiles\":[");
        reveal_strlit("]}");
        reveal_strlit(",");
        assert("{\"page\":".is_ascii());
        assert(",\"width\":".is_ascii());
        assert(",\"height\":".is_ascii());
        assert(",\"tiles\":[".is_ascii());
        assert("]}".is_ascii());
        assert(",".is_ascii());
    }
    push_str_bytes(out, "{\"page\":");
    push_decimal(out, p.page as u64);
    push_str_bytes(out, ",\"width\":");
    push_decimal(out, p.width as u64);
    push_str_bytes(out, ",\"height\":");
    push_decimal(out, p.height as u64);
    push_str_bytes(out, ",\"tiles\":[");
    let ghost prefix = out@;
    let mut i: usize = 0;
    while i < p.tiles.len()
        invariant
            page_ok(*p),
            i <= p.tiles@.len(),
            out@ == prefix + tiles_json(p.tiles@.take(i as int)),
            forall|k: int| old(out)@.len() <= k < out@.len() ==> #[trigger] out@[k] < 128,
        decreases p.tiles@.len() - i,
    {
        proof {
            reveal_strlit(",");
            assert(",".is_ascii());
            assert(string_ok(p.tiles@[i as int].hash@));
        }
        if i > 0 {
            push_str_bytes(out, ",");
        }
        push_tile(out, &p.tiles[i]);
        proof {
            let taken = p.tiles@.take(i as int + 1);
            assert(taken.drop_last() =~= p.tiles@.take(i as int));
            assert(taken.last() == p.tiles@[i as int]);
            if i == 0 {
                assert(tiles_json(taken) == tile_json(p.tiles@[0]));
            }
            assert(out@ =~= prefix + tiles_json(p.tiles@.take(i as int + 1)));
        }
        i = i + 1;
    }
    proof {
        assert(p.tiles@.take(p.tiles@.len() as int) =~= p.tiles@);
    }
    push_str_bytes(out, "]}");
    proof {
        assert(out@ =~= old(out)@ + page_json(*p));
    }
}

/// Appends the serialized forms of all pages, comma separated.
fn push_pages(out: &mut Vec<u8>, pages: &Vec<PageInfo>)
    requires
        pages_ok(pages@),
    ensures
        final(out)@ == old(out)@ + pages_json(pages@),
        forall|i: int|
            old(out)@.len() <= i < final(out)@.len() ==> #[trigger] final(out)@[i] < 128,
{
    let ghost prefix = out@;
    let mut i: usize = 0;
    while i < pages.len()
        invariant
            pages_ok(pages@),
            i <= pages@.len(),
            prefix == old(out)@,
            out@ == prefix + pages_json(pages@.take(i as int)),
            forall|k: int| old(out)@.len() <= k < out@.len() ==> #[trigger] out@[k] < 128,
        decreases pages@.len() - i,
    {
        proof {
            reveal_strlit(",");
            assert(",".is_ascii());
            assert(page_ok(pages@[i as int]));
        }
        if i > 0 {
            push_str_bytes(out, ",");
        }
        push_page(out, &pages[i]);
        proof {
            let taken = pages@.take(i as int + 1);
            assert(taken.drop_last() =~= pages@.take(i as int));
            assert(taken.last() == pages@[i as int]);
            if i == 0 {
                assert(pages_json(taken) == page_json(pages@[0]));
            }
            assert(out@ =~= prefix + pages_json(pages@.take(i as int + 1)));
        }
        i = i + 1;
    }
    proof {
        assert(pages@.take(pages@.len() as int) =~= pages@);
    }
}

/// Reports whether every page's hashes can stand in the document.
fn pages_valid(pages: &Vec<PageInfo>) -> (ok: bool)
    ensures
        ok == pages_ok(pages@),
{
    let mut i: usize = 0;
    while i < pages.len()
        invariant
            i <= pages@.len(),
            forall|k: int| 0 <= k < i ==> page_ok(#[trigger] pages@[k]),
        decreases pages@.len() - i,
    {
        let page = &pages[i];
        let mut j: usize = 0;
        while j < page.tiles.len()
            invariant
                page == pages@[i as int],
                i < pages@.len(),
                j <= page.tiles@.len(),
                forall|k: int| 0 <= k < j ==> string_ok((#[trigger] page.tiles@[k]).hash@),
            decreases page.tiles@.len() - j,
        {
            if !string_valid(page.tiles[j].hash.as_str()) {
                proof {
                    assert(!page_ok(pages@[i as int]));
                }
                return false;
            }
            j = j + 1;
        }
        proof {
            assert(page_ok(pages@[i as int]));
        }
        i = i + 1;
    }
    true
}

/// Assembles the metadata document for a collection of tiled pages at the
/// given tile size, stamped with the given version token.  Succeeds if and
/// only if every page hash can be represented in the document; the result
/// is then exactly the serialized document.
pub fn assemble_metadata(pages: &Vec<PageInfo>, tile_size: u32, version: u64) -> (r: Result<
    String,
    TileError,
>)
    ensures
        r is Ok <==> pages_ok(pages@),
        r matches Ok(s) ==> s@ == chars_of_ascii(metadata_json(version, tile_size, pages@)),
        r matches Err(e) ==> e is MetadataParseError,
{
    if !pages_valid(pages) {
        return Err(TileError::MetadataParseError {
            message: "page hash holds a character that cannot stand in the document".to_owned(),
        });
    }
    proof {
        reveal_strlit("{\"version\":");
        reveal_strlit(",\"tile_size\":");
        reveal_strlit(",\"pages\":[");
        reveal_strlit("]}");
        assert("{\"version\":".is_ascii());
        assert(",\"tile_size\":".is_ascii());
        assert(",\"pages\":[".is_ascii());
        assert("]}".is_ascii());
    }
    let mut out: Vec<u8> = Vec::new();
    push_str_bytes(&mut out, "{\"version\":");
    push_decimal(&mut out, version);
    push_str_bytes(&mut out, ",\"tile_size\":");
    push_decimal(&mut out, tile_size as u64);
    push_str_bytes(&mut out, ",\"pages\":[");
    push_pages(&mut out, pages);
    push_str_bytes(&mut out, "]}");
    proof {
        assert(out@ =~= metadata_json(version, tile_size, pages@));
    }
    Ok(ascii_string(out))
}

/// Relies on `std::time::SystemTime::now`: a wall-clock reading; nothing
/// is assumed of the value.
#[verifier::external_body]
fn now_millis() -> u64 {
    match std::time::SystemTime::now().duration_since(std::time::UNIX_EPOCH) {
        Ok(d) => d.as_millis() as u64,
        Err(_) => 0,
    }
}

/// Assembles the metadata document for a collection of tiled pages,
/// stamped with a wall-clock timestamp read once per call.  Succeeds if
/// and only if every page hash can be represented; the result is then the
/// serialized document for some version token.
pub fn generate_metadata(pages: &Vec<PageInfo>, tile_size: u32) -> (r: Result<String, TileError>)
    ensures
        r is Ok <==> pages_ok(pages@),
        r matches Ok(s) ==> exists|version: u64|
            s@ == chars_of_ascii(#[trigger] metadata_json(version, tile_size, pages@)),
        r matches Err(e) ==> e is MetadataParseError,
{
    let version = now_millis();
    let r = assemble_metadata(pages, tile_size, version);
    match r {
        Ok(s) => {
            proof {
                assert(s@ == chars_of_ascii(metadata_json(version, tile_size, pages@)));
            }
            Ok(s)
        },
        Err(e) => Err(e),
    }
}

/// Computes the content digest of `data` as a 64-character lowercase
/// hexadecimal string; a convenience re-statement of the hasher's main
/// operation at the crate root.
pub fn calculate_hash(data: &[u8]) -> (r: String)
    ensures
        r@ == crate::hasher::digest_chars(data@),
        r@.len() == 64,
{
    crate::hasher::calculate_hash(data)
}

} // verus!

