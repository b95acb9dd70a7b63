//! The fixed 10-by-20 monospace bitmap font used for text overlays.
//!
//! Glyph shapes come from the font crate's atlas image: a 160-pixel-wide
//! bitmap holding 16 glyphs per row, each 10 by 20 pixels, indexed by the
//! ASCII glyph mapping. The atlas contents are named, not restated: the
//! library's own logic decides which atlas pixel each drawn text pixel
//! reads, and everything downstream of the lookup is verified against
//! that name.

use vstd::prelude::*;
use vstd::string::StrSliceExecFns;

use crate::canvas::hits;

use embedded_graphics::image::GetPixel;
use embedded_graphics::mono_font::ascii::FONT_10X20;
use embedded_graphics::mono_font::mapping::GlyphMapping;
use embedded_graphics::pixelcolor::BinaryColor;
use embedded_graphics::prelude::Point;

verus! {

/// Whether the font atlas is on (foreground) at a fixed coordinate. The
/// atlas is constant data, so the value depends on the coordinate alone.
pub uninterp spec fn font_atlas_pixel(x: int, y: int) -> bool;

/// Index of a character's glyph in the atlas: the ASCII range 0x20..=0x7F
/// maps to 0..=95 in order, and any other character falls back to the
/// mapping's replacement glyph, the question mark at index 31.
pub open spec fn glyph_index_of(c: char) -> int {
    if 0x20 <= c as int && c as int <= 0x7f {
        c as int - 0x20
    } else {
        31
    }
}

/// Whether a glyph is on at a column and row of its 10-by-20 box, read
/// from the atlas at 16 glyphs per row.
pub open spec fn glyph_on(c: char, col: int, row: int) -> bool
    recommends
        0 <= col < 10,
        0 <= row < 20,
{
    font_atlas_pixel(
        (glyph_index_of(c) % 16) * 10 + col,
        (glyph_index_of(c) / 16) * 20 + row,
    )
}

/// Whether a line of text is on at offset `(dx, dy)` from the top-left
/// corner of its bounding box. Characters advance ten pixels with no
/// extra spacing; every character renders its mapped glyph, unmapped
/// ones the replacement question mark.
pub open spec fn text_pixel_on(text: Seq<char>, dx: int, dy: int) -> bool {
    &&& 0 <= dy < 20
    &&& 0 <= dx < 10 * text.len()
    &&& glyph_on(text[dx / 10], dx % 10, dy)
}

/// Whether a line of text has any on pixel at all.
pub open spec fn has_text_pixel(text: Seq<char>) -> bool {
    exists|dx: int, dy: int| text_pixel_on(text, dx, dy)
}

/// The text box offsets flattened to one index: `d = 20 * dx + dy`.
pub open spec fn flat_on(text: Seq<char>, d: int) -> bool {
    text_pixel_on(text, d / 20, d % 20)
}

/// The draw point for a flattened text box offset, for text whose box
/// starts at `(x, y - 19)` (the panel draws text above its baseline
/// anchor).
pub open spec fn flat_point(x: int, y: int, d: int) -> (i32, i32, u8) {
    ((x + d / 20) as i32, (y - 19 + d % 20) as i32, 0u8)
}

/// Relies on the font crate's `GlyphMapping::index` for the FONT_10X20
/// ASCII mapping: characters 0x20..=0x7F map to 0..=95 in order, and
/// everything else to the mapping's replacement index, built as
/// `'?' as usize - ' ' as usize` = 31.
#[verifier::external_body]
fn glyph_index(c: char) -> (r: usize)
    ensures
        r as int == glyph_index_of(c),
{
    FONT_10X20.glyph_mapping.index(c)
}

/// Relies on the font crate's `ImageRaw::pixel` on the FONT_10X20 atlas:
/// the pixel value at a fixed coordinate of the constant atlas image.
#[verifier::external_body]
fn font_pixel_at(x: u32, y: u32) -> (r: bool)
    ensures
        r == font_atlas_pixel(x as int, y as int),
{
    matches!(
        FONT_10X20.image.pixel(Point::new(x as i32, y as i32)),
        Some(BinaryColor::On)
    )
}

/// Whether a character's glyph is on at a column and row of its box.
fn glyph_pixel(c: char, col: u32, row: u32) -> (r: bool)
    requires
        col < 10,
        row < 20,
    ensures
        r == glyph_on(c, col as int, row as int),
{
    let gi = glyph_index(c);
    proof {
        assert(0 <= glyph_index_of(c) < 96);
    }
    let gx: u32 = ((gi % 16) as u32) * 10 + col;
    let gy: u32 = ((gi / 16) as u32) * 20 + row;
    font_pixel_at(gx, gy)
}

/// Builds the draw list of a line of text: one black point for every on
/// pixel of every glyph, the box's top-left corner at `(x, y - 19)`.
#[verifier::rlimit(100)]
pub(crate) fn text_points(text: &str, x: i32, y: i32) -> (pts: Vec<(i32, i32, u8)>)
    requires
        text@.len() <= 100000,
        -1000000 <= x <= 1000000,
        -1000000 <= y <= 1000000,
    ensures
        forall|idx: int| 0 <= idx < pts@.len() ==> (#[trigger] pts@[idx]).2 == 0,
        forall|lx: int, ly: int| #[trigger] hits(pts@, lx, ly) <==> text_pixel_on(
            text@,
            lx - x,
            ly - (y - 19),
        ),
        pts@.len() > 0 <==> has_text_pixel(text@),
{
    let n = text.unicode_len();
    let total: usize = 200 * n;
    let mut pts: Vec<(i32, i32, u8)> = Vec::new();
    // For each collected point, the flattened text box offset it came from.
    let ghost mut ds: Seq<int> = Seq::empty();
    let mut d: usize = 0;
    while d < total
        invariant
            n == text@.len() <= 100000,
            total == 200 * n,
            -1000000 <= x <= 1000000,
            -1000000 <= y <= 1000000,
            0 <= d <= total,
            ds.len() == pts@.len(),
            forall|idx: int|
                0 <= idx < pts@.len() ==> 0 <= #[trigger] ds[idx] < d && pts@[idx] == flat_point(
                    x as int,
                    y as int,
                    ds[idx],
                ) && flat_on(text@, ds[idx]),
            forall|dd: int|
                #![trigger flat_on(text@, dd)]
                0 <= dd < d && flat_on(text@, dd) ==> exists|idx: int|
                    #![trigger pts@[idx]]
                    0 <= idx < pts@.len() && pts@[idx] == flat_point(x as int, y as int, dd),
        decreases total - d,
    {
        let dx = d / 20;
        let dy = d % 20;
        let k = dx / 10;
        let col = dx % 10;
        proof {
            assert(dx < 10 * n) by (nonlinear_arith)
                requires
                    d < 200 * n,
                    dx == d / 20,
            ;
            assert(k < n) by (nonlinear_arith)
                requires
                    dx < 10 * n,
                    k == dx / 10,
            ;
        }
        let c = text.get_char(k);
        let on = glyph_pixel(c, col as u32, dy as u32);
        proof {
            assert(dx == d as int / 20 && dy == d as int % 20);
            assert(k == dx as int / 10 && col == dx as int % 10);
            assert(text@[dx as int / 10] == c);
            assert(on == text_pixel_on(text@, dx as int, dy as int)) by {
                assert(0 <= dy < 20);
                assert(0 <= dx < 10 * text@.len());
            }
            assert(flat_on(text@, d as int) == on);
        }
        if on {
            let px: i32 = x + dx as i32;
            let py: i32 = y - 19 + dy as i32;
            let ghost before = pts@;
            pts.push((px, py, 0u8));
            proof {
                ds = ds.push(d as int);
                assert(pts@[before.len() as int] == flat_point(x as int, y as int, d as int));
                assert forall|idx: int| 0 <= idx < pts@.len() implies 0 <= #[trigger] ds[idx] < d
                    + 1 && pts@[idx] == flat_point(x as int, y as int, ds[idx]) && flat_on(
                    text@,
                    ds[idx],
                ) by {
                    if idx < before.len() {
                        assert(pts@[idx] == before[idx]);
                        assert(ds[idx] == ds.drop_last()[idx]);
                    } else {
                        assert(ds[idx] == d as int);
                    }
                }
                assert forall|dd: int| #![trigger flat_on(text@, dd)]
                    0 <= dd < d + 1 && flat_on(text@, dd) implies exists|idx: int|
                    #![trigger pts@[idx]]
                    0 <= idx < pts@.len() && pts@[idx] == flat_point(x as int, y as int, dd) by {
                    if dd < d {
                        let idx = choose|idx: int|
                            #![trigger before[idx]]
                            0 <= idx < before.len() && before[idx] == flat_point(
                                x as int,
                                y as int,
                                dd,
                            );
                        assert(pts@[idx] == flat_point(x as int, y as int, dd));
                    } else {
                        assert(pts@[before.len() as int] == flat_point(x as int, y as int, dd));
                    }
                }
            }
        } else {
            proof {
                assert forall|dd: int| #![trigger flat_on(text@, dd)]
                    0 <= dd < d + 1 && flat_on(text@, dd) implies exists|idx: int|
                    #![trigger pts@[idx]]
                    0 <= idx < pts@.len() && pts@[idx] == flat_point(x as int, y as int, dd) by {
                    assert(dd != d);
                }
            }
        }
        d = d + 1;
    }
    proof {
        assert forall|idx: int| 0 <= idx < pts@.len() implies (#[trigger] pts@[idx]).2 == 0 by {
            assert(0 <= ds[idx]);
            assert(pts@[idx] == flat_point(x as int, y as int, ds[idx]));
        }
        assert forall|lx: int, ly: int| #[trigger] hits(pts@, lx, ly) implies text_pixel_on(
            text@,
            lx - x,
            ly - (y - 19),
        ) by {
            let idx = choose|idx: int|
                0 <= idx < pts@.len() && #[trigger] pts@[idx].0 == lx && pts@[idx].1 == ly;
            let dd = ds[idx];
            assert(pts@[idx] == flat_point(x as int, y as int, dd) && flat_on(text@, dd));
            assert(0 <= dd / 20 < 10 * n && 0 <= dd % 20 < 20) by {
                assert(flat_on(text@, dd));
            }
            assert(lx == x + dd / 20 && ly == y - 19 + dd % 20);
            assert(lx - x == dd / 20 && ly - (y - 19) == dd % 20);
        }
        assert forall|lx: int, ly: int|
            text_pixel_on(text@, lx - x, ly - (y - 19)) implies #[trigger] hits(
            pts@,
            lx,
            ly,
        ) by {
            let dx = lx - x;
            let dy = ly - (y - 19);
            let dd = 20 * dx + dy;
            assert(dd / 20 == dx && dd % 20 == dy) by (nonlinear_arith)
                requires
                    dd == 20 * dx + dy,
                    0 <= dy < 20,
            ;
            assert(flat_on(text@, dd));
            assert(0 <= dd < 200 * n) by (nonlinear_arith)
                requires
                    dd == 20 * dx + dy,
                    0 <= dy < 20,
                    0 <= dx < 10 * n,
            ;
            let idx = choose|idx: int|
                #![trigger pts@[idx]]
                0 <= idx < pts@.len() && pts@[idx] == flat_point(x as int, y as int, dd);
            assert(pts@[idx].0 == lx && pts@[idx].1 == ly);
        }
        if pts@.len() > 0 {
            let dd = ds[0];
            assert(flat_on(text@, dd));
            assert(text_pixel_on(text@, dd / 20, dd % 20));
            assert(has_text_pixel(text@));
        }
        if has_text_pixel(text@) {
            let (dx, dy) = choose|dx: int, dy: int| text_pixel_on(text@, dx, dy);
            let dd = 20 * dx + dy;
            assert(dd / 20 == dx && dd % 20 == dy) by (nonlinear_arith)
                requires
                    dd == 20 * dx + dy,
                    0 <= dy < 20,
            ;
            assert(flat_on(text@, dd));
            assert(0 <= dd < 200 * n) by (nonlinear_arith)
                requires
                    dd == 20 * dx + dy,
                    0 <= dy < 20,
                    0 <= dx < 10 * n,
            ;
            assert(exists|idx: int|
                #![trigger pts@[idx]]
                0 <= idx < pts@.len() && pts@[idx] == flat_point(x as int, y as int, dd));
            assert(pts@.len() > 0);
        }
    }
    pts
}

} // verus!
