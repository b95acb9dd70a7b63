//! Raster canvas for the e-paper panel.
//!
//! A canvas accumulates 4-bit gray samples drawn at logical coordinates and
//! discovers the set of distinct tones (the palette) as it goes. A finalize
//! pass quantizes the at-most-four discovered tones down to the panel's
//! 2-bit level codes, and the encoders pack the quantized grid into the
//! byte layouts the panel controller expects.

use vstd::prelude::*;
use vstd::string::StringExecFns;

use crate::error::Error;
use crate::fmt::format_padded4;
use crate::fmt::format_tenths;
use crate::fmt::lemma_dec_digits_len_le;
use crate::fmt::padded4;
use crate::fmt::pow10;
use crate::fmt::tenths_str;
use crate::font::has_text_pixel;
use crate::font::text_pixel_on;
use crate::font::text_points;
use crate::scd41::MeasureResult;

verus! {

/// 2-bit level code for black (darkest tone).
pub const LEVEL_BLACK: u8 = 0x03;

/// 2-bit level code for dark gray.
pub const LEVEL_DARK_GRAY: u8 = 0x01;

/// 2-bit level code for light gray.
pub const LEVEL_LIGHT_GRAY: u8 = 0x02;

/// 2-bit level code for white.
pub const LEVEL_WHITE: u8 = 0x00;

/// Raw samples are biased by this amount when stored, so that a drawn
/// sample can never collide with the undrawn sentinel 0 or with one of the
/// four level codes 0..=3 that quantization writes back.
pub const SAMPLE_BIAS: u8 = 0x10;

/// A sequence of bytes is sorted in ascending order.
pub open spec fn sorted_u8(s: Seq<u8>) -> bool {
    forall|i: int, j: int| 0 <= i < j < s.len() ==> s[i] <= s[j]
}

/// A sequence of bytes has no repeated element.
pub open spec fn distinct_u8(s: Seq<u8>) -> bool {
    forall|i: int, j: int| 0 <= i < j < s.len() ==> s[i] != s[j]
}

/// The biased form under which a raw 4-bit sample is stored in the grid.
pub open spec fn biased(sample: u8) -> u8
    recommends
        sample < 0x10,
{
    (sample + SAMPLE_BIAS) as u8
}

/// Insertion of a value into an ascending palette, keeping order and
/// dropping the value when it is already present.
pub open spec fn palette_insert(pal: Seq<u8>, v: u8) -> Seq<u8>
    decreases pal.len(),
{
    if pal.len() == 0 {
        seq![v]
    } else if v < pal[0] {
        seq![v] + pal
    } else if v == pal[0] {
        pal
    } else {
        seq![pal[0]] + palette_insert(pal.drop_first(), v)
    }
}

/// Effect of drawing one point: the sample's biased value joins the
/// palette, and when the point lies inside the canvas it is written to the
/// grid at the mirrored x-coordinate (the panel's scan direction is
/// reversed relative to logical drawing coordinates).
pub open spec fn draw_point_grid(
    g: Seq<Seq<u8>>,
    w: int,
    h: int,
    p: (i32, i32, u8),
) -> Seq<Seq<u8>> {
    if 0 <= p.0 < w && 0 <= p.1 < h {
        g.update(w - 1 - p.0, g[w - 1 - p.0].update(p.1 as int, biased(p.2)))
    } else {
        g
    }
}

/// Grid contents after drawing a list of points in order.
pub open spec fn draw_all_grid(
    g: Seq<Seq<u8>>,
    w: int,
    h: int,
    pts: Seq<(i32, i32, u8)>,
) -> Seq<Seq<u8>>
    decreases pts.len(),
{
    if pts.len() == 0 {
        g
    } else {
        draw_all_grid(draw_point_grid(g, w, h, pts[0]), w, h, pts.drop_first())
    }
}

/// Palette contents after drawing a list of points in order. Every point
/// registers its sample, whether or not it lies inside the canvas.
pub open spec fn draw_all_palette(pal: Seq<u8>, pts: Seq<(i32, i32, u8)>) -> Seq<u8>
    decreases pts.len(),
{
    if pts.len() == 0 {
        pal
    } else {
        draw_all_palette(palette_insert(pal, biased(pts[0].2)), pts.drop_first())
    }
}

/// Number of points of a draw list that fall outside a w-by-h canvas.
pub open spec fn out_of_bounds_count(pts: Seq<(i32, i32, u8)>, w: int, h: int) -> int
    decreases pts.len(),
{
    if pts.len() == 0 {
        0
    } else {
        (if 0 <= pts[0].0 < w && 0 <= pts[0].1 < h {
            0int
        } else {
            1int
        }) + out_of_bounds_count(pts.drop_first(), w, h)
    }
}

/// Output bit of the 1bpp layout for one cell: 0 (panel black) when the
/// cell's 2-bit level has its least-significant bit set (black or dark
/// gray), 1 (panel white) otherwise. The polarity is inverted relative to
/// the level codes because the panel's "1" bit means white.
pub open spec fn bw_bit(c: u8) -> u8 {
    if c & 1 == 1 {
        0
    } else {
        1
    }
}

/// Eight cells packed into one 1bpp byte, most significant bit first.
pub open spec fn bw_pack8(c0: u8, c1: u8, c2: u8, c3: u8, c4: u8, c5: u8, c6: u8, c7: u8) -> u8 {
    (bw_bit(c0) << 7) | (bw_bit(c1) << 6) | (bw_bit(c2) << 5) | (bw_bit(c3) << 4) | (bw_bit(c4)
        << 3) | (bw_bit(c5) << 2) | (bw_bit(c6) << 1) | bw_bit(c7)
}

/// Byte `j` of a column's 1bpp packing: eight cells, most significant bit
/// first.
pub open spec fn bw_byte(row: Seq<u8>, j: int) -> u8 {
    bw_pack8(
        row[8 * j],
        row[8 * j + 1],
        row[8 * j + 2],
        row[8 * j + 3],
        row[8 * j + 4],
        row[8 * j + 5],
        row[8 * j + 6],
        row[8 * j + 7],
    )
}

/// The whole grid packed in the 1bpp layout, column by column.
pub open spec fn pack_black_white(g: Seq<Seq<u8>>, h: int) -> Seq<u8>
    recommends
        h % 8 == 0,
{
    Seq::new((g.len() * (h / 8)) as nat, |k: int| bw_byte(g[k / (h / 8)], k % (h / 8)))
}

/// Four cells packed into one 2bpp byte, most significant pair first.
pub open spec fn gray_pack4(c0: u8, c1: u8, c2: u8, c3: u8) -> u8 {
    ((c0 & 3) << 6) | ((c1 & 3) << 4) | ((c2 & 3) << 2) | (c3 & 3)
}

/// Byte `j` of a column's 2bpp packing: four cells of two bits each, most
/// significant pair first.
pub open spec fn gray_byte(row: Seq<u8>, j: int) -> u8 {
    gray_pack4(row[4 * j], row[4 * j + 1], row[4 * j + 2], row[4 * j + 3])
}

/// The whole grid packed in the 2bpp layout, column by column.
pub open spec fn pack_gray(g: Seq<Seq<u8>>, h: int) -> Seq<u8>
    recommends
        h % 4 == 0,
{
    Seq::new((g.len() * (h / 4)) as nat, |k: int| gray_byte(g[k / (h / 4)], k % (h / 4)))
}

/// The panel's rank-to-level table. Palette entries are sorted ascending,
/// so rank 0 is always the darkest observed tone. The table is not uniform
/// across palette sizes: with two or three tones rank 1 maps to light
/// gray, while with four tones rank 1 maps to dark gray. This quirk is
/// part of the controller protocol and is preserved exactly.
pub open spec fn level_code(size: int, rank: int) -> u8 {
    if size == 1 {
        LEVEL_BLACK
    } else if size == 2 {
        if rank == 0 {
            LEVEL_BLACK
        } else {
            LEVEL_LIGHT_GRAY
        }
    } else if size == 3 {
        if rank == 0 {
            LEVEL_BLACK
        } else if rank == 1 {
            LEVEL_LIGHT_GRAY
        } else {
            LEVEL_DARK_GRAY
        }
    } else {
        if rank == 0 {
            LEVEL_BLACK
        } else if rank == 1 {
            LEVEL_DARK_GRAY
        } else if rank == 2 {
            LEVEL_LIGHT_GRAY
        } else {
            LEVEL_WHITE
        }
    }
}

/// Position of a value in a palette (unique when the palette is
/// duplicate-free).
pub open spec fn palette_rank(pal: Seq<u8>, v: u8) -> int {
    choose|i: int| 0 <= i < pal.len() && pal[i] == v
}

/// Quantization of a single cell: a cell that exactly matches a palette
/// entry is rewritten to that entry's level code; any other cell is left
/// untouched.
pub open spec fn quantize_sample(pal: Seq<u8>, c: u8) -> u8 {
    if pal.contains(c) {
        level_code(pal.len() as int, palette_rank(pal, c))
    } else {
        c
    }
}

/// Cell-wise quantization of the whole grid.
pub open spec fn quantize_grid(pal: Seq<u8>, g: Seq<Seq<u8>>) -> Seq<Seq<u8>> {
    Seq::new(g.len(), |i: int| Seq::new(g[i].len(), |j: int| quantize_sample(pal, g[i][j])))
}

/// `palette_insert` keeps a sorted, duplicate-free palette sorted and
/// duplicate-free, only ever adds the inserted value, and leaves the
/// palette alone when the value is already present.
#[verifier::rlimit(60)]
pub proof fn lemma_palette_insert_props(pal: Seq<u8>, v: u8)
    requires
        sorted_u8(pal),
        distinct_u8(pal),
    ensures
        sorted_u8(palette_insert(pal, v)),
        distinct_u8(palette_insert(pal, v)),
        forall|x: u8| #[trigger] palette_insert(pal, v).contains(x) <==> (pal.contains(x) || x == v),
        pal.contains(v) ==> palette_insert(pal, v) == pal,
        !pal.contains(v) ==> palette_insert(pal, v).len() == pal.len() + 1,
    decreases pal.len(),
{
    let r = palette_insert(pal, v);
    if pal.len() == 0 {
        assert(r =~= seq![v]);
        assert forall|x: u8| #[trigger] r.contains(x) implies (pal.contains(x) || x == v) by {
            let i = choose|i: int| 0 <= i < r.len() && r[i] == x;
        }
        assert(r.contains(v)) by {
            assert(r[0] == v);
        }
    } else if v < pal[0] {
        assert(r =~= seq![v] + pal);
        assert forall|x: u8| pal.contains(x) || x == v implies #[trigger] r.contains(x) by {
            if x == v {
                assert(r[0] == v);
            } else {
                let i = choose|i: int| 0 <= i < pal.len() && pal[i] == x;
                assert(r[i + 1] == x);
            }
        }
        assert(!pal.contains(v)) by {
            assert forall|i: int| 0 <= i < pal.len() implies pal[i] != v by {
                if i > 0 {
                    assert(pal[0] <= pal[i]);
                }
            }
        }
    } else if v == pal[0] {
        assert(pal.contains(v)) by {
            assert(pal[0] == v);
        }
    } else {
        let rest = pal.drop_first();
        lemma_palette_insert_props(rest, v);
        let rr = palette_insert(rest, v);
        assert(r =~= seq![pal[0]] + rr);
        // Every element of the recursive result is either v or an element
        // of rest, both strictly above pal[0].
        assert forall|i: int| 0 <= i < rr.len() implies pal[0] < rr[i] by {
            assert(rr.contains(rr[i]));
            if rr[i] != v {
                assert(rest.contains(rr[i]));
                let j = choose|j: int| 0 <= j < rest.len() && rest[j] == rr[i];
                assert(pal[0] <= pal[j + 1]);
                assert(pal[0] != pal[j + 1]);
            }
        }
        assert(sorted_u8(r)) by {
            assert forall|i: int, j: int| 0 <= i < j < r.len() implies r[i] <= r[j] by {
                if i > 0 {
                    assert(rr[i - 1] <= rr[j - 1]);
                }
            }
        }
        assert(distinct_u8(r)) by {
            assert forall|i: int, j: int| 0 <= i < j < r.len() implies r[i] != r[j] by {
                if i > 0 {
                    assert(rr[i - 1] != rr[j - 1]);
                }
            }
        }
        assert forall|x: u8| #[trigger] r.contains(x) implies (pal.contains(x) || x == v) by {
            let i = choose|i: int| 0 <= i < r.len() && r[i] == x;
            if i == 0 {
                assert(pal[0] == x);
            } else {
                assert(rr[i - 1] == x);
                assert(rr.contains(x));
                if rest.contains(x) {
                    let j = choose|j: int| 0 <= j < rest.len() && rest[j] == x;
                    assert(pal[j + 1] == x);
                }
            }
        }
        assert forall|x: u8| pal.contains(x) || x == v implies #[trigger] r.contains(x) by {
            if x == v {
                assert(rr.contains(v));
                let j = choose|j: int| 0 <= j < rr.len() && rr[j] == v;
                assert(r[j + 1] == v);
            } else {
                let i = choose|i: int| 0 <= i < pal.len() && pal[i] == x;
                if i == 0 {
                    assert(r[0] == x);
                } else {
                    assert(rest[i - 1] == x);
                    assert(rest.contains(x));
                    assert(rr.contains(x));
                    let j = choose|j: int| 0 <= j < rr.len() && rr[j] == x;
                    assert(r[j + 1] == x);
                }
            }
        }
        if pal.contains(v) {
            assert(rest.contains(v)) by {
                let i = choose|i: int| 0 <= i < pal.len() && pal[i] == v;
                assert(i != 0);
                assert(rest[i - 1] == v);
            }
            assert(r =~= pal) by {
                assert(rr == rest);
            }
        } else {
            assert(!rest.contains(v)) by {
                if rest.contains(v) {
                    let i = choose|i: int| 0 <= i < rest.len() && rest[i] == v;
                    assert(pal[i + 1] == v);
                }
            }
        }
    }
}

/// Where a linear scan of a sorted palette stops, `palette_insert` either
/// finds the value in place or inserts it exactly there.
proof fn lemma_palette_insert_at(pal: Seq<u8>, v: u8, k: int)
    requires
        sorted_u8(pal),
        0 <= k <= pal.len(),
        forall|i: int| 0 <= i < k ==> pal[i] < v,
        k < pal.len() ==> pal[k] >= v,
    ensures
        k < pal.len() && pal[k] == v ==> palette_insert(pal, v) == pal,
        !(k < pal.len() && pal[k] == v) ==> palette_insert(pal, v) == pal.take(k) + seq![v]
            + pal.skip(k),
    decreases pal.len(),
{
    if k == 0 {
        if pal.len() == 0 {
            assert(palette_insert(pal, v) =~= pal.take(0) + seq![v] + pal.skip(0));
        } else if pal[0] == v {
        } else {
            assert(v < pal[0]);
            assert(palette_insert(pal, v) =~= pal.take(0) + seq![v] + pal.skip(0));
        }
    } else {
        assert(pal[0] < v);
        let rest = pal.drop_first();
        assert forall|i: int| 0 <= i < k - 1 implies rest[i] < v by {
            assert(pal[i + 1] < v);
        }
        lemma_palette_insert_at(rest, v, k - 1);
        if k < pal.len() && pal[k] == v {
            assert(rest[k - 1] == v);
            assert(palette_insert(pal, v) =~= seq![pal[0]] + palette_insert(rest, v));
            assert(palette_insert(pal, v) =~= pal);
        } else {
            assert(!(k - 1 < rest.len() && rest[k - 1] == v));
            assert(palette_insert(rest, v) == rest.take(k - 1) + seq![v] + rest.skip(k - 1));
            assert(palette_insert(pal, v) =~= seq![pal[0]] + palette_insert(rest, v));
            assert(palette_insert(pal, v) =~= pal.take(k) + seq![v] + pal.skip(k));
        }
    }
}

/// Finds the rank of a value in a duplicate-free palette.
fn palette_rank_exec(colors: &Vec<u8>, c: u8) -> (r: Option<usize>)
    requires
        distinct_u8(colors@),
    ensures
        match r {
            Some(j) => j < colors@.len() && colors@[j as int] == c && palette_rank(colors@, c)
                == j,
            None => !colors@.contains(c),
        },
{
    let mut j: usize = 0;
    while j < colors.len()
        invariant
            0 <= j <= colors@.len(),
            distinct_u8(colors@),
            forall|t: int| 0 <= t < j ==> colors@[t] != c,
        decreases colors@.len() - j,
    {
        if colors[j] == c {
            proof {
                assert(colors@.contains(c)) by {
                    assert(colors@[j as int] == c);
                }
                let i = palette_rank(colors@, c);
                assert(colors@[i] == c);
                assert(i == j);
            }
            return Some(j);
        }
        j = j + 1;
    }
    proof {
        if colors@.contains(c) {
            let i = choose|i: int| 0 <= i < colors@.len() && colors@[i] == c;
            assert(colors@[i] != c);
        }
    }
    None
}

/// Executable form of the rank-to-level table.
fn level_code_exec(size: usize, rank: usize) -> (r: u8)
    requires
        1 <= size <= 4,
        rank < size,
    ensures
        r == level_code(size as int, rank as int),
{
    if size == 1 {
        LEVEL_BLACK
    } else if size == 2 {
        if rank == 0 {
            LEVEL_BLACK
        } else {
            LEVEL_LIGHT_GRAY
        }
    } else if size == 3 {
        if rank == 0 {
            LEVEL_BLACK
        } else if rank == 1 {
            LEVEL_LIGHT_GRAY
        } else {
            LEVEL_DARK_GRAY
        }
    } else {
        if rank == 0 {
            LEVEL_BLACK
        } else if rank == 1 {
            LEVEL_DARK_GRAY
        } else if rank == 2 {
            LEVEL_LIGHT_GRAY
        } else {
            LEVEL_WHITE
        }
    }
}

/// Registers a biased sample value in the ascending palette.
fn register_color(colors: &mut Vec<u8>, v: u8)
    requires
        sorted_u8(old(colors)@),
    ensures
        final(colors)@ == palette_insert(old(colors)@, v),
{
    let ghost pal = colors@;
    let mut k: usize = 0;
    while k < colors.len() && colors[k] < v
        invariant
            0 <= k <= colors.len(),
            colors@ == pal,
            forall|i: int| 0 <= i < k ==> pal[i] < v,
        decreases colors.len() - k,
    {
        k = k + 1;
    }
    proof {
        lemma_palette_insert_at(pal, v, k as int);
    }
    if k < colors.len() && colors[k] == v {
        // already present
    } else {
        colors.insert(k, v);
        assert(colors@ =~= pal.take(k as int) + seq![v] + pal.skip(k as int));
    }
}

/// Unrolls one step at the back of the grid fold.
proof fn lemma_draw_all_grid_snoc(
    g: Seq<Seq<u8>>,
    w: int,
    h: int,
    pts: Seq<(i32, i32, u8)>,
    p: (i32, i32, u8),
)
    ensures
        draw_all_grid(g, w, h, pts.push(p)) == draw_point_grid(
            draw_all_grid(g, w, h, pts),
            w,
            h,
            p,
        ),
    decreases pts.len(),
{
    let e = pts.push(p);
    if pts.len() == 0 {
        assert(e[0] == p);
        assert(e.drop_first() =~= Seq::<(i32, i32, u8)>::empty());
        assert(draw_all_grid(g, w, h, e) == draw_all_grid(
            draw_point_grid(g, w, h, p),
            w,
            h,
            e.drop_first(),
        ));
    } else {
        assert(e[0] == pts[0]);
        assert(e.drop_first() =~= pts.drop_first().push(p));
        lemma_draw_all_grid_snoc(draw_point_grid(g, w, h, pts[0]), w, h, pts.drop_first(), p);
        assert(draw_all_grid(g, w, h, e) == draw_all_grid(
            draw_point_grid(g, w, h, e[0]),
            w,
            h,
            e.drop_first(),
        ));
    }
}

/// Unrolls one step at the back of the palette fold.
proof fn lemma_draw_all_palette_snoc(pal: Seq<u8>, pts: Seq<(i32, i32, u8)>, p: (i32, i32, u8))
    ensures
        draw_all_palette(pal, pts.push(p)) == palette_insert(
            draw_all_palette(pal, pts),
            biased(p.2),
        ),
    decreases pts.len(),
{
    let e = pts.push(p);
    if pts.len() == 0 {
        assert(e[0] == p);
        assert(e.drop_first() =~= Seq::<(i32, i32, u8)>::empty());
        assert(draw_all_palette(pal, e) == draw_all_palette(
            palette_insert(pal, biased(p.2)),
            e.drop_first(),
        ));
    } else {
        assert(e[0] == pts[0]);
        assert(e.drop_first() =~= pts.drop_first().push(p));
        lemma_draw_all_palette_snoc(palette_insert(pal, biased(pts[0].2)), pts.drop_first(), p);
        assert(draw_all_palette(pal, e) == draw_all_palette(
            palette_insert(pal, biased(e[0].2)),
            e.drop_first(),
        ));
    }
}

/// Unrolls one step at the back of the out-of-bounds count.
proof fn lemma_out_of_bounds_count_snoc(pts: Seq<(i32, i32, u8)>, p: (i32, i32, u8), w: int, h: int)
    ensures
        out_of_bounds_count(pts.push(p), w, h) == out_of_bounds_count(pts, w, h) + (
        if 0 <= p.0 < w && 0 <= p.1 < h {
            0int
        } else {
            1int
        }),
    decreases pts.len(),
{
    let e = pts.push(p);
    if pts.len() == 0 {
        assert(e[0] == p);
        assert(e.drop_first() =~= Seq::<(i32, i32, u8)>::empty());
        assert(out_of_bounds_count(e.drop_first(), w, h) == 0);
    } else {
        assert(e[0] == pts[0]);
        assert(e.drop_first() =~= pts.drop_first().push(p));
        lemma_out_of_bounds_count_snoc(pts.drop_first(), p, w, h);
        assert(out_of_bounds_count(e, w, h) == (if 0 <= e[0].0 < w && 0 <= e[0].1 < h {
            0int
        } else {
            1int
        }) + out_of_bounds_count(e.drop_first(), w, h));
    }
}

/// Raster store of per-pixel gray samples, with the palette of distinct
/// sample values discovered so far. The grid is indexed by the physical
/// (mirrored) x-coordinate first, then y.
pub struct Canvas {
    width: u32,
    height: u32,
    colors: Vec<u8>,
    pixels: Vec<Vec<u8>>,
}

impl Canvas {
    /// Logical width in pixels.
    pub closed spec fn spec_width(self) -> int {
        self.width as int
    }

    /// Logical height in pixels.
    pub closed spec fn spec_height(self) -> int {
        self.height as int
    }

    /// The grid as a sequence of columns of samples (physical x first).
    pub closed spec fn grid(self) -> Seq<Seq<u8>> {
        Seq::new(self.pixels@.len(), |i: int| self.pixels@[i]@)
    }

    /// The palette of biased sample values, ascending.
    pub closed spec fn palette(self) -> Seq<u8> {
        self.colors@
    }

    /// Structural invariant: the grid matches the stated dimensions, the
    /// palette is an ascending set of biased samples, and every cell holds
    /// either the undrawn sentinel 0, a 2-bit level code, or a biased
    /// sample that the palette has registered.
    pub open spec fn wf(self) -> bool {
        &&& self.grid().len() == self.spec_width()
        &&& forall|i: int|
            0 <= i < self.grid().len() ==> (#[trigger] self.grid()[i]).len() == self.spec_height()
        &&& sorted_u8(self.palette())
        &&& distinct_u8(self.palette())
        &&& forall|i: int|
            0 <= i < self.palette().len() ==> SAMPLE_BIAS <= #[trigger] self.palette()[i] < 0x20
        &&& forall|i: int, j: int|
            0 <= i < self.grid().len() && 0 <= j < self.grid()[i].len() ==> {
                let c = #[trigger] self.grid()[i][j];
                c < 4 || (SAMPLE_BIAS <= c < 0x20)
            }
    }

    /// Width accessor.
    pub fn width(&self) -> (w: u32)
        ensures
            w == self.spec_width(),
    {
        self.width
    }

    /// Height accessor.
    pub fn height(&self) -> (h: u32)
        ensures
            h == self.spec_height(),
    {
        self.height
    }

    /// Creates a canvas whose cells all hold the undrawn sentinel and whose
    /// palette is empty.
    pub fn new(width: u32, height: u32) -> (c: Canvas)
        ensures
            c.wf(),
            c.spec_width() == width,
            c.spec_height() == height,
            c.palette() == Seq::<u8>::empty(),
            forall|i: int, j: int|
                0 <= i < width && 0 <= j < height ==> #[trigger] c.grid()[i][j] == 0,
    {
        let mut pixels: Vec<Vec<u8>> = Vec::new();
        let mut i: u32 = 0;
        while i < width
            invariant
                i <= width,
                pixels@.len() == i,
                forall|k: int| 0 <= k < i ==> (#[trigger] pixels@[k])@.len() == height,
                forall|k: int, j: int|
                    0 <= k < i && 0 <= j < height ==> #[trigger] pixels@[k]@[j] == 0,
            decreases width - i,
        {
            let row: Vec<u8> = vec![0u8; height as usize];
            pixels.push(row);
            i = i + 1;
        }
        Canvas { width, height, colors: Vec::new(), pixels }
    }

    /// Draws a list of `(x, y, sample)` points in order. Each sample is a
    /// 4-bit gray value; it is stored in biased form at the mirrored
    /// x-coordinate and registered in the palette. Points outside the
    /// canvas are skipped (their samples are still registered); the number
    /// of skipped points is returned as a warning to the caller.
    pub fn draw(&mut self, points: &Vec<(i32, i32, u8)>) -> (skipped: usize)
        requires
            old(self).wf(),
            forall|k: int| 0 <= k < points@.len() ==> (#[trigger] points@[k]).2 < 0x10,
        ensures
            final(self).wf(),
            final(self).spec_width() == old(self).spec_width(),
            final(self).spec_height() == old(self).spec_height(),
            final(self).grid() == draw_all_grid(
                old(self).grid(),
                old(self).spec_width(),
                old(self).spec_height(),
                points@,
            ),
            final(self).palette() == draw_all_palette(old(self).palette(), points@),
            skipped == out_of_bounds_count(
                points@,
                old(self).spec_width(),
                old(self).spec_height(),
            ),
    {
        let ghost g0 = self.grid();
        let ghost pal0 = self.palette();
        let ghost w = self.spec_width();
        let ghost h = self.spec_height();
        let mut skipped: usize = 0;
        let mut k: usize = 0;
        while k < points.len()
            invariant
                self.wf(),
                self.spec_width() == w,
                self.spec_height() == h,
                0 <= k <= points@.len(),
                forall|t: int| 0 <= t < points@.len() ==> (#[trigger] points@[t]).2 < 0x10,
                self.grid() == draw_all_grid(g0, w, h, points@.take(k as int)),
                self.palette() == draw_all_palette(pal0, points@.take(k as int)),
                skipped == out_of_bounds_count(points@.take(k as int), w, h),
                skipped <= k,
            decreases points@.len() - k,
        {
            let (x, y, sample) = points[k];
            let v: u8 = sample + SAMPLE_BIAS;
            let ghost pre = *self;
            proof {
                assert(points@.take(k + 1) =~= points@.take(k as int).push(points@[k as int]));
                lemma_draw_all_grid_snoc(g0, w, h, points@.take(k as int), points@[k as int]);
                lemma_draw_all_palette_snoc(pal0, points@.take(k as int), points@[k as int]);
                lemma_out_of_bounds_count_snoc(points@.take(k as int), points@[k as int], w, h);
                lemma_palette_insert_props(self.palette(), v);
            }
            register_color(&mut self.colors, v);
            if 0 <= x && (x as u32) < self.width && 0 <= y && (y as u32) < self.height {
                let px: usize = (self.width - 1 - x as u32) as usize;
                let py: usize = y as usize;
                let row: &mut Vec<u8> = &mut self.pixels[px];
                proof {
                    assert(pre.grid()[px as int].len() == h);
                }
                row.set(py, v);
                proof {
                    assert(self.grid() =~= pre.grid().update(
                        px as int,
                        pre.grid()[px as int].update(py as int, v),
                    ));
                }
            } else {
                skipped = skipped + 1;
                proof {
                    assert(self.grid() =~= pre.grid());
                }
            }
            proof {
                assert forall|i: int|
                    0 <= i < self.palette().len() implies SAMPLE_BIAS
                    <= #[trigger] self.palette()[i] < 0x20 by {
                    assert(self.palette().contains(self.palette()[i]));
                }
                assert forall|i: int, j: int|
                    0 <= i < self.grid().len() && 0 <= j < self.grid()[i].len() implies {
                    let c = #[trigger] self.grid()[i][j];
                    c < 4 || (SAMPLE_BIAS <= c < 0x20)
                } by {
                    let c = self.grid()[i][j];
                    if c != v {
                        assert(c == pre.grid()[i][j]);
                    }
                }
            }
            k = k + 1;
        }
        proof {
            assert(points@.take(points@.len() as int) =~= points@);
        }
        skipped
    }

    /// Quantizes the canvas in place: every cell that exactly matches one
    /// of the at-most-four discovered tones is rewritten to that tone's
    /// 2-bit level code. With more than four tones the frame cannot be
    /// shown and the canvas is left as it was, reporting the offending
    /// palette.
    pub fn finalize_quantize(&mut self) -> (r: Result<(), Error>)
        requires
            old(self).wf(),
        ensures
            final(self).wf(),
            final(self).spec_width() == old(self).spec_width(),
            final(self).spec_height() == old(self).spec_height(),
            final(self).palette() == old(self).palette(),
            r is Err <==> old(self).palette().len() > 4,
            r matches Err(e) ==> {
                &&& final(self).grid() == old(self).grid()
                &&& e matches Error::TooManyColors { count, values } && count == old(
                    self,
                ).palette().len() && values@ == old(self).palette()
            },
            r is Ok ==> final(self).grid() == quantize_grid(
                old(self).palette(),
                old(self).grid(),
            ),
    {
        let n = self.colors.len();
        if n > 4 {
            return Err(
                Error::TooManyColors { count: n, values: self.colors.clone() },
            );
        }
        if n == 0 {
            proof {
                assert forall|i: int|
                    0 <= i < self.grid().len() implies self.grid()[i]
                    =~= quantize_grid(self.palette(), self.grid())[i] by {}
                assert(self.grid() =~~= quantize_grid(self.palette(), self.grid()));
            }
            return Ok(());
        }
        let ghost g0 = self.grid();
        let ghost pal = self.palette();
        let ghost target = quantize_grid(pal, g0);
        let width = self.width as usize;
        let height = self.height as usize;
        let mut px: usize = 0;
        while px < width
            invariant
                self.wf(),
                1 <= self.palette().len() <= 4,
                self.spec_width() == width,
                self.spec_height() == height,
                self.palette() == pal,
                0 <= px <= width,
                target == quantize_grid(pal, g0),
                g0.len() == width,
                forall|i: int| 0 <= i < width ==> (#[trigger] g0[i]).len() == height,
                self.grid().len() == width,
                forall|i: int, j: int|
                    0 <= i < width && 0 <= j < height ==> #[trigger] self.grid()[i][j] == (
                    if i < px {
                        target[i][j]
                    } else {
                        g0[i][j]
                    }),
            decreases width - px,
        {
            let mut py: usize = 0;
            while py < height
                invariant
                    self.wf(),
                    1 <= self.palette().len() <= 4,
                    self.spec_width() == width,
                    self.spec_height() == height,
                    self.palette() == pal,
                    0 <= px < width,
                    0 <= py <= height,
                    target == quantize_grid(pal, g0),
                    g0.len() == width,
                    forall|i: int| 0 <= i < width ==> (#[trigger] g0[i]).len() == height,
                    self.grid().len() == width,
                    forall|i: int, j: int|
                        0 <= i < width && 0 <= j < height ==> #[trigger] self.grid()[i][j] == (
                        if i < px || (i == px && j < py) {
                            target[i][j]
                        } else {
                            g0[i][j]
                        }),
                decreases height - py,
            {
                proof {
                    assert(self.pixels@.len() == width);
                    assert(self.grid()[px as int].len() == height);
                    assert(self.pixels@[px as int]@.len() == height);
                }
                let c = self.pixels[px][py];
                let ghost pre = *self;
                match palette_rank_exec(&self.colors, c) {
                    Some(rank) => {
                        let level = level_code_exec(self.colors.len(), rank);
                        let row: &mut Vec<u8> = &mut self.pixels[px];
                        row.set(py, level);
                        proof {
                            assert(self.grid() =~= pre.grid().update(
                                px as int,
                                pre.grid()[px as int].update(py as int, level),
                            ));
                            assert(pal.contains(c)) by {
                                assert(pal[rank as int] == c);
                            }
                            assert(target[px as int][py as int] == level);
                        }
                    },
                    None => {
                        proof {
                            assert(target[px as int][py as int] == c);
                        }
                    },
                }
                py = py + 1;
            }
            px = px + 1;
        }
        proof {
            assert forall|i: int| 0 <= i < width implies self.grid()[i] =~= target[i] by {}
            assert(self.grid() =~~= target);
        }
        Ok(())
    }

    /// Packs the quantized grid into the 1bpp black/white layout: one bit
    /// per pixel, eight pixels per byte, most significant bit first, panel
    /// polarity (1 = white). The height must be a multiple of eight so
    /// that every column packs into whole bytes.
    pub fn render_black_white(&self) -> (data: Vec<u8>)
        requires
            self.wf(),
            self.spec_height() % 8 == 0,
        ensures
            data@ == pack_black_white(self.grid(), self.spec_height()),
            data@.len() == self.spec_width() * self.spec_height() / 8,
    {
        let width = self.width as usize;
        let height = self.height as usize;
        let h8 = height / 8;
        proof {
            assert(8 * (height as int / 8) == height);
        }
        let ghost target = pack_black_white(self.grid(), self.spec_height());
        let mut data: Vec<u8> = Vec::new();
        let mut px: usize = 0;
        while px < width
            invariant
                self.wf(),
                self.spec_width() == width,
                self.spec_height() == height,
                h8 == height / 8,
                8 * h8 == height,
                0 <= px <= width,
                target == pack_black_white(self.grid(), height as int),
                data@.len() == px * h8,
                forall|k: int| 0 <= k < data@.len() ==> data@[k] == target[k],
            decreases width - px,
        {
            let ghost row = self.grid()[px as int];
            let mut j: usize = 0;
            while j < h8
                invariant
                    self.wf(),
                    self.spec_width() == width,
                    self.spec_height() == height,
                    h8 == height / 8,
                    8 * h8 == height,
                    0 <= px < width,
                    0 <= j <= h8,
                    row == self.grid()[px as int],
                    row.len() == height,
                    target == pack_black_white(self.grid(), height as int),
                    data@.len() == px * h8 + j,
                    forall|k: int| 0 <= k < data@.len() ==> data@[k] == target[k],
                decreases h8 - j,
            {
                proof {
                    assert(self.pixels@.len() == width);
                    assert(self.pixels@[px as int]@.len() == height);
                    assert(8 * (j as int) + 7 < height);
                }
                let base = 8 * j;
                let c0 = self.pixels[px][base];
                let c1 = self.pixels[px][base + 1];
                let c2 = self.pixels[px][base + 2];
                let c3 = self.pixels[px][base + 3];
                let c4 = self.pixels[px][base + 4];
                let c5 = self.pixels[px][base + 5];
                let c6 = self.pixels[px][base + 6];
                let c7 = self.pixels[px][base + 7];
                let r0 = bw_bit_exec(c0);
                let r1 = bw_bit_exec(c1);
                let r2 = bw_bit_exec(c2);
                let r3 = bw_bit_exec(c3);
                let r4 = bw_bit_exec(c4);
                let r5 = bw_bit_exec(c5);
                let r6 = bw_bit_exec(c6);
                let r7 = bw_bit_exec(c7);
                let b: u8 = (r0 << 7) | (r1 << 6) | (r2 << 5) | (r3 << 4) | (r4 << 3) | (r5 << 2)
                    | (r6 << 1) | r7;
                proof {
                    assert(b == bw_pack8(c0, c1, c2, c3, c4, c5, c6, c7)) by (bit_vector)
                        requires
                            b == (r0 << 7) | (r1 << 6) | (r2 << 5) | (r3 << 4) | (r4 << 3) | (r5
                                << 2) | (r6 << 1) | r7,
                            r0 == bw_bit(c0),
                            r1 == bw_bit(c1),
                            r2 == bw_bit(c2),
                            r3 == bw_bit(c3),
                            r4 == bw_bit(c4),
                            r5 == bw_bit(c5),
                            r6 == bw_bit(c6),
                            r7 == bw_bit(c7),
                    ;
                    assert(self.pixels@[px as int]@ == row);
                    assert(b == bw_byte(row, j as int));
                    let k = px * h8 + j;
                    assert(0 <= k < width * h8) by (nonlinear_arith)
                        requires
                            k == px * h8 + j,
                            0 <= px < width,
                            0 <= j < h8,
                    ;
                    assert(k / (h8 as int) == px && k % (h8 as int) == j) by (nonlinear_arith)
                        requires
                            k == px * h8 + j,
                            0 <= j < h8,
                            0 <= px,
                    ;
                    assert(target[k as int] == bw_byte(row, j as int));
                }
                data.push(b);
                j = j + 1;
            }
            proof {
                assert((px + 1) * h8 == px * h8 + h8) by (nonlinear_arith);
            }
            px = px + 1;
        }
        proof {
            assert(width * h8 == width as int * (height as int) / 8) by (nonlinear_arith)
                requires
                    8 * h8 == height,
                    0 <= h8,
                    0 <= width,
            ;
            assert(data@ =~= target);
        }
        data
    }

    /// Packs the quantized grid into the 2bpp gray layout: two bits per
    /// pixel, four pixels per byte, most significant pair first. The
    /// height must be a multiple of four.
    pub fn render_gray(&self) -> (data: Vec<u8>)
        requires
            self.wf(),
            self.spec_height() % 4 == 0,
        ensures
            data@ == pack_gray(self.grid(), self.spec_height()),
            data@.len() == self.spec_width() * self.spec_height() / 4,
    {
        let width = self.width as usize;
        let height = self.height as usize;
        let h4 = height / 4;
        proof {
            assert(4 * (height as int / 4) == height);
        }
        let ghost target = pack_gray(self.grid(), self.spec_height());
        let mut data: Vec<u8> = Vec::new();
        let mut px: usize = 0;
        while px < width
            invariant
                self.wf(),
                self.spec_width() == width,
                self.spec_height() == height,
                h4 == height / 4,
                4 * h4 == height,
                0 <= px <= width,
                target == pack_gray(self.grid(), height as int),
                data@.len() == px * h4,
                forall|k: int| 0 <= k < data@.len() ==> data@[k] == target[k],
            decreases width - px,
        {
            let ghost row = self.grid()[px as int];
            let mut j: usize = 0;
            while j < h4
                invariant
                    self.wf(),
                    self.spec_width() == width,
                    self.spec_height() == height,
                    h4 == height / 4,
                    4 * h4 == height,
                    0 <= px < width,
                    0 <= j <= h4,
                    row == self.grid()[px as int],
                    row.len() == height,
                    target == pack_gray(self.grid(), height as int),
                    data@.len() == px * h4 + j,
                    forall|k: int| 0 <= k < data@.len() ==> data@[k] == target[k],
                decreases h4 - j,
            {
                proof {
                    assert(self.pixels@.len() == width);
                    assert(self.pixels@[px as int]@.len() == height);
                    assert(4 * (j as int) + 3 < height);
                }
                let base = 4 * j;
                let c0 = self.pixels[px][base];
                let c1 = self.pixels[px][base + 1];
                let c2 = self.pixels[px][base + 2];
                let c3 = self.pixels[px][base + 3];
                let b: u8 = ((c0 & 3) << 6) | ((c1 & 3) << 4) | ((c2 & 3) << 2) | (c3 & 3);
                proof {
                    assert(b == gray_pack4(c0, c1, c2, c3)) by (bit_vector)
                        requires
                            b == ((c0 & 3) << 6) | ((c1 & 3) << 4) | ((c2 & 3) << 2) | (c3 & 3),
                    ;
                    assert(self.pixels@[px as int]@ == row);
                    assert(b == gray_byte(row, j as int));
                    let k = px * h4 + j;
                    assert(0 <= k < width * h4) by (nonlinear_arith)
                        requires
                            k == px * h4 + j,
                            0 <= px < width,
                            0 <= j < h4,
                    ;
                    assert(k / (h4 as int) == px && k % (h4 as int) == j) by (nonlinear_arith)
                        requires
                            k == px * h4 + j,
                            0 <= j < h4,
                            0 <= px,
                    ;
                    assert(target[k as int] == gray_byte(row, j as int));
                }
                data.push(b);
                j = j + 1;
            }
            proof {
                assert((px + 1) * h4 == px * h4 + h4) by (nonlinear_arith);
            }
            px = px + 1;
        }
        proof {
            assert(width * h4 == width as int * (height as int) / 4) by (nonlinear_arith)
                requires
                    4 * h4 == height,
                    0 <= h4,
                    0 <= width,
            ;
            assert(data@ =~= target);
        }
        data
    }

    /// `render_black_white` behind a run-time geometry check: a canvas
    /// whose height does not pack into whole bytes is rejected instead of
    /// producing a truncated buffer.
    pub fn try_render_black_white(&self) -> (r: Result<Vec<u8>, Error>)
        requires
            self.wf(),
        ensures
            r is Ok <==> self.spec_height() % 8 == 0,
            r matches Ok(data) ==> data@ == pack_black_white(self.grid(), self.spec_height()),
            r matches Err(e) ==> e == (Error::InvalidGeometry {
                width: self.spec_width() as u32,
                height: self.spec_height() as u32,
            }),
    {
        if self.height % 8 != 0 {
            Err(Error::InvalidGeometry { width: self.width, height: self.height })
        } else {
            Ok(self.render_black_white())
        }
    }

    /// `render_gray` behind a run-time geometry check.
    pub fn try_render_gray(&self) -> (r: Result<Vec<u8>, Error>)
        requires
            self.wf(),
        ensures
            r is Ok <==> self.spec_height() % 4 == 0,
            r matches Ok(data) ==> data@ == pack_gray(self.grid(), self.spec_height()),
            r matches Err(e) ==> e == (Error::InvalidGeometry {
                width: self.spec_width() as u32,
                height: self.spec_height() as u32,
            }),
    {
        if self.height % 4 != 0 {
            Err(Error::InvalidGeometry { width: self.width, height: self.height })
        } else {
            Ok(self.render_gray())
        }
    }

    /// Renders a line of text in the panel's black tone, with the given
    /// point as the bottom-left anchor of the text box (glyphs stand
    /// above their baseline anchor). Glyph pixels outside the canvas are
    /// skipped like any other out-of-bounds draw.
    pub fn draw_text(&mut self, text: &str, x: i32, y: i32)
        requires
            old(self).wf(),
            text@.len() <= 100000,
            -1000000 <= x <= 1000000,
            -1000000 <= y <= 1000000,
        ensures
            final(self).wf(),
            final(self).spec_width() == old(self).spec_width(),
            final(self).spec_height() == old(self).spec_height(),
            forall|i: int, j: int|
                0 <= i < old(self).spec_width() && 0 <= j < old(self).spec_height()
                    ==> #[trigger] final(self).grid()[i][j] == (
                if text_pixel_on(text@, (old(self).spec_width() - 1 - i) - x, j - (y - 19)) {
                    biased(0)
                } else {
                    old(self).grid()[i][j]
                }),
            final(self).palette() == (if has_text_pixel(text@) {
                palette_insert(old(self).palette(), biased(0))
            } else {
                old(self).palette()
            }),
    {
        let ghost g0 = self.grid();
        let ghost pal0 = self.palette();
        let ghost w = self.spec_width();
        let ghost h = self.spec_height();
        let pts = text_points(text, x, y);
        proof {
            lemma_draw_all_uniform(g0, pal0, w, h, pts@, 0);
        }
        self.draw(&pts);
        proof {
            if pts@.len() == 0 {
                assert(!has_text_pixel(text@));
            } else {
                assert(has_text_pixel(text@));
            }
            assert forall|i: int, j: int| 0 <= i < w && 0 <= j < h implies #[trigger] self.grid(
            )[i][j] == (
            if text_pixel_on(text@, (w - 1 - i) - x, j - (y - 19)) {
                biased(0)
            } else {
                g0[i][j]
            }) by {
                assert(self.grid()[i][j] == (if hits(pts@, w - 1 - i, j) {
                    biased(0)
                } else {
                    g0[i][j]
                }));
                assert(hits(pts@, w - 1 - i, j) == text_pixel_on(
                    text@,
                    (w - 1 - i) - x,
                    j - (y - 19),
                ));
            }
        }
    }

    /// Copies another canvas's grid into this one, cell for cell, with its
    /// top-left corner at physical offset `(x, y)`. The copied canvas must
    /// fit; its palette is not merged, so the source should use tones this
    /// canvas has already registered if the copied cells are to quantize.
    pub fn draw_at(&mut self, other: Canvas, x: usize, y: usize)
        requires
            old(self).wf(),
            other.wf(),
            x + other.spec_width() <= old(self).spec_width(),
            y + other.spec_height() <= old(self).spec_height(),
        ensures
            final(self).wf(),
            final(self).spec_width() == old(self).spec_width(),
            final(self).spec_height() == old(self).spec_height(),
            final(self).palette() == old(self).palette(),
            forall|i: int, j: int|
                0 <= i < old(self).spec_width() && 0 <= j < old(self).spec_height()
                    ==> #[trigger] final(self).grid()[i][j] == (
                if x <= i < x + other.spec_width() && y <= j < y + other.spec_height() {
                    other.grid()[i - x][j - y]
                } else {
                    old(self).grid()[i][j]
                }),
    {
        let ghost g0 = self.grid();
        let ghost w = self.spec_width();
        let ghost h = self.spec_height();
        let ow = other.width as usize;
        let oh = other.height as usize;
        let mut i: usize = 0;
        while i < ow
            invariant
                self.wf(),
                other.wf(),
                self.spec_width() == w,
                self.spec_height() == h,
                self.palette() == old(self).palette(),
                ow == other.spec_width(),
                oh == other.spec_height(),
                x + ow <= w,
                y + oh <= h,
                0 <= i <= ow,
                g0.len() == w,
                forall|a: int| 0 <= a < w ==> (#[trigger] g0[a]).len() == h,
                forall|a: int, b: int|
                    0 <= a < w && 0 <= b < h ==> #[trigger] self.grid()[a][b] == (
                    if x <= a < x + i && y <= b < y + oh {
                        other.grid()[a - x][b - y]
                    } else {
                        g0[a][b]
                    }),
            decreases ow - i,
        {
            let mut j: usize = 0;
            while j < oh
                invariant
                    self.wf(),
                    other.wf(),
                    self.spec_width() == w,
                    self.spec_height() == h,
                    self.palette() == old(self).palette(),
                    ow == other.spec_width(),
                    oh == other.spec_height(),
                    x + ow <= w,
                    y + oh <= h,
                    0 <= i < ow,
                    0 <= j <= oh,
                    g0.len() == w,
                    forall|a: int| 0 <= a < w ==> (#[trigger] g0[a]).len() == h,
                    forall|a: int, b: int|
                        0 <= a < w && 0 <= b < h ==> #[trigger] self.grid()[a][b] == (
                        if (x <= a < x + i && y <= b < y + oh) || (a == x + i && y <= b < y + j) {
                            other.grid()[a - x][b - y]
                        } else {
                            g0[a][b]
                        }),
                decreases oh - j,
            {
                proof {
                    assert(other.pixels@.len() == ow);
                    assert(other.grid()[i as int].len() == oh);
                    assert(other.pixels@[i as int]@.len() == oh);
                    assert(self.pixels@.len() == w);
                    assert(self.grid()[(x + i) as int].len() == h);
                    assert(self.pixels@[(x + i) as int]@.len() == h);
                }
                let v = other.pixels[i][j];
                let ghost pre = *self;
                let row: &mut Vec<u8> = &mut self.pixels[x + i];
                row.set(y + j, v);
                proof {
                    assert(self.grid() =~= pre.grid().update(
                        (x + i) as int,
                        pre.grid()[(x + i) as int].update((y + j) as int, v),
                    ));
                    assert(other.grid()[i as int][j as int] == v);
                }
                j = j + 1;
            }
            i = i + 1;
        }
    }
}

/// A draw list carries a point with the given logical coordinates.
pub open spec fn hits(pts: Seq<(i32, i32, u8)>, x: int, y: int) -> bool {
    exists|k: int| 0 <= k < pts.len() && #[trigger] pts[k].0 == x && pts[k].1 == y
}

/// LAW (uniform draws): when every point of a draw list carries the same
/// sample, the palette gains exactly that one tone (when any point was
/// drawn at all), and a cell ends up holding the biased sample if and only
/// if some point of the list addressed it; all other cells are untouched.
pub proof fn lemma_draw_all_uniform(
    g: Seq<Seq<u8>>,
    pal: Seq<u8>,
    w: int,
    h: int,
    pts: Seq<(i32, i32, u8)>,
    s: u8,
)
    requires
        sorted_u8(pal),
        distinct_u8(pal),
        g.len() == w,
        forall|i: int| 0 <= i < w ==> (#[trigger] g[i]).len() == h,
        forall|k: int| 0 <= k < pts.len() ==> (#[trigger] pts[k]).2 == s,
    ensures
        draw_all_palette(pal, pts) == (if pts.len() == 0 {
            pal
        } else {
            palette_insert(pal, biased(s))
        }),
        draw_all_grid(g, w, h, pts).len() == w,
        forall|i: int| 0 <= i < w ==> (#[trigger] draw_all_grid(g, w, h, pts)[i]).len() == h,
        forall|i: int, j: int|
            0 <= i < w && 0 <= j < h ==> #[trigger] draw_all_grid(g, w, h, pts)[i][j] == (
            if hits(pts, w - 1 - i, j) {
                biased(s)
            } else {
                g[i][j]
            }),
    decreases pts.len(),
{
    if pts.len() > 0 {
        let p = pts[0];
        let rest = pts.drop_first();
        let g1 = draw_point_grid(g, w, h, p);
        let pal1 = palette_insert(pal, biased(s));
        lemma_palette_insert_props(pal, biased(s));
        assert(g1.len() == w);
        assert(forall|i: int| 0 <= i < w ==> (#[trigger] g1[i]).len() == h);
        lemma_draw_all_uniform(g1, pal1, w, h, rest, s);
        if rest.len() > 0 {
            lemma_palette_insert_props(pal1, biased(s));
            assert(pal1.contains(biased(s)));
            assert(palette_insert(pal1, biased(s)) == pal1);
        }
        assert forall|i: int, j: int|
            0 <= i < w && 0 <= j < h implies #[trigger] draw_all_grid(g, w, h, pts)[i][j] == (
        if hits(pts, w - 1 - i, j) {
            biased(s)
        } else {
            g[i][j]
        }) by {
            assert(draw_all_grid(g, w, h, pts) == draw_all_grid(g1, w, h, rest));
            if hits(rest, w - 1 - i, j) {
                let k = choose|k: int|
                    0 <= k < rest.len() && #[trigger] rest[k].0 == w - 1 - i && rest[k].1 == j;
                assert(pts[k + 1].0 == w - 1 - i && pts[k + 1].1 == j);
                assert(hits(pts, w - 1 - i, j));
            } else {
                if p.0 == w - 1 - i && p.1 == j {
                    assert(hits(pts, w - 1 - i, j));
                    assert(g1[i][j] == biased(s)) by {
                        assert(0 <= p.0 < w && 0 <= p.1 < h);
                        assert(w - 1 - p.0 == i);
                    }
                } else {
                    assert(g1[i][j] == g[i][j]);
                    if hits(pts, w - 1 - i, j) {
                        let k = choose|k: int|
                            0 <= k < pts.len() && #[trigger] pts[k].0 == w - 1 - i && pts[k].1
                                == j;
                        assert(k != 0);
                        assert(rest[k - 1].0 == w - 1 - i && rest[k - 1].1 == j);
                        assert(hits(rest, w - 1 - i, j));
                    }
                }
            }
        }
    }
}

/// LAW (undrawn canvas): a canvas nobody has drawn on packs to the
/// panel's all-white clear pattern, one 0xFF byte per 8-pixel group.
pub proof fn lemma_undrawn_encodes_white(g: Seq<Seq<u8>>, h: int, k: int)
    requires
        0 <= h,
        h % 8 == 0,
        forall|i: int| 0 <= i < g.len() ==> (#[trigger] g[i]).len() == h,
        forall|i: int, j: int| 0 <= i < g.len() && 0 <= j < h ==> #[trigger] g[i][j] == 0,
        0 <= k < pack_black_white(g, h).len(),
    ensures
        pack_black_white(g, h)[k] == 0xff,
{
    let h8 = h / 8;
    assert(0 <= h8);
    assert(h8 > 0) by {
        if h8 == 0 {
            assert(g.len() * h8 == 0) by (nonlinear_arith)
                requires
                    h8 == 0,
            ;
        }
    }
    let i = k / h8;
    let j = k % h8;
    assert(0 <= i < g.len() && 0 <= j < h8) by (nonlinear_arith)
        requires
            h8 > 0,
            0 <= k < g.len() * h8,
            i == k / h8,
            j == k % h8,
    ;
    assert(8 * j + 7 < h);
    assert(pack_black_white(g, h)[k] == bw_byte(g[i], j));
    assert(g[i][8 * j] == 0);
    assert(g[i][8 * j + 1] == 0);
    assert(g[i][8 * j + 2] == 0);
    assert(g[i][8 * j + 3] == 0);
    assert(g[i][8 * j + 4] == 0);
    assert(g[i][8 * j + 5] == 0);
    assert(g[i][8 * j + 6] == 0);
    assert(g[i][8 * j + 7] == 0);
    assert(bw_pack8(0, 0, 0, 0, 0, 0, 0, 0) == 0xff) by (bit_vector);
}

/// LAW (single tone packs black): with a palette of exactly one tone,
/// quantization maps that tone to black, and an 8-pixel group drawn
/// entirely in it packs to the 0x00 byte.
pub proof fn lemma_single_tone_encodes_black(b: u8, g: Seq<Seq<u8>>, h: int, k: int)
    requires
        4 <= b,
        0 <= h,
        h % 8 == 0,
        forall|i: int| 0 <= i < g.len() ==> (#[trigger] g[i]).len() == h,
        0 <= k < pack_black_white(quantize_grid(seq![b], g), h).len(),
        forall|t: int|
            8 * (k % (h / 8)) <= t < 8 * (k % (h / 8)) + 8 ==> #[trigger] g[k / (h / 8)][t] == b,
    ensures
        pack_black_white(quantize_grid(seq![b], g), h)[k] == 0x00,
{
    let q = quantize_grid(seq![b], g);
    let h8 = h / 8;
    assert(q.len() == g.len());
    assert(0 <= h8);
    assert(h8 > 0) by {
        if h8 == 0 {
            assert(q.len() * h8 == 0) by (nonlinear_arith)
                requires
                    h8 == 0,
            ;
        }
    }
    let i = k / h8;
    let j = k % h8;
    assert(0 <= i < g.len() && 0 <= j < h8) by (nonlinear_arith)
        requires
            h8 > 0,
            0 <= k < g.len() * h8,
            i == k / h8,
            j == k % h8,
    ;
    assert(8 * j + 7 < h);
    let pal = seq![b];
    assert(pal.contains(b)) by {
        assert(pal[0] == b);
    }
    assert(palette_rank(pal, b) == 0) by {
        let r = palette_rank(pal, b);
        assert(pal[r] == b);
    }
    assert(quantize_sample(pal, b) == LEVEL_BLACK);
    assert forall|t: int| 8 * j <= t < 8 * j + 8 implies #[trigger] q[i][t] == LEVEL_BLACK by {
        assert(g[i][t] == b);
    }
    assert(pack_black_white(q, h)[k] == bw_byte(q[i], j));
    assert(q[i][8 * j] == 3 && q[i][8 * j + 1] == 3 && q[i][8 * j + 2] == 3 && q[i][8 * j + 3]
        == 3 && q[i][8 * j + 4] == 3 && q[i][8 * j + 5] == 3 && q[i][8 * j + 6] == 3 && q[i][8 * j
        + 7] == 3);
    assert(bw_pack8(3, 3, 3, 3, 3, 3, 3, 3) == 0x00) by (bit_vector);
}

/// LAW (quantization is idempotent): the level codes that quantization
/// writes can never match a palette entry again, so a second finalize
/// pass over an already-quantized grid changes no pixel value.
pub proof fn lemma_quantize_idempotent(pal: Seq<u8>, g: Seq<Seq<u8>>)
    requires
        forall|i: int| 0 <= i < pal.len() ==> #[trigger] pal[i] >= 4,
    ensures
        quantize_grid(pal, quantize_grid(pal, g)) =~~= quantize_grid(pal, g),
{
    let q = quantize_grid(pal, g);
    let qq = quantize_grid(pal, q);
    assert forall|i: int, j: int| 0 <= i < g.len() && 0 <= j < g[i].len() implies qq[i][j]
        == q[i][j] by {
        let c = g[i][j];
        if pal.contains(c) {
            let r = palette_rank(pal, c);
            assert(pal[r] == c);
            assert(q[i][j] == level_code(pal.len() as int, r));
            assert(q[i][j] < 4);
            if pal.contains(q[i][j]) {
                let r2 = palette_rank(pal, q[i][j]);
                assert(pal[r2] == q[i][j]);
            }
            assert(!pal.contains(q[i][j]));
        } else {
            assert(q[i][j] == c);
        }
    }
}

/// LAW (geometry validation): a canvas whose pixel count `width*height`
/// does not fill whole 1bpp bytes cannot have a height that does, so the
/// checked packing — `try_render_black_white`, whose result is `Ok`
/// exactly when the height is a multiple of eight — rejects every such
/// canvas instead of emitting a truncated or misaligned buffer.
pub proof fn lemma_misaligned_geometry_rejected(w: int, h: int)
    requires
        (w * h) % 8 != 0,
    ensures
        h % 8 != 0,
{
    if h % 8 == 0 {
        let m = h / 8;
        assert(h == 8 * m);
        let k = w * m;
        assert(w * h == 8 * k) by (nonlinear_arith)
            requires
                h == 8 * m,
                k == w * m,
        ;
        assert((8 * k) % 8 == 0) by (nonlinear_arith);
    }
}

/// Executable form of `bw_bit`.
fn bw_bit_exec(c: u8) -> (r: u8)
    ensures
        r == bw_bit(c),
        r == 0 || r == 1,
{
    if c & 1 == 1 {
        0
    } else {
        1
    }
}

/// The temperature line of the readout.
pub open spec fn temp_line(t: int) -> Seq<char> {
    "Temp: "@ + tenths_str(t) + " C"@
}

/// The humidity line of the readout.
pub open spec fn hum_line(hm: int) -> Seq<char> {
    "Hum: "@ + tenths_str(hm) + " %"@
}

/// The gas concentration line of the readout.
pub open spec fn co2_line(c: int) -> Seq<char> {
    "CO2: "@ + padded4(c) + " ppm"@
}

/// Whether the rendered readout has a black pixel at physical grid cell
/// `(i, j)`: the three lines anchor at logical points (20, 50), (160, 50)
/// and (20, 100), and all text is pure black.
pub open spec fn screen_pixel_on(w: int, m: MeasureResult, i: int, j: int) -> bool {
    ||| text_pixel_on(temp_line(m.temp_tenths as int), (w - 1 - i) - 20, j - 31)
    ||| text_pixel_on(hum_line(m.hum_tenths as int), (w - 1 - i) - 160, j - 31)
    ||| text_pixel_on(co2_line(m.co2_ppm as int), (w - 1 - i) - 20, j - 81)
}

/// The quantized grid of a rendered readout: black where some line has an
/// on pixel, white everywhere else.
pub open spec fn screen_grid(w: int, h: int, m: MeasureResult) -> Seq<Seq<u8>> {
    Seq::new(
        w as nat,
        |i: int|
            Seq::new(
                h as nat,
                |j: int|
                    if screen_pixel_on(w, m, i, j) {
                        LEVEL_BLACK
                    } else {
                        0u8
                    },
            ),
    )
}

/// Composition root of the rendering pipeline: turns one sensor reading
/// into a packed 1bpp frame for the panel.
pub struct Screen {
    width: u32,
    height: u32,
}

impl Screen {
    /// Panel width in pixels.
    pub closed spec fn spec_width(self) -> int {
        self.width as int
    }

    /// Panel height in pixels.
    pub closed spec fn spec_height(self) -> int {
        self.height as int
    }

    /// The height must pack into whole 1bpp bytes.
    pub open spec fn wf(self) -> bool {
        self.spec_height() % 8 == 0
    }

    /// Creates a screen for a panel of the given geometry.
    pub fn new(width: u32, height: u32) -> (r: Screen)
        requires
            height as int % 8 == 0,
        ensures
            r.wf(),
            r.spec_width() == width,
            r.spec_height() == height,
    {
        Screen { width, height }
    }

    /// Renders one reading: a fresh canvas, the three text lines in pure
    /// black, quantization (which cannot fail: at most one tone is ever
    /// drawn), and the 1bpp packing.
    pub fn render(&mut self, m: &MeasureResult) -> (data: Vec<u8>)
        requires
            old(self).wf(),
        ensures
            *final(self) == *old(self),
            data@ == pack_black_white(
                screen_grid(old(self).spec_width(), old(self).spec_height(), *m),
                old(self).spec_height(),
            ),
            data@.len() == old(self).spec_width() * old(self).spec_height() / 8,
    {
        let ghost w = self.spec_width();
        let ghost h = self.spec_height();
        let mut canvas = Canvas::new(self.width, self.height);
        proof {
            reveal_strlit("Temp: ");
            reveal_strlit(" C");
            reveal_strlit("Hum: ");
            reveal_strlit(" %");
            reveal_strlit("CO2: ");
            reveal_strlit(" ppm");
            assert(pow10(0) == 1);
            assert(pow10(1) == 10);
            assert(pow10(2) == 100);
            assert(pow10(3) == 1000);
            assert(pow10(4) == 10000);
            assert(pow10(5) == 100000);
            assert(pow10(6) == 1000000);
            assert(pow10(7) == 10000000);
            assert(pow10(8) == 100000000);
            assert(pow10(9) == 1000000000);
            if m.temp_tenths < 0 {
                lemma_dec_digits_len_le((-(m.temp_tenths as int)) / 10, 9);
            } else {
                lemma_dec_digits_len_le((m.temp_tenths as int) / 10, 9);
            }
            lemma_dec_digits_len_le((m.hum_tenths as int) / 10, 9);
            lemma_dec_digits_len_le(m.co2_ppm as int, 5);
            assert(temp_line(m.temp_tenths as int).len() <= 100);
            assert(hum_line(m.hum_tenths as int).len() <= 100);
            assert(co2_line(m.co2_ppm as int).len() <= 100);
        }
        let mut temp_s = String::new();
        temp_s.append("Temp: ");
        temp_s.append(format_tenths(m.temp_tenths).as_str());
        temp_s.append(" C");
        proof {
            assert(temp_s@ =~= temp_line(m.temp_tenths as int));
        }
        let ghost g0 = canvas.grid();
        canvas.draw_text(temp_s.as_str(), 20, 50);
        let ghost g1 = canvas.grid();

        let mut hum_s = String::new();
        hum_s.append("Hum: ");
        hum_s.append(format_tenths(m.hum_tenths as i32).as_str());
        hum_s.append(" %");
        proof {
            assert(hum_s@ =~= hum_line(m.hum_tenths as int));
        }
        canvas.draw_text(hum_s.as_str(), 160, 50);
        let ghost g2 = canvas.grid();

        let mut co2_s = String::new();
        co2_s.append("CO2: ");
        co2_s.append(format_padded4(m.co2_ppm).as_str());
        co2_s.append(" ppm");
        proof {
            assert(co2_s@ =~= co2_line(m.co2_ppm as int));
        }
        canvas.draw_text(co2_s.as_str(), 20, 100);
        let ghost g3 = canvas.grid();
        let ghost p3 = canvas.palette();

        proof {
            let b = biased(0);
            assert(b == 0x10u8);
            assert(palette_insert(Seq::<u8>::empty(), b) =~= seq![b]);
            assert(palette_insert(seq![b], b) == seq![b]);
            assert(p3.len() <= 1);
            assert forall|i: int, j: int| 0 <= i < w && 0 <= j < h implies #[trigger] g3[i][j]
                == (if screen_pixel_on(w, *m, i, j) {
                b
            } else {
                0u8
            }) by {
                assert(g1[i][j] == (if text_pixel_on(temp_line(m.temp_tenths as int), (w - 1 - i)
                    - 20, j - 31) {
                    b
                } else {
                    g0[i][j]
                }));
                assert(g2[i][j] == (if text_pixel_on(hum_line(m.hum_tenths as int), (w - 1 - i)
                    - 160, j - 31) {
                    b
                } else {
                    g1[i][j]
                }));
                assert(g3[i][j] == (if text_pixel_on(co2_line(m.co2_ppm as int), (w - 1 - i) - 20,
                    j - 81) {
                    b
                } else {
                    g2[i][j]
                }));
                assert(g0[i][j] == 0);
            }
        }
        let quantized = canvas.finalize_quantize();
        proof {
            assert(quantized is Ok);
        }
        match quantized {
            Ok(_) => {},
            Err(_) => {
                proof {
                    assert(false);
                }
            },
        }
        proof {
            let b = biased(0);
            assert forall|i: int, j: int| 0 <= i < w && 0 <= j < h implies #[trigger] canvas.grid(
            )[i][j] == screen_grid(w, h, *m)[i][j] by {
                assert(canvas.grid()[i][j] == quantize_sample(p3, g3[i][j]));
                if screen_pixel_on(w, *m, i, j) {
                    assert(g3[i][j] == b);
                    assert(p3 == seq![b]);
                    assert(p3.contains(b)) by {
                        assert(p3[0] == b);
                    }
                    assert(palette_rank(p3, b) == 0) by {
                        let r = palette_rank(p3, b);
                        assert(p3[r] == b);
                    }
                    assert(quantize_sample(p3, b) == LEVEL_BLACK);
                } else {
                    assert(g3[i][j] == 0);
                    if p3.contains(0u8) {
                        let r = choose|r: int| 0 <= r < p3.len() && p3[r] == 0u8;
                        assert(p3[r] == b);
                        assert(false);
                    }
                    assert(quantize_sample(p3, 0u8) == 0u8);
                }
            }
            assert forall|i: int| 0 <= i < w implies canvas.grid()[i] =~= screen_grid(
                w,
                h,
                *m,
            )[i] by {}
            assert(canvas.grid() =~~= screen_grid(w, h, *m));
        }
        canvas.render_black_white()
    }
}

} // verus!
