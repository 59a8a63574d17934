//! Piecewise-linear colour palettes.
//!
//! A palette is a sequence of anchors: iteration boundaries, each with the
//! colour fixed at it. An iteration count that falls between two neighbouring
//! anchors gets the linear blend of their colours, channel by channel, rounded
//! to the nearest byte (a tie rounds up).

use vstd::prelude::*;

verus! {

/// An RGB colour, one byte per channel.
pub type Colour = (u8, u8, u8);

/// A palette anchor: an iteration boundary and the colour fixed at it.
pub type Anchor = (u32, (u8, u8, u8));

/// The boundaries of `palette` increase strictly.
pub open spec fn ordered(palette: Seq<Anchor>) -> bool {
    forall|i: int, j: int| 0 <= i < j < palette.len() ==> palette[i].0 < palette[j].0
}

/// The anchors `i` and `i + 1` bracket `its`: the count lies above the lower
/// boundary and at or below the upper one.
pub open spec fn brackets(palette: Seq<Anchor>, i: int, its: u32) -> bool {
    &&& 0 <= i
    &&& i + 1 < palette.len()
    &&& palette[i].0 < its
    &&& its <= palette[i + 1].0
}

/// `i` is the first pair of neighbouring anchors that brackets `its`.
pub open spec fn first_bracket(palette: Seq<Anchor>, i: int, its: u32) -> bool {
    &&& brackets(palette, i, its)
    &&& forall|j: int| 0 <= j < i ==> !brackets(palette, j, its)
}

/// The exact blend `(1 - t) * lo + t * hi` at `t = k / d`, multiplied by `d`
/// so that it is a whole number.
pub open spec fn blend_numerator(lo: u8, hi: u8, k: int, d: int) -> int {
    lo * (d - k) + hi * k
}

/// The blend `(1 - t) * lo + t * hi` at `t = k / d`, rounded to the nearest
/// whole number, a tie going up: `floor(exact + 1/2)`.
pub open spec fn blend(lo: u8, hi: u8, k: int, d: int) -> int {
    (2 * blend_numerator(lo, hi, k, d) + d) / (2 * d)
}

/// The colour at `its` on the segment from `lower` to `upper`.
pub open spec fn mix(lower: Anchor, upper: Anchor, its: u32) -> Colour {
    let k = its - lower.0;
    let d = upper.0 - lower.0;
    (
        blend(lower.1.0, upper.1.0, k, d) as u8,
        blend(lower.1.1, upper.1.1, k, d) as u8,
        blend(lower.1.2, upper.1.2, k, d) as u8,
    )
}

/// `channel` lies between `a` and `b`, whichever of the two is larger.
pub open spec fn within(a: u8, b: u8, channel: u8) -> bool {
    (a <= channel <= b) || (b <= channel <= a)
}

/// Each channel of `colour` is within half a unit of the exact blend of
/// `lower` and `upper` at `its` (the inequalities are scaled by twice the
/// distance between the two boundaries).
pub open spec fn nearest(lower: Anchor, upper: Anchor, its: u32, colour: Colour) -> bool {
    let k = its - lower.0;
    let d = upper.0 - lower.0;
    &&& 2 * d * colour.0 - d <= 2 * blend_numerator(lower.1.0, upper.1.0, k, d) < 2 * d * colour.0
        + d
    &&& 2 * d * colour.1 - d <= 2 * blend_numerator(lower.1.1, upper.1.1, k, d) < 2 * d * colour.1
        + d
    &&& 2 * d * colour.2 - d <= 2 * blend_numerator(lower.1.2, upper.1.2, k, d) < 2 * d * colour.2
        + d
}

/// The colour of an iteration count.
///
/// Where a pair of neighbouring anchors brackets the count, the colour is the
/// blend on the first such pair. A count above the last boundary gets the last
/// colour. Every other count, and every count on an empty palette, is black.
pub open spec fn color_for(its: u32, palette: Seq<Anchor>) -> Colour {
    if exists|i: int| first_bracket(palette, i, its) {
        let i = choose|i: int| first_bracket(palette, i, its);
        mix(palette[i], palette[i + 1], its)
    } else if palette.len() > 0 && its > palette.last().0 {
        palette.last().1
    } else {
        (0, 0, 0)
    }
}

/// The rounded blend is the integer nearest to the exact one, and lies
/// between the two channel values.
pub proof fn lemma_blend_nearest(lo: u8, hi: u8, k: int, d: int)
    requires
        0 <= k <= d,
        0 < d,
    ensures
        2 * d * blend(lo, hi, k, d) - d <= 2 * blend_numerator(lo, hi, k, d),
        2 * blend_numerator(lo, hi, k, d) < 2 * d * blend(lo, hi, k, d) + d,
        lo <= hi ==> lo <= blend(lo, hi, k, d) <= hi,
        hi <= lo ==> hi <= blend(lo, hi, k, d) <= lo,
        0 <= blend(lo, hi, k, d) <= 255,
{
    let n = blend_numerator(lo, hi, k, d);
    let r = blend(lo, hi, k, d);
    let l = lo as int;
    let h = hi as int;
    assert(r == (2 * n + d) / (2 * d));
    assert(2 * d * r <= 2 * n + d < 2 * d * r + 2 * d) by (nonlinear_arith)
        requires
            r == (2 * n + d) / (2 * d),
            d > 0,
    ;
    assert(n == l * d + (h - l) * k) by (nonlinear_arith)
        requires
            n == l * (d - k) + h * k,
    ;
    if l <= h {
        assert(l * d <= n <= h * d) by (nonlinear_arith)
            requires
                n == l * d + (h - l) * k,
                0 <= k <= d,
                l <= h,
        ;
        assert(l <= r <= h) by (nonlinear_arith)
            requires
                2 * d * r <= 2 * n + d < 2 * d * r + 2 * d,
                l * d <= n <= h * d,
                d > 0,
        ;
    }
    if h <= l {
        assert(h * d <= n <= l * d) by (nonlinear_arith)
            requires
                n == l * d + (h - l) * k,
                0 <= k <= d,
                h <= l,
        ;
        assert(h <= r <= l) by (nonlinear_arith)
            requires
                2 * d * r <= 2 * n + d < 2 * d * r + 2 * d,
                h * d <= n <= l * d,
                d > 0,
        ;
    }
}

/// At the two ends of a segment the blend is the channel value itself.
pub proof fn lemma_blend_ends(lo: u8, hi: u8, d: int)
    requires
        0 < d,
    ensures
        blend(lo, hi, 0, d) == lo,
        blend(lo, hi, d, d) == hi,
{
    let l = lo as int;
    let h = hi as int;
    assert(blend_numerator(lo, hi, 0, d) == l * d) by (nonlinear_arith)
        requires
            blend_numerator(lo, hi, 0, d) == l * (d - 0) + h * 0,
    ;
    assert(blend_numerator(lo, hi, d, d) == h * d) by (nonlinear_arith)
        requires
            blend_numerator(lo, hi, d, d) == l * (d - d) + h * d,
    ;
    assert((2 * (l * d) + d) / (2 * d) == l) by (nonlinear_arith)
        requires
            d > 0,
    ;
    assert((2 * (h * d) + d) / (2 * d) == h) by (nonlinear_arith)
        requires
            d > 0,
    ;
}

/// One channel of the blend between two anchors, `k` of `d` steps from `lo`
/// towards `hi`.
fn blend_channel(lo: u8, hi: u8, k: u32, d: u32) -> (channel: u8)
    requires
        0 < k <= d,
    ensures
        channel == blend(lo, hi, k as int, d as int),
{
    let steps: u64 = d as u64;
    let taken: u64 = k as u64;
    let left: u64 = steps - taken;
    proof {
        lemma_blend_nearest(lo, hi, k as int, d as int);
        assert(lo * (steps - taken) <= 255 * 0xffff_ffff) by (nonlinear_arith)
            requires
                lo <= 255,
                0 <= steps - taken <= 0xffff_ffff,
        ;
        assert(hi * taken <= 255 * 0xffff_ffff) by (nonlinear_arith)
            requires
                hi <= 255,
                0 <= taken <= 0xffff_ffff,
        ;
    }
    let numerator: u64 = (lo as u64) * left + (hi as u64) * taken;
    let rounded: u64 = (2 * numerator + steps) / (2 * steps);
    rounded as u8
}

/// The colour at `its` on the segment from `lower` to `upper`.
fn mix_anchors(lower: Anchor, upper: Anchor, its: u32) -> (colour: Colour)
    requires
        lower.0 < its <= upper.0,
    ensures
        colour == mix(lower, upper, its),
{
    let k: u32 = its - lower.0;
    let d: u32 = upper.0 - lower.0;
    let red: u8 = blend_channel(lower.1.0, upper.1.0, k, d);
    let green: u8 = blend_channel(lower.1.1, upper.1.1, k, d);
    let blue: u8 = blend_channel(lower.1.2, upper.1.2, k, d);
    (red, green, blue)
}

/// The colour of a count is the blend on the first pair of neighbouring
/// anchors that brackets it, whichever index that is.
pub proof fn lemma_first_bracket_is_chosen(palette: Seq<Anchor>, i: int, its: u32)
    requires
        first_bracket(palette, i, its),
    ensures
        color_for(its, palette) == mix(palette[i], palette[i + 1], its),
{
    let chosen = choose|c: int| first_bracket(palette, c, its);
    assert(first_bracket(palette, chosen, its));
    if chosen < i {
        assert(!brackets(palette, chosen, its));
    }
    if i < chosen {
        assert(!brackets(palette, i, its));
    }
}

/// Where no pair of neighbouring anchors brackets the count, the colour is
/// the last one for a count above the last boundary, and black otherwise.
pub proof fn lemma_no_bracket(palette: Seq<Anchor>, its: u32)
    requires
        forall|i: int| 0 <= i && i + 1 < palette.len() ==> !brackets(palette, i, its),
    ensures
        color_for(its, palette) == if palette.len() > 0 && its > palette.last().0 {
            palette.last().1
        } else {
            (0u8, 0u8, 0u8)
        },
{
    assert forall|i: int| !first_bracket(palette, i, its) by {
        if first_bracket(palette, i, its) {
            assert(brackets(palette, i, its));
        }
    }
}

/// Maps an iteration count to its colour on a palette.
///
/// The count is blended between the first pair of neighbouring anchors that
/// brackets it. A count above the last boundary gets the last colour
/// unchanged. A count that no pair brackets and that does not exceed the last
/// boundary is black, and so is every count on an empty palette.
pub fn det_px_col(its: u32, col_pal: &Vec<Anchor>) -> (colour: Colour)
    ensures
        colour == color_for(its, col_pal@),
{
    let n: usize = col_pal.len();
    let mut i: usize = 0;
    while n - i > 1
        invariant
            i <= n,
            n == col_pal@.len(),
            forall|j: int| 0 <= j < i ==> !brackets(col_pal@, j, its),
        decreases n - i,
    {
        let lower: Anchor = col_pal[i];
        let upper: Anchor = col_pal[i + 1];
        if its > lower.0 && its <= upper.0 {
            proof {
                lemma_first_bracket_is_chosen(col_pal@, i as int, its);
            }
            return mix_anchors(lower, upper, its);
        }
        i += 1;
    }
    proof {
        lemma_no_bracket(col_pal@, its);
    }
    if n > 0 {
        let last: Anchor = col_pal[n - 1];
        if its > last.0 {
            return last.1;
        }
    }
    (0, 0, 0)
}

/// On an ordered palette at most one pair of neighbouring anchors brackets a
/// count.
pub proof fn lemma_bracket_unique(palette: Seq<Anchor>, i: int, j: int, its: u32)
    requires
        ordered(palette),
        brackets(palette, i, its),
        brackets(palette, j, its),
    ensures
        i == j,
{
    if i < j {
        assert(i + 1 <= j);
        if i + 1 < j {
            assert(palette[i + 1].0 < palette[j].0);
        }
    }
    if j < i {
        assert(j + 1 <= i);
        if j + 1 < i {
            assert(palette[j + 1].0 < palette[i].0);
        }
    }
}

/// On an ordered palette, a count that equals a boundary other than the first
/// gets exactly the colour stored at that boundary.
pub proof fn lemma_exact_at_boundary(palette: Seq<Anchor>, i: int)
    requires
        ordered(palette),
        1 <= i < palette.len(),
    ensures
        color_for(palette[i].0, palette) == palette[i].1,
{
    let its = palette[i].0;
    assert(palette[i - 1].0 < palette[i].0);
    assert(brackets(palette, i - 1, its));
    assert forall|j: int| 0 <= j < i - 1 implies !brackets(palette, j, its) by {
        if brackets(palette, j, its) {
            lemma_bracket_unique(palette, j, i - 1, its);
        }
    }
    lemma_first_bracket_is_chosen(palette, i - 1, its);
    let d = palette[i].0 - palette[i - 1].0;
    lemma_blend_ends(palette[i - 1].1.0, palette[i].1.0, d);
    lemma_blend_ends(palette[i - 1].1.1, palette[i].1.1, d);
    lemma_blend_ends(palette[i - 1].1.2, palette[i].1.2, d);
}

/// On an ordered palette, a count strictly between two neighbouring
/// boundaries gets a convex combination of the two stored colours: each
/// channel is the integer nearest to `(1 - t) * lower + t * upper`, where `t`
/// is the fraction of the way from the lower boundary to the upper one, and
/// lies between the two stored channel values.
pub proof fn lemma_between_is_convex(palette: Seq<Anchor>, i: int, its: u32)
    requires
        ordered(palette),
        0 <= i,
        i + 1 < palette.len(),
        palette[i].0 < its < palette[i + 1].0,
    ensures
        color_for(its, palette) == mix(palette[i], palette[i + 1], its),
        within(palette[i].1.0, palette[i + 1].1.0, color_for(its, palette).0),
        within(palette[i].1.1, palette[i + 1].1.1, color_for(its, palette).1),
        within(palette[i].1.2, palette[i + 1].1.2, color_for(its, palette).2),
        nearest(palette[i], palette[i + 1], its, color_for(its, palette)),
{
    assert(brackets(palette, i, its));
    assert forall|j: int| 0 <= j < i implies !brackets(palette, j, its) by {
        if brackets(palette, j, its) {
            lemma_bracket_unique(palette, j, i, its);
        }
    }
    lemma_first_bracket_is_chosen(palette, i, its);
    let k = its - palette[i].0;
    let d = palette[i + 1].0 - palette[i].0;
    lemma_blend_nearest(palette[i].1.0, palette[i + 1].1.0, k, d);
    lemma_blend_nearest(palette[i].1.1, palette[i + 1].1.1, k, d);
    lemma_blend_nearest(palette[i].1.2, palette[i + 1].1.2, k, d);
}

/// On an ordered palette, a count above the last boundary gets the last
/// colour.
pub proof fn lemma_beyond_last(palette: Seq<Anchor>, its: u32)
    requires
        ordered(palette),
        palette.len() > 0,
        its > palette.last().0,
    ensures
        color_for(its, palette) == palette.last().1,
{
    assert forall|i: int| 0 <= i && i + 1 < palette.len() implies !brackets(palette, i, its) by {
        if i + 1 < palette.len() - 1 {
            assert(palette[i + 1].0 < palette[palette.len() - 1].0);
        }
    }
    lemma_no_bracket(palette, its);
}

/// On an ordered palette, a count at or below the first boundary is black.
pub proof fn lemma_at_or_below_first(palette: Seq<Anchor>, its: u32)
    requires
        ordered(palette),
        palette.len() > 0,
        its <= palette[0].0,
    ensures
        color_for(its, palette) == (0u8, 0u8, 0u8),
{
    assert forall|i: int| 0 <= i && i + 1 < palette.len() implies !brackets(palette, i, its) by {
        if 0 < i {
            assert(palette[0].0 < palette[i].0);
        }
    }
    lemma_no_bracket(palette, its);
}

/// On the empty palette every count is black.
pub proof fn lemma_empty_is_black(its: u32)
    ensures
        color_for(its, Seq::<Anchor>::empty()) == (0u8, 0u8, 0u8),
{
    lemma_no_bracket(Seq::<Anchor>::empty(), its);
}

} // verus!
