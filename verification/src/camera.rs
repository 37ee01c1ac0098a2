//! Ordering the corners of a polygon by whether their projection exists,
//! and choosing how to clip the polygon at the screen.

use vstd::prelude::*;

verus! {

/// The item at index `k` (0, 1 or 2) of three.
pub open spec fn pick<A>(k: int, a: A, b: A, c: A) -> A {
    if k == 0 {
        a
    } else if k == 1 {
        b
    } else {
        c
    }
}

/// One compare-and-swap of the corner order: positions `j` and `j + 1`
/// change places when the corner at `j + 1` has no projection.
pub open spec fn swap_step(o: (int, int, int), missing: (bool, bool, bool), j: int) -> (int, int, int) {
    if j == 0 {
        if pick(o.1, missing.0, missing.1, missing.2) {
            (o.1, o.0, o.2)
        } else {
            o
        }
    } else {
        if pick(o.2, missing.0, missing.1, missing.2) {
            (o.0, o.2, o.1)
        } else {
            o
        }
    }
}

/// The order in which `sort` lists the corners: a bubble pass over
/// positions 0 and 1, then one over position 0, each step moving a corner
/// without projection one place to the front.
pub open spec fn corner_order(missing: (bool, bool, bool)) -> (int, int, int) {
    swap_step(swap_step(swap_step((0, 1, 2), missing, 0), missing, 1), missing, 0)
}

/// Lists three projected corners and their points so that the corners
/// without a projection come first; each projection stays with its point.
pub fn sort<T, P>(
    a: Option<T>,
    b: Option<T>,
    c: Option<T>,
    aa: P,
    bb: P,
    cc: P,
) -> (r: (Option<T>, Option<T>, Option<T>, P, P, P))
    ensures
        ({
            let o = corner_order((a is None, b is None, c is None));
            &&& r.0 == pick(o.0, a, b, c)
            &&& r.1 == pick(o.1, a, b, c)
            &&& r.2 == pick(o.2, a, b, c)
            &&& r.3 == pick(o.0, aa, bb, cc)
            &&& r.4 == pick(o.1, aa, bb, cc)
            &&& r.5 == pick(o.2, aa, bb, cc)
        }),
{
    let mut mas = (a, b, c);
    let mut ret = (aa, bb, cc);
    // first pass: j = 0, then j = 1
    if mas.1.is_none() {
        std::mem::swap(&mut mas.0, &mut mas.1);
        std::mem::swap(&mut ret.0, &mut ret.1);
    }
    if mas.2.is_none() {
        std::mem::swap(&mut mas.1, &mut mas.2);
        std::mem::swap(&mut ret.1, &mut ret.2);
    }
    // second pass: j = 0
    if mas.1.is_none() {
        std::mem::swap(&mut mas.0, &mut mas.1);
        std::mem::swap(&mut ret.0, &mut ret.1);
    }
    (mas.0, mas.1, mas.2, ret.0, ret.1, ret.2)
}

/// `sort` lists every corner exactly once, puts the corners without a
/// projection before those with one, and keeps the corners with a
/// projection in their original order.
pub proof fn lemma_sort_missing_first(missing: (bool, bool, bool))
    ensures
        ({
            let o = corner_order(missing);
            &&& 0 <= o.0 < 3 && 0 <= o.1 < 3 && 0 <= o.2 < 3
            &&& o.0 != o.1 && o.1 != o.2 && o.0 != o.2
            &&& pick(o.1, missing.0, missing.1, missing.2) ==> pick(o.0, missing.0, missing.1, missing.2)
            &&& pick(o.2, missing.0, missing.1, missing.2) ==> pick(o.1, missing.0, missing.1, missing.2)
            &&& !pick(o.0, missing.0, missing.1, missing.2) && !pick(o.1, missing.0, missing.1, missing.2) ==> o.0 < o.1
            &&& !pick(o.1, missing.0, missing.1, missing.2) && !pick(o.2, missing.0, missing.1, missing.2) ==> o.1 < o.2
            &&& !pick(o.0, missing.0, missing.1, missing.2) && !pick(o.2, missing.0, missing.1, missing.2) ==> o.0 < o.2
        }),
{
}


/// How a triangle is clipped at the screen, judged from its sorted corner
/// projections (those without a projection first).
#[derive(Debug, Clone, Copy, PartialEq, Eq, Structural)]
pub enum Clip {
    /// No corner projects: nothing is drawn.
    Hidden,
    /// Only the third corner projects: the first two are replaced by where
    /// their edges to the third corner cross the screen.
    TwoBehind,
    /// The second and third corners project: the first is replaced by the
    /// crossings of its edges to them, giving a quadrilateral.
    OneBehind,
    /// Every corner projects: the triangle is drawn as it is.
    Visible,
}

/// The clipping for sorted corners: by whether the first, second and third
/// have a projection.
pub open spec fn clip_of(first_missing: bool, second_missing: bool, third_missing: bool) -> Clip {
    if first_missing {
        if second_missing {
            if third_missing {
                Clip::Hidden
            } else {
                Clip::TwoBehind
            }
        } else {
            Clip::OneBehind
        }
    } else {
        Clip::Visible
    }
}

/// Chooses how to clip a triangle from its corner projections, in the order
/// that `sort` gives them.
pub fn clip_plan<T>(t1: &Option<T>, t2: &Option<T>, t3: &Option<T>) -> (r: Clip)
    ensures
        r == clip_of(t1 is None, t2 is None, t3 is None),
{
    if t1.is_none() {
        if t2.is_none() {
            if t3.is_none() {
                Clip::Hidden
            } else {
                Clip::TwoBehind
            }
        } else {
            Clip::OneBehind
        }
    } else {
        Clip::Visible
    }
}

/// The number of corners without a projection.
pub open spec fn missing_count(missing: (bool, bool, bool)) -> int {
    (if missing.0 { 1int } else { 0int }) + (if missing.1 { 1int } else { 0int }) + (if missing.2 {
        1int
    } else {
        0int
    })
}

/// After `sort`, the clipping depends only on how many corners lack a
/// projection: all three hide the triangle, two leave one corner in front,
/// one leaves two in front, none leaves it whole.
pub proof fn lemma_clip_by_missing_count(missing: (bool, bool, bool))
    ensures
        ({
            let o = corner_order(missing);
            let c = clip_of(
                pick(o.0, missing.0, missing.1, missing.2),
                pick(o.1, missing.0, missing.1, missing.2),
                pick(o.2, missing.0, missing.1, missing.2),
            );
            &&& missing_count(missing) == 3 ==> c == Clip::Hidden
            &&& missing_count(missing) == 2 ==> c == Clip::TwoBehind
            &&& missing_count(missing) == 1 ==> c == Clip::OneBehind
            &&& missing_count(missing) == 0 ==> c == Clip::Visible
        }),
{
}

} // verus!
