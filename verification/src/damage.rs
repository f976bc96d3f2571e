//! Damaged parts of the screen, as lists of rectangles that do not overlap.

use vstd::prelude::*;

use crate::geometry;
use crate::geometry::geometries_overlap;
use crate::types::Geometry;

verus! {

/// Whether some rectangle of a list covers a pixel.
pub open spec fn any_covers(list: Seq<Geometry>, x: int, y: int) -> bool {
    exists|i: int| 0 <= i < list.len() && #[trigger] geometry::covers(list[i], x, y)
}

/// Whether no two rectangles of a list overlap.
pub open spec fn disjoint(list: Seq<Geometry>) -> bool {
    forall|i: int, j: int|
        0 <= i < j < list.len() ==> !geometry::overlap(#[trigger] list[i], #[trigger] list[j])
}

/// Whether every rectangle of a list has pixels and lies within bounds.
pub open spec fn all_within(list: Seq<Geometry>, bounds: Geometry) -> bool {
    forall|i: int|
        0 <= i < list.len() ==> geometry::nonempty(#[trigger] list[i]) && geometry::within(
            list[i],
            bounds,
        )
}

/// The smallest rectangle that holds two others.
pub open spec fn bounding(a: Geometry, b: Geometry) -> Geometry {
    let left = if a.x < b.x {
        a.x
    } else {
        b.x
    };
    let top = if a.y < b.y {
        a.y
    } else {
        b.y
    };
    let end = if geometry::right(a) > geometry::right(b) {
        geometry::right(a)
    } else {
        geometry::right(b)
    };
    let floor = if geometry::bottom(a) > geometry::bottom(b) {
        geometry::bottom(a)
    } else {
        geometry::bottom(b)
    };
    Geometry { x: left, y: top, width: (end - left) as u32, height: (floor - top) as u32 }
}

/// The first rectangle of a list that overlaps another, from a place on.
pub open spec fn overlap_from(list: Seq<Geometry>, g: Geometry, from: int) -> Option<int>
    decreases list.len() - from,
{
    if from >= list.len() {
        None
    } else if geometry::overlap(list[from], g) {
        Some(from)
    } else {
        overlap_from(list, g, from + 1)
    }
}

/// A list of rectangles with one more: rectangles that overlap it are merged
/// with it until none does.
pub open spec fn coalesced(list: Seq<Geometry>, g: Geometry) -> Seq<Geometry>
    decreases list.len(),
    via coalesced_shrinks
{
    match overlap_from(list, g, 0) {
        Some(at) => coalesced(list.remove(at), bounding(list[at], g)),
        None => list.push(g),
    }
}

#[via_fn]
proof fn coalesced_shrinks(list: Seq<Geometry>, g: Geometry) {
    lemma_overlap_from(list, g, 0);
}

/// What a search for an overlapping rectangle finds.
proof fn lemma_overlap_from(list: Seq<Geometry>, g: Geometry, from: int)
    requires
        0 <= from <= list.len(),
    ensures
        match overlap_from(list, g, from) {
            Some(at) => from <= at < list.len() && geometry::overlap(list[at], g),
            None => forall|i: int|
                from <= i < list.len() ==> !geometry::overlap(#[trigger] list[i], g),
        },
    decreases list.len() - from,
{
    if from < list.len() && !geometry::overlap(list[from], g) {
        lemma_overlap_from(list, g, from + 1);
    }
}

/// A bounding rectangle holds both rectangles and no more than bounds that hold both.
proof fn lemma_bounding(a: Geometry, b: Geometry, bounds: Geometry)
    requires
        geometry::nonempty(a),
        geometry::within(a, bounds),
        geometry::nonempty(b),
        geometry::within(b, bounds),
    ensures
        geometry::nonempty(bounding(a, b)),
        geometry::within(bounding(a, b), bounds),
        geometry::within(a, bounding(a, b)),
        geometry::within(b, bounding(a, b)),
{
}

/// Coalescing keeps rectangles with pixels, within bounds and apart, and
/// covers every pixel that was covered.
pub proof fn coalescing_covers(list: Seq<Geometry>, g: Geometry, bounds: Geometry)
    requires
        all_within(list, bounds),
        disjoint(list),
        geometry::nonempty(g),
        geometry::within(g, bounds),
    ensures
        all_within(coalesced(list, g), bounds),
        disjoint(coalesced(list, g)),
        coalesced(list, g).len() > 0,
        forall|x: int, y: int|
            any_covers(list, x, y) || geometry::covers(g, x, y) ==> #[trigger] any_covers(
                coalesced(list, g),
                x,
                y,
            ),
    decreases list.len(),
{
    lemma_overlap_from(list, g, 0);
    match overlap_from(list, g, 0) {
        Some(at) => {
            let rest = list.remove(at);
            let merged = bounding(list[at], g);
            lemma_bounding(list[at], g, bounds);
            assert forall|i: int, j: int| 0 <= i < j < rest.len() implies !geometry::overlap(
                #[trigger] rest[i],
                #[trigger] rest[j],
            ) by {
                let first = if i < at {
                    i
                } else {
                    i + 1
                };
                let second = if j < at {
                    j
                } else {
                    j + 1
                };
                assert(rest[i] == list[first] && rest[j] == list[second]);
            }
            coalescing_covers(rest, merged, bounds);
            assert forall|x: int, y: int|
                any_covers(list, x, y) || geometry::covers(g, x, y) implies #[trigger] any_covers(
                coalesced(list, g),
                x,
                y,
            ) by {
                if any_covers(list, x, y) && !geometry::covers(list[at], x, y) {
                    let i = choose|i: int|
                        0 <= i < list.len() && #[trigger] geometry::covers(list[i], x, y);
                    let place = if i < at {
                        i
                    } else {
                        i - 1
                    };
                    assert(rest[place] == list[i]);
                    assert(geometry::covers(rest[place], x, y));
                    assert(any_covers(rest, x, y));
                } else {
                    assert(geometry::covers(merged, x, y));
                }
            }
        },
        None => {
            let all = list.push(g);
            assert forall|x: int, y: int|
                any_covers(list, x, y) || geometry::covers(g, x, y) implies #[trigger] any_covers(
                all,
                x,
                y,
            ) by {
                if any_covers(list, x, y) {
                    let i = choose|i: int|
                        0 <= i < list.len() && #[trigger] geometry::covers(list[i], x, y);
                    assert(geometry::covers(all[i], x, y));
                } else {
                    assert(geometry::covers(all[list.len() as int], x, y));
                }
            }
        },
    }
}

/// The smallest rectangle that holds two others within the same bounds.
fn bound(a: Geometry, b: Geometry, Ghost(bounds): Ghost<Geometry>) -> (g: Geometry)
    requires
        geometry::nonempty(a),
        geometry::within(a, bounds),
        geometry::nonempty(b),
        geometry::within(b, bounds),
    ensures
        g == bounding(a, b),
{
    let left: i32 = if a.x < b.x {
        a.x
    } else {
        b.x
    };
    let top: i32 = if a.y < b.y {
        a.y
    } else {
        b.y
    };
    let a_right: i64 = a.x as i64 + a.width as i64;
    let b_right: i64 = b.x as i64 + b.width as i64;
    let a_bottom: i64 = a.y as i64 + a.height as i64;
    let b_bottom: i64 = b.y as i64 + b.height as i64;
    let end: i64 = if a_right > b_right {
        a_right
    } else {
        b_right
    };
    let floor: i64 = if a_bottom > b_bottom {
        a_bottom
    } else {
        b_bottom
    };
    Geometry {
        x: left,
        y: top,
        width: (end - left as i64) as u32,
        height: (floor - top as i64) as u32,
    }
}

/// Adds a rectangle to a list within bounds, merging what overlaps.
pub(crate) fn coalesce(list: &mut Vec<Geometry>, g: Geometry, Ghost(bounds): Ghost<Geometry>)
    requires
        all_within(old(list)@, bounds),
        geometry::nonempty(g),
        geometry::within(g, bounds),
    ensures
        final(list)@ == coalesced(old(list)@, g),
{
    let mut merged: Geometry = g;
    let mut at: usize = 0;
    while at < list.len()
        invariant
            at <= list.len(),
            all_within(list@, bounds),
            geometry::nonempty(merged),
            geometry::within(merged, bounds),
            coalesced(old(list)@, g) == coalesced(list@, merged),
            overlap_from(list@, merged, 0) == overlap_from(list@, merged, at as int),
        decreases list.len(), list.len() - at,
    {
        if geometries_overlap(list[at], merged) {
            let ghost before = list@;
            proof {
                lemma_bounding(before[at as int], merged, bounds);
            }
            let other = list.remove(at);
            merged = bound(other, merged, Ghost(bounds));
            at = 0;
            assert(all_within(list@, bounds)) by {
                assert forall|i: int| 0 <= i < list@.len() implies geometry::nonempty(
                    #[trigger] list@[i],
                ) && geometry::within(list@[i], bounds) by {
                    assert(list@[i] == before[i] || list@[i] == before[i + 1]);
                }
            }
        } else {
            at += 1;
        }
    }
    list.push(merged);
}

/// The number of pixels of some rectangles, each counted by itself.
pub open spec fn total_area(list: Seq<Geometry>) -> int
    decreases list.len(),
{
    if list.len() == 0 {
        0
    } else {
        total_area(list.drop_last()) + geometry::area(list.last())
    }
}

/// Whether some rectangles make up at least six tenths of bounds.
pub open spec fn mostly_damaged(list: Seq<Geometry>, bounds: Geometry) -> bool {
    total_area(list) * 10 >= geometry::area(bounds) * 6
}

/// Whether a few rectangles make up at least six tenths of bounds.
pub(crate) fn is_mostly_damaged(list: &Vec<Geometry>, bounds: Geometry) -> (mostly: bool)
    requires
        list.len() <= 64,
    ensures
        mostly == mostly_damaged(list@, bounds),
{
    let mut total: u128 = 0;
    let mut at: usize = 0;
    while at < list.len()
        invariant
            at <= list.len() <= 64,
            total == total_area(list@.take(at as int)),
            total <= at * 0xffff_ffff_ffff_ffff,
        decreases list.len() - at,
    {
        let g = list[at];
        assert(0 <= g.width * g.height <= 0xffff_ffff_ffff_ffff) by (nonlinear_arith)
            requires
                0 <= g.width <= 0xffff_ffff,
                0 <= g.height <= 0xffff_ffff,
        ;
        assert(list@.take(at + 1).drop_last() =~= list@.take(at as int));
        total = total + g.width as u128 * g.height as u128;
        at += 1;
    }
    assert(list@.take(list@.len() as int) =~= list@);
    assert(0 <= bounds.width * bounds.height <= 0xffff_ffff_ffff_ffff) by (nonlinear_arith)
        requires
            0 <= bounds.width <= 0xffff_ffff,
            0 <= bounds.height <= 0xffff_ffff,
    ;
    total * 10 >= bounds.width as u128 * bounds.height as u128 * 6
}

/// Damage that touches no other is kept as it is, beside the others.
pub proof fn separate_damage_stays_separate(list: Seq<Geometry>, g: Geometry)
    requires
        forall|i: int| 0 <= i < list.len() ==> !geometry::overlap(#[trigger] list[i], g),
    ensures
        coalesced(list, g) == list.push(g),
{
    lemma_overlap_from(list, g, 0);
}

/// Damage that touches one other is merged with it into the smallest
/// rectangle that holds both: whatever holds both holds it.
pub proof fn touching_damage_is_merged(a: Geometry, b: Geometry, outer: Geometry)
    requires
        geometry::nonempty(a),
        geometry::nonempty(b),
        geometry::overlap(a, b),
        geometry::within(a, outer),
        geometry::within(b, outer),
    ensures
        coalesced(seq![a], b) == seq![bounding(a, b)],
        geometry::within(a, bounding(a, b)),
        geometry::within(b, bounding(a, b)),
        geometry::within(bounding(a, b), outer),
{
    lemma_bounding(a, b, outer);
    assert(overlap_from(seq![a], b, 0) == Some(0int));
    assert(seq![a].remove(0) =~= Seq::<Geometry>::empty());
    let merged = bounding(a, b);
    assert(overlap_from(Seq::<Geometry>::empty(), merged, 0) is None);
    assert(coalesced(Seq::<Geometry>::empty(), merged) =~= seq![merged]);
}

/// Rectangles are most of a target from six tenths of its pixels on, each
/// rectangle counted by itself.
pub proof fn most_is_six_tenths(first: Seq<Geometry>, second: Seq<Geometry>, g: Geometry, bounds: Geometry)
    ensures
        total_area(first + second) == total_area(first) + total_area(second),
        total_area(seq![g]) == g.width * g.height,
        total_area(Seq::<Geometry>::empty()) == 0,
        mostly_damaged(first, bounds) <==> 10 * total_area(first) >= 6 * (bounds.width
            * bounds.height),
    decreases second.len(),
{
    assert(seq![g].drop_last() =~= Seq::<Geometry>::empty());
    assert(total_area(Seq::<Geometry>::empty()) == 0);
    if second.len() == 0 {
        assert(first + second =~= first);
    } else {
        assert((first + second).drop_last() =~= first + second.drop_last());
        most_is_six_tenths(first, second.drop_last(), g, bounds);
    }
}

} // verus!
