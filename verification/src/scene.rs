//! Which object a ray hits first.
//!
//! The geometry is the caller's: for each object of the scene it solves where
//! the ray's line crosses the surface and hands over the two distances as keys
//! (see [`crate::key`]). What is decided here is which of the two counts
//! as the hit, and which object's hit is the nearest.

use crate::interval::Interval;
use vstd::prelude::*;

verus! {

/// The two distances at which a ray's line crosses a closed surface, the
/// smaller one in `near`.
#[derive(Clone, Copy, Debug, PartialEq, Eq, Structural)]
pub struct Roots {
    pub near: i64,
    pub far: i64,
}

/// A hit: the place of the object in the scene's list, and the distance `t`.
#[derive(Clone, Copy, Debug, PartialEq, Eq, Structural)]
pub struct NearestHit {
    pub object: usize,
    pub t: i64,
}

/// The root that counts as the hit when only distances strictly between `min`
/// and `max` do: `near` if it is one, else `far` if it is one.
pub open spec fn accepted_root(roots: Roots, min: int, max: int) -> Option<i64> {
    if min < roots.near < max {
        Some(roots.near)
    } else if min < roots.far < max {
        Some(roots.far)
    } else {
        None
    }
}

/// The hit of the object at `index` when only distances strictly between `min`
/// and `max` count. An object without roots has none.
pub open spec fn hit_at(candidates: Seq<Option<Roots>>, min: int, max: int, index: int) -> Option<
    i64,
> {
    match candidates[index] {
        Some(roots) => accepted_root(roots, min, max),
        None => None,
    }
}

/// The upper bound that the search has reached: the distance of the hit found
/// so far, or `max` while there is none.
pub open spec fn closest_so_far(found: Option<NearestHit>, max: int) -> int {
    match found {
        Some(hit) => hit.t as int,
        None => max,
    }
}

/// What a scan of the first `count` objects finds. Each object is asked for a
/// hit nearer than the one found among those before it, and takes its place
/// if it has one.
pub open spec fn nearest_among(candidates: Seq<Option<Roots>>, min: int, max: int, count: int)
    -> Option<NearestHit>
    decreases count,
{
    if count <= 0 {
        None
    } else {
        let found = nearest_among(candidates, min, max, count - 1);
        match hit_at(candidates, min, closest_so_far(found, max), count - 1) {
            Some(t) => Some(NearestHit { object: (count - 1) as usize, t }),
            None => found,
        }
    }
}

/// Every object that has a hit between `min` and `max` has the smaller of its
/// roots in `near`.
pub open spec fn roots_in_order(candidates: Seq<Option<Roots>>, min: int, max: int) -> bool {
    forall|i: int|
        0 <= i < candidates.len() ==> match #[trigger] candidates[i] {
            Some(roots) => roots.near <= roots.far || accepted_root(roots, min, max) is None,
            None => true,
        }
}

/// `found` is the nearest of the hits that the first `count` objects have
/// between `min` and `max`, and of several that are equally near the first.
pub open spec fn is_nearest(
    candidates: Seq<Option<Roots>>,
    min: int,
    max: int,
    count: int,
    found: Option<NearestHit>,
) -> bool {
    match found {
        Some(hit) => {
            &&& 0 <= hit.object < count
            &&& hit_at(candidates, min, max, hit.object as int) == Some(hit.t)
            &&& forall|j: int|
                0 <= j < count ==> match #[trigger] hit_at(candidates, min, max, j) {
                    Some(t) => hit.t < t || (hit.t == t && hit.object <= j),
                    None => true,
                }
        },
        None => forall|j: int|
            0 <= j < count ==> (#[trigger] hit_at(candidates, min, max, j)) is None,
    }
}

/// With each object's roots in order, the scan ends on the nearest hit of all.
pub proof fn lemma_scan_finds_nearest(
    candidates: Seq<Option<Roots>>,
    min: int,
    max: int,
    count: int,
)
    requires
        roots_in_order(candidates, min, max),
        0 <= count <= candidates.len(),
        count <= usize::MAX,
    ensures
        is_nearest(candidates, min, max, count, nearest_among(candidates, min, max, count)),
    decreases count,
{
    if count > 0 {
        lemma_scan_finds_nearest(candidates, min, max, count - 1);
        let last = count - 1;
        let before = nearest_among(candidates, min, max, last);
        let closest = closest_so_far(before, max);
        match candidates[last] {
            Some(roots) => {
                match accepted_root(roots, min, closest) {
                    Some(t) => {
                        assert(hit_at(candidates, min, max, last) == Some(t));
                        assert forall|j: int| 0 <= j < count implies match #[trigger] hit_at(
                            candidates,
                            min,
                            max,
                            j,
                        ) {
                            Some(other) => t < other || (t == other && last <= j),
                            None => true,
                        } by {
                            if j < last {
                                lemma_nearest_bounds(candidates, min, max, last, before, j);
                            }
                        }
                    },
                    None => {
                        assert forall|j: int| 0 <= j < count implies match before {
                            Some(hit) => match #[trigger] hit_at(candidates, min, max, j) {
                                Some(other) => hit.t < other || (hit.t == other && hit.object
                                    <= j),
                                None => true,
                            },
                            None => hit_at(candidates, min, max, j) is None,
                        } by {
                            if j < last {
                                lemma_nearest_bounds(candidates, min, max, last, before, j);
                            }
                        }
                    },
                }
            },
            None => {
                assert forall|j: int| 0 <= j < count implies match before {
                    Some(hit) => match #[trigger] hit_at(candidates, min, max, j) {
                        Some(other) => hit.t < other || (hit.t == other && hit.object <= j),
                        None => true,
                    },
                    None => hit_at(candidates, min, max, j) is None,
                } by {
                    if j < last {
                        lemma_nearest_bounds(candidates, min, max, last, before, j);
                    }
                }
            },
        }
    }
}

/// What [`is_nearest`] says of one object `j` among the first `count`.
proof fn lemma_nearest_bounds(
    candidates: Seq<Option<Roots>>,
    min: int,
    max: int,
    count: int,
    found: Option<NearestHit>,
    j: int,
)
    requires
        is_nearest(candidates, min, max, count, found),
        0 <= j < count,
    ensures
        match found {
            Some(hit) => match hit_at(candidates, min, max, j) {
                Some(other) => hit.t < other || (hit.t == other && hit.object <= j),
                None => true,
            },
            None => hit_at(candidates, min, max, j) is None,
        },
{
}

/// The distance of the nearest hit does not depend on the order in which the
/// scene lists its objects: two lists that hold the same roots equally often
/// give the same distance, or no hit both.
pub proof fn lemma_order_of_objects_is_irrelevant(
    first: Seq<Option<Roots>>,
    second: Seq<Option<Roots>>,
    min: int,
    max: int,
)
    requires
        first.to_multiset() == second.to_multiset(),
        roots_in_order(first, min, max),
        first.len() <= usize::MAX,
    ensures
        second.len() == first.len(),
        match (
            nearest_among(first, min, max, first.len() as int),
            nearest_among(second, min, max, second.len() as int),
        ) {
            (Some(one), Some(other)) => one.t == other.t,
            (None, None) => true,
            _ => false,
        },
{
    first.to_multiset_ensures();
    second.to_multiset_ensures();
    assert forall|i: int| 0 <= i < second.len() implies match #[trigger] second[i] {
        Some(roots) => roots.near <= roots.far || accepted_root(roots, min, max) is None,
        None => true,
    } by {
        assert(second.contains(second[i]));
        assert(second.to_multiset().count(second[i]) > 0);
        assert(first.to_multiset().count(second[i]) > 0);
        assert(first.contains(second[i]));
        let j = choose|j: int| 0 <= j < first.len() && first[j] == second[i];
        assert(first[j] == second[i]);
    }
    let count = first.len() as int;
    lemma_scan_finds_nearest(first, min, max, count);
    lemma_scan_finds_nearest(second, min, max, count);
    let one = nearest_among(first, min, max, count);
    let other = nearest_among(second, min, max, count);
    match one {
        Some(hit) => {
            assert(first.contains(first[hit.object as int]));
            assert(first.to_multiset().count(first[hit.object as int]) > 0);
            assert(second.to_multiset().count(first[hit.object as int]) > 0);
            assert(second.contains(first[hit.object as int]));
            let j = choose|j: int| 0 <= j < second.len() && second[j] == first[hit.object as int];
            lemma_nearest_bounds(second, min, max, count, other, j);
        },
        None => {},
    }
    match other {
        Some(hit) => {
            assert(second.contains(second[hit.object as int]));
            assert(second.to_multiset().count(second[hit.object as int]) > 0);
            assert(first.to_multiset().count(second[hit.object as int]) > 0);
            assert(first.contains(second[hit.object as int]));
            let j = choose|j: int| 0 <= j < first.len() && first[j] == second[hit.object as int];
            lemma_nearest_bounds(first, min, max, count, one, j);
        },
        None => {},
    }
}

/// The first of the two roots, `near` before `far`, that `range` surrounds.
pub fn select_root(roots: Roots, range: &Interval) -> (root: Option<i64>)
    ensures
        root == accepted_root(roots, range.min() as int, range.max() as int),
{
    if range.surrounds(roots.near) {
        Some(roots.near)
    } else if range.surrounds(roots.far) {
        Some(roots.far)
    } else {
        None
    }
}

/// Scans the objects in their order for the hit nearest to the ray's origin
/// among those strictly inside `range`. `candidates[i]` holds the roots of
/// object `i`, or `None` where the ray's line misses it altogether.
pub fn find_nearest_hit(candidates: &Vec<Option<Roots>>, range: &Interval) -> (found: Option<
    NearestHit,
>)
    ensures
        found == nearest_among(
            candidates@,
            range.min() as int,
            range.max() as int,
            candidates@.len() as int,
        ),
        roots_in_order(candidates@, range.min() as int, range.max() as int) ==> is_nearest(
            candidates@,
            range.min() as int,
            range.max() as int,
            candidates@.len() as int,
            found,
        ),
        match found {
            Some(hit) => hit.object < candidates@.len() && range.surrounds(hit.t),
            None => true,
        },
{
    let mut found: Option<NearestHit> = None;
    let mut closest: i64 = range.max();
    let mut index: usize = 0;
    while index < candidates.len()
        invariant
            index <= candidates@.len(),
            found == nearest_among(
                candidates@,
                range.min() as int,
                range.max() as int,
                index as int,
            ),
            closest == closest_so_far(found, range.max() as int),
        decreases candidates@.len() - index,
    {
        match candidates[index] {
            Some(roots) => {
                let narrowed = Interval::new(range.min(), closest);
                match select_root(roots, &narrowed) {
                    Some(t) => {
                        closest = t;
                        found = Some(NearestHit { object: index, t });
                    },
                    None => {},
                }
            },
            None => {},
        }
        index = index + 1;
    }
    proof {
        lemma_found_among(
            candidates@,
            range.min() as int,
            range.max() as int,
            candidates@.len() as int,
        );
        if roots_in_order(candidates@, range.min() as int, range.max() as int) {
            lemma_scan_finds_nearest(
                candidates@,
                range.min() as int,
                range.max() as int,
                candidates@.len() as int,
            );
        }
    }
    found
}

/// `candidates` holds, object by object, roots that `roots_of` gives for the
/// ray `ray`.
pub open spec fn are_roots_of<R, O, X>(
    roots_of: X,
    ray: R,
    objects: Seq<O>,
    candidates: Seq<Option<Roots>>,
) -> bool where X: Fn(&R, &O) -> Option<Roots> {
    &&& candidates.len() == objects.len()
    &&& forall|i: int|
        0 <= i < objects.len() ==> call_ensures(
            roots_of,
            (&ray, &objects[i]),
            #[trigger] candidates[i],
        )
}

/// Asks `roots_of` for the roots of each object along `ray`, in the order of
/// the objects, and scans them for the nearest hit strictly inside `range`.
pub fn does_hit_object<R, O, X>(ray: &R, objects: &Vec<O>, range: &Interval, roots_of: &X) -> (found:
    Option<NearestHit>) where X: Fn(&R, &O) -> Option<Roots>
    requires
        forall|any: &R, object: &O| call_requires(*roots_of, (any, object)),
    ensures
        exists|candidates: Seq<Option<Roots>>|
            {
                &&& #[trigger] are_roots_of(*roots_of, *ray, objects@, candidates)
                &&& found == nearest_among(
                    candidates,
                    range.min() as int,
                    range.max() as int,
                    candidates.len() as int,
                )
                &&& roots_in_order(candidates, range.min() as int, range.max() as int)
                    ==> is_nearest(
                    candidates,
                    range.min() as int,
                    range.max() as int,
                    candidates.len() as int,
                    found,
                )
            },
        match found {
            Some(hit) => hit.object < objects@.len() && range.surrounds(hit.t),
            None => true,
        },
{
    let mut candidates: Vec<Option<Roots>> = Vec::new();
    let mut index: usize = 0;
    while index < objects.len()
        invariant
            index <= objects@.len(),
            candidates@.len() == index,
            forall|any: &R, object: &O| call_requires(*roots_of, (any, object)),
            forall|i: int|
                0 <= i < index ==> call_ensures(
                    *roots_of,
                    (ray, &objects@[i]),
                    #[trigger] candidates@[i],
                ),
        decreases objects@.len() - index,
    {
        let roots = roots_of(ray, &objects[index]);
        candidates.push(roots);
        index = index + 1;
    }
    let found = find_nearest_hit(&candidates, range);
    assert(are_roots_of(*roots_of, *ray, objects@, candidates@));
    found
}

/// What a scan finds is one of the objects scanned.
pub proof fn lemma_found_among(candidates: Seq<Option<Roots>>, min: int, max: int, count: int)
    requires
        0 <= count <= usize::MAX,
    ensures
        match nearest_among(candidates, min, max, count) {
            Some(hit) => hit.object < count && min < hit.t < max,
            None => true,
        },
    decreases count,
{
    if count > 0 {
        lemma_found_among(candidates, min, max, count - 1);
    }
}

} // verus!
