use core::cmp::Ordering;
use vstd::prelude::*;
use vstd::std_specs::cmp::PartialOrdSpec;

verus! {

/// `a < b` by the type's comparison specification.
pub open spec fn less<T: PartialOrd>(a: T, b: T) -> bool {
    a.partial_cmp_spec(&b) == Some(Ordering::Less)
}

/// A reported distance `d` counts as a hit when it lies strictly beyond
/// `near` (zero for the renderer): surfaces behind the origin, or a sphere
/// that is missed altogether, report a value at or below it.
pub open spec fn is_hit<T: PartialOrd>(d: T, near: T) -> bool {
    d.partial_cmp_spec(&near) == Some(Ordering::Greater)
}

/// The index chosen by a left-to-right scan of `ds` that keeps the first hit
/// and replaces it only by a later hit strictly nearer than the one kept.
pub open spec fn nearest_spec<T: PartialOrd>(ds: Seq<T>, near: T) -> Option<int>
    decreases ds.len(),
{
    if ds.len() == 0 {
        None
    } else {
        let i = ds.len() - 1;
        let prev = nearest_spec(ds.drop_last(), near);
        if is_hit(ds[i], near) && (prev is None || less(ds[i], ds[prev->0])) {
            Some(i)
        } else {
            prev
        }
    }
}

/// `less` is a strict total order on `T`, and the comparison operators agree
/// with it: the case of the integer types.
pub open spec fn totally_ordered<T: PartialOrd>() -> bool {
    &&& T::obeys_partial_cmp_spec()
    &&& forall|a: T, b: T| #[trigger]
        a.partial_cmp_spec(&b) == Some(Ordering::Greater) <==> less(b, a)
    &&& forall|a: T| !less(a, a)
    &&& forall|a: T, b: T, c: T| #[trigger] less(a, b) && #[trigger] less(b, c) ==> less(a, c)
    &&& forall|a: T, b: T| #[trigger] less(a, b) || less(b, a) || a == b
}

/// The index of the nearest hit among the distances `dists`, one per object
/// in scene order, or `None` when no distance lies beyond `near`. Of equally
/// near hits the earliest wins.
pub fn nearest_hit<T: PartialOrd>(dists: &Vec<T>, near: &T) -> (r: Option<usize>)
    ensures
        T::obeys_partial_cmp_spec() ==> match r {
            None => nearest_spec(dists@, *near) is None,
            Some(k) => nearest_spec(dists@, *near) == Some(k as int),
        },
{
    let mut best: Option<usize> = None;
    let mut i: usize = 0;
    while i < dists.len()
        invariant
            i <= dists@.len(),
            best matches Some(k) ==> k < i,
            T::obeys_partial_cmp_spec() ==> match best {
                None => nearest_spec(dists@.take(i as int), *near) is None,
                Some(k) => nearest_spec(dists@.take(i as int), *near) == Some(k as int),
            },
        decreases dists.len() - i,
    {
        let d = &dists[i];
        let take = match best {
            None => d > near,
            Some(k) => d > near && d < &dists[k],
        };
        proof {
            let s = dists@.take(i as int + 1);
            assert(s.drop_last() =~= dists@.take(i as int));
        }
        if take {
            best = Some(i);
        }
        i = i + 1;
    }
    proof {
        assert(dists@.take(i as int) =~= dists@);
    }
    best
}

/// Under a total order the scan picks the first of the nearest hits: no hit
/// is strictly nearer than the one chosen, every earlier hit is strictly
/// farther, and there is no choice exactly when nothing is hit.
pub proof fn lemma_nearest_is_first_minimum<T: PartialOrd>(ds: Seq<T>, near: T)
    requires
        totally_ordered::<T>(),
    ensures
        nearest_spec(ds, near) is None <==> (forall|i: int| 0 <= i < ds.len() ==> !is_hit(ds[i], near)),
        nearest_spec(ds, near) matches Some(k) ==> {
            &&& 0 <= k < ds.len()
            &&& is_hit(ds[k], near)
            &&& forall|i: int| 0 <= i < ds.len() && is_hit(ds[i], near) ==> !less(ds[i], ds[k])
            &&& forall|i: int| 0 <= i < k && is_hit(ds[i], near) ==> less(ds[k], ds[i])
        },
    decreases ds.len(),
{
    if ds.len() > 0 {
        let p = ds.drop_last();
        let n = ds.len() - 1;
        lemma_nearest_is_first_minimum(p, near);
        assert forall|i: int| 0 <= i < n implies p[i] == ds[i] by {}
        match nearest_spec(p, near) {
            None => {},
            Some(k) => {
                assert(less(ds[n], ds[k]) || less(ds[k], ds[n]) || ds[n] == ds[k]);
                if is_hit(ds[n], near) && less(ds[n], ds[k]) {
                    assert forall|i: int| 0 <= i < n && is_hit(ds[i], near) implies less(ds[n], ds[i]) by {
                        assert(less(ds[i], ds[k]) || less(ds[k], ds[i]) || ds[i] == ds[k]);
                    }
                }
            },
        }
    }
}

/// Of two objects at the same positive distance the nearest-hit search never
/// picks the later one.
pub proof fn lemma_tie_goes_to_earlier<T: PartialOrd>(ds: Seq<T>, near: T, i: int, j: int)
    requires
        totally_ordered::<T>(),
        0 <= i < j < ds.len(),
        is_hit(ds[i], near),
        ds[i] == ds[j],
    ensures
        nearest_spec(ds, near) != Some(j),
{
    lemma_nearest_is_first_minimum(ds, near);
}

/// What tracing a ray does next.
#[derive(Debug, Clone, Copy, PartialEq, Eq, Structural)]
pub enum TraceStep {
    /// The depth budget is spent: the ray contributes black.
    Absorbed,
    /// Nothing is hit: the ray takes the background color.
    Background,
    /// The object at this index is the nearest hit: reflect off it and
    /// trace on with one bounce less.
    Bounce(usize),
}

/// The decision taken for a ray with `depth_budget` bounces left, given the
/// distance each object in scene order reports for it.
pub fn trace_step<T: PartialOrd>(depth_budget: usize, dists: &Vec<T>, near: &T) -> (r: TraceStep)
    ensures
        depth_budget == 0 <==> r == TraceStep::Absorbed,
        depth_budget > 0 && T::obeys_partial_cmp_spec() ==> match r {
            TraceStep::Absorbed => false,
            TraceStep::Background => nearest_spec(dists@, *near) is None,
            TraceStep::Bounce(k) => nearest_spec(dists@, *near) == Some(k as int),
        },
{
    if depth_budget == 0 {
        return TraceStep::Absorbed;
    }
    match nearest_hit(dists, near) {
        None => TraceStep::Background,
        Some(k) => TraceStep::Bounce(k),
    }
}

} // verus!
