//! The surface list: an ordered collection of surfaces, itself a surface,
//! which a ray hits where it hits the nearest of the members.
//!
//! How a ray meets one member is for the member to say. Which of the hits
//! wins is decided here: the list's answer is the scan of its members'
//! answers, and that is the nearest of them.

use crate::binary64::{less, less_than};
use crate::hittable::{HitRecord, Hittable, Ray};
use vstd::prelude::*;

verus! {

/// Surfaces in the order in which they were added.
pub struct HittableList<T> {
    objects: Vec<T>,
}

impl<T> View for HittableList<T> {
    type V = Seq<T>;

    closed spec fn view(&self) -> Seq<T> {
        self.objects@
    }
}

impl<T> HittableList<T> {
    /// The empty list.
    pub fn new() -> (list: Self)
        ensures
            list@ == Seq::<T>::empty(),
    {
        Self { objects: Vec::new() }
    }

    /// Forgets every surface.
    pub fn clear(&mut self)
        ensures
            final(self)@ == Seq::<T>::empty(),
    {
        self.objects = Vec::new();
    }

    /// Adds a surface behind those that are there.
    pub fn add(&mut self, object: T)
        ensures
            final(self)@ == old(self)@.push(object),
    {
        self.objects.push(object);
    }

    /// Number of surfaces.
    pub fn len(&self) -> (n: usize)
        ensures
            n == self@.len(),
    {
        self.objects.len()
    }

    /// The surface at index `i`, if there is one.
    pub fn get(&self, i: usize) -> (object: Option<&T>)
        ensures
            object == if i < self@.len() {
                Some(&self@[i as int])
            } else {
                None
            },
    {
        if i < self.objects.len() {
            Some(&self.objects[i])
        } else {
            None
        }
    }
}

/// Candidate `i` was hit in range: beyond `min` and nearer than `max`.
pub open spec fn hit_in_range(ts: Seq<Option<u64>>, min: u64, max: u64, i: int) -> bool {
    &&& 0 <= i < ts.len()
    &&& ts[i] is Some
    &&& less_than(min, ts[i].unwrap())
    &&& less_than(ts[i].unwrap(), max)
}

/// Candidate `i` is the nearest hit: it was hit in range, no candidate was
/// hit in range nearer, and of those hit as near it comes first.
pub open spec fn is_nearest(ts: Seq<Option<u64>>, min: u64, max: u64, i: int) -> bool {
    &&& hit_in_range(ts, min, max, i)
    &&& forall|j: int| #[trigger]
        hit_in_range(ts, min, max, j) ==> !less_than(ts[j].unwrap(), ts[i].unwrap())
    &&& forall|j: int| #[trigger]
        hit_in_range(ts, min, max, j) && j < i ==> less_than(ts[i].unwrap(), ts[j].unwrap())
}

/// There is one nearest hit at most.
pub proof fn lemma_nearest_is_unique(ts: Seq<Option<u64>>, min: u64, max: u64, i: int, j: int)
    requires
        is_nearest(ts, min, max, i),
        is_nearest(ts, min, max, j),
    ensures
        i == j,
{
    assert(hit_in_range(ts, min, max, i));
    assert(hit_in_range(ts, min, max, j));
}

/// Chooses among candidate hits the one that the ray reaches first. `ts`
/// holds, candidate by candidate, the ray parameter of its hit, or `None`
/// where the ray misses it; only hits strictly between `min` and `max`
/// count. The answer is `None` exactly if no candidate was hit in range.
/// All numbers are given by their encodings. The candidates may be the
/// members of a list, or the two roots of one surface's intersection.
pub fn nearest_hit(ts: &Vec<Option<u64>>, min: u64, max: u64) -> (best: Option<usize>)
    ensures
        match best {
            Some(i) => is_nearest(ts@, min, max, i as int),
            None => forall|j: int| !hit_in_range(ts@, min, max, j),
        },
{
    let mut best: Option<usize> = None;
    let mut closest: u64 = max;
    let mut k: usize = 0;
    while k < ts.len()
        invariant
            k <= ts@.len(),
            match best {
                Some(i) => {
                    &&& i < k
                    &&& hit_in_range(ts@, min, max, i as int)
                    &&& ts@[i as int].unwrap() == closest
                },
                None => closest == max,
            },
            forall|j: int|
                0 <= j < k && #[trigger] hit_in_range(ts@, min, max, j) ==> {
                    &&& best is Some
                    &&& !less_than(ts@[j].unwrap(), closest)
                    &&& j < best.unwrap() ==> less_than(closest, ts@[j].unwrap())
                },
        decreases ts@.len() - k,
    {
        if let Some(t) = ts[k] {
            if less(min, t) && less(t, closest) {
                closest = t;
                best = Some(k);
            }
        }
        k += 1;
    }
    best
}

/// What a scan has found so far is replaced by a new hit that lies in
/// range and is nearer; any other hit, or a miss, leaves it.
pub open spec fn closer_of<M>(
    best: Option<HitRecord<M>>,
    found: Option<HitRecord<M>>,
    min: u64,
    max: u64,
) -> Option<HitRecord<M>> {
    let closest = match best {
        Some(b) => b.t,
        None => max,
    };
    match found {
        Some(f) => if less_than(min, f.t) && less_than(f.t, closest) {
            found
        } else {
            best
        },
        None => best,
    }
}

/// Takes one member's answer into a scan: the step of `HittableList::hit`.
pub fn closer<M>(
    best: Option<HitRecord<M>>,
    found: Option<HitRecord<M>>,
    min: u64,
    max: u64,
) -> (next: Option<HitRecord<M>>)
    ensures
        next == closer_of(best, found, min, max),
{
    let closest = match &best {
        Some(b) => b.t,
        None => max,
    };
    match found {
        Some(f) => if less(min, f.t) && less(f.t, closest) {
            Some(f)
        } else {
            best
        },
        None => best,
    }
}

/// The scan of the members' answers, from the first to the last.
pub open spec fn scan<M>(hits: Seq<Option<HitRecord<M>>>, min: u64, max: u64) -> Option<
    HitRecord<M>,
>
    decreases hits.len(),
{
    if hits.len() == 0 {
        None
    } else {
        closer_of(scan(hits.drop_last(), min, max), hits.last(), min, max)
    }
}

/// The ray parameters of the members' answers.
pub open spec fn parameters<M>(hits: Seq<Option<HitRecord<M>>>) -> Seq<Option<u64>> {
    Seq::new(
        hits.len(),
        |i: int|
            match hits[i] {
                Some(h) => Some(h.t),
                None => None,
            },
    )
}

/// The scan finds the nearest hit: what it ends with is the answer of the
/// member that is hit in range before all others, and it ends with nothing
/// exactly if no member is hit in range.
pub proof fn lemma_scan_is_nearest<M>(hits: Seq<Option<HitRecord<M>>>, min: u64, max: u64)
    ensures
        match scan(hits, min, max) {
            Some(h) => exists|i: int|
                0 <= i < hits.len() && hits[i] == Some(h) && #[trigger] is_nearest(
                    parameters(hits),
                    min,
                    max,
                    i,
                ),
            None => forall|j: int| !hit_in_range(parameters(hits), min, max, j),
        },
    decreases hits.len(),
{
    if hits.len() > 0 {
        let before = hits.drop_last();
        let last = hits.len() - 1;
        let ts = parameters(hits);
        let ts_before = parameters(before);
        lemma_scan_is_nearest(before, min, max);
        assert forall|j: int| 0 <= j < last implies ts_before[j] == ts[j] by {}
        assert forall|j: int| 0 <= j < last implies hit_in_range(ts_before, min, max, j)
            == hit_in_range(ts, min, max, j) by {}
        match scan(before, min, max) {
            Some(b) => {
                let i = choose|i: int|
                    0 <= i < before.len() && before[i] == Some(b) && #[trigger] is_nearest(
                        ts_before,
                        min,
                        max,
                        i,
                    );
                assert(hit_in_range(ts_before, min, max, i));
                if scan(hits, min, max) == hits[last] && hits[last] is Some && hits[last]
                    != Some(b) {
                    assert(hit_in_range(ts, min, max, last));
                    assert forall|j: int| #[trigger] hit_in_range(ts, min, max, j) implies !less_than(
                        ts[j].unwrap(),
                        ts[last].unwrap(),
                    ) && (j < last ==> less_than(ts[last].unwrap(), ts[j].unwrap())) by {
                        if j < last {
                            assert(hit_in_range(ts_before, min, max, j));
                        }
                    }
                    assert(is_nearest(ts, min, max, last));
                } else {
                    assert(hit_in_range(ts, min, max, i));
                    assert forall|j: int| #[trigger] hit_in_range(ts, min, max, j) implies !less_than(
                        ts[j].unwrap(),
                        ts[i].unwrap(),
                    ) && (j < i ==> less_than(ts[i].unwrap(), ts[j].unwrap())) by {
                        if j < last {
                            assert(hit_in_range(ts_before, min, max, j));
                        }
                    }
                    assert(is_nearest(ts, min, max, i));
                    assert(hits[i] == Some(b));
                }
            },
            None => {
                assert forall|j: int| 0 <= j < last implies !hit_in_range(ts, min, max, j) by {
                    assert(!hit_in_range(ts_before, min, max, j));
                }
                if scan(hits, min, max) is Some {
                    assert(hit_in_range(ts, min, max, last));
                    assert(is_nearest(ts, min, max, last));
                }
            },
        }
    }
}

/// The members' answers to a ray, member by member.
pub open spec fn answers<M, T: Hittable<M>>(members: Seq<T>, r: Ray, min: u64, max: u64) -> Seq<
    Option<HitRecord<M>>,
> {
    Seq::new(members.len(), |k: int| members[k].answer(r, min, max))
}

impl<M, T: Hittable<M>> Hittable<M> for HittableList<T> {
    /// The list's answer is the scan of its members' answers.
    open spec fn answer(&self, r: Ray, min: u64, max: u64) -> Option<HitRecord<M>> {
        scan(answers(self@, r, min, max), min, max)
    }

    /// Asks every member, from the first to the last, with the ray and the
    /// range that the list was asked with, and keeps the nearest of their
    /// hits that lies in range.
    fn hit(&self, r: Ray, min: u64, max: u64) -> (rec: Option<HitRecord<M>>) {
        let mut best: Option<HitRecord<M>> = None;
        let mut i: usize = 0;
        while i < self.objects.len()
            invariant
                i <= self.objects@.len(),
                best == scan(answers(self@.subrange(0, i as int), r, min, max), min, max),
            decreases self.objects@.len() - i,
        {
            let found = self.objects[i].hit(r, min, max);
            best = closer(best, found, min, max);
            proof {
                let upto = answers(self@.subrange(0, i + 1), r, min, max);
                assert(upto.drop_last() =~= answers(self@.subrange(0, i as int), r, min, max));
                assert(upto.last() == found);
            }
            i += 1;
        }
        proof {
            assert(self@.subrange(0, i as int) =~= self@);
        }
        best
    }
}

/// A ray hits a list where it hits the nearest of the members: the list's
/// answer is the answer of the member that is hit in range before all
/// others, and the list is missed exactly if no member is hit in range.
pub proof fn lemma_list_hit_is_nearest<M, T: Hittable<M>>(
    list: HittableList<T>,
    r: Ray,
    min: u64,
    max: u64,
)
    ensures
        match list.answer(r, min, max) {
            Some(h) => exists|i: int|
                0 <= i < list@.len() && list@[i].answer(r, min, max) == Some(h)
                    && #[trigger] is_nearest(
                    parameters(answers(list@, r, min, max)),
                    min,
                    max,
                    i,
                ),
            None => forall|j: int|
                !hit_in_range(parameters(answers(list@, r, min, max)), min, max, j),
        },
{
    lemma_scan_is_nearest(answers(list@, r, min, max), min, max);
}

/// No two members are hit in range equally far without being hit alike.
pub open spec fn no_ties<M, T: Hittable<M>>(members: Seq<T>, r: Ray, min: u64, max: u64) -> bool {
    let ts = parameters(answers(members, r, min, max));
    forall|i: int, j: int|
        #![trigger hit_in_range(ts, min, max, i), hit_in_range(ts, min, max, j)]
        hit_in_range(ts, min, max, i) && hit_in_range(ts, min, max, j) && !less_than(
            ts[i].unwrap(),
            ts[j].unwrap(),
        ) && !less_than(ts[j].unwrap(), ts[i].unwrap()) ==> members[i].answer(r, min, max)
            == members[j].answer(r, min, max)
}

/// The order of the members does not show in the hit: two lists of the same
/// members, in whatever order and however often, answer a ray alike, unless
/// two members tie.
pub proof fn lemma_order_of_members_irrelevant<M, T: Hittable<M>>(
    a: HittableList<T>,
    b: HittableList<T>,
    r: Ray,
    min: u64,
    max: u64,
)
    requires
        forall|member: T| a@.contains(member) <==> b@.contains(member),
        no_ties(a@, r, min, max),
    ensures
        a.answer(r, min, max) == b.answer(r, min, max),
{
    let ts_a = parameters(answers(a@, r, min, max));
    let ts_b = parameters(answers(b@, r, min, max));
    lemma_list_hit_is_nearest(a, r, min, max);
    lemma_list_hit_is_nearest(b, r, min, max);
    match b.answer(r, min, max) {
        Some(in_b) => {
            let at_b = choose|i: int|
                0 <= i < b@.len() && b@[i].answer(r, min, max) == Some(in_b)
                    && #[trigger] is_nearest(ts_b, min, max, i);
            assert(hit_in_range(ts_b, min, max, at_b));
            assert(b@.contains(b@[at_b]));
            assert(a@.contains(b@[at_b]));
            let there = choose|k: int| 0 <= k < a@.len() && a@[k] == b@[at_b];
            assert(hit_in_range(ts_a, min, max, there));
            match a.answer(r, min, max) {
                Some(in_a) => {
                    let at_a = choose|i: int|
                        0 <= i < a@.len() && a@[i].answer(r, min, max) == Some(in_a)
                            && #[trigger] is_nearest(ts_a, min, max, i);
                    assert(hit_in_range(ts_a, min, max, at_a));
                    assert(a@.contains(a@[at_a]));
                    assert(b@.contains(a@[at_a]));
                    let here = choose|k: int| 0 <= k < b@.len() && b@[k] == a@[at_a];
                    assert(hit_in_range(ts_b, min, max, here));
                    assert(!less_than(ts_a[there].unwrap(), ts_a[at_a].unwrap()));
                    assert(!less_than(ts_b[here].unwrap(), ts_b[at_b].unwrap()));
                    assert(a@[at_a].answer(r, min, max) == a@[there].answer(r, min, max));
                },
                None => {},
            }
        },
        None => {
            match a.answer(r, min, max) {
                Some(in_a) => {
                    let at_a = choose|i: int|
                        0 <= i < a@.len() && a@[i].answer(r, min, max) == Some(in_a)
                            && #[trigger] is_nearest(ts_a, min, max, i);
                    assert(hit_in_range(ts_a, min, max, at_a));
                    assert(a@.contains(a@[at_a]));
                    assert(b@.contains(a@[at_a]));
                    let here = choose|k: int| 0 <= k < b@.len() && b@[k] == a@[at_a];
                    assert(hit_in_range(ts_b, min, max, here));
                },
                None => {},
            }
        },
    }
}

/// An empty list is missed.
pub proof fn lemma_empty_list_is_missed<M, T: Hittable<M>>(
    list: HittableList<T>,
    r: Ray,
    min: u64,
    max: u64,
)
    requires
        list@.len() == 0,
    ensures
        list.answer(r, min, max) is None,
{
}

/// What a list answers lies in range.
pub proof fn lemma_scan_in_range<M>(hits: Seq<Option<HitRecord<M>>>, min: u64, max: u64)
    ensures
        match scan(hits, min, max) {
            Some(h) => less_than(min, h.t) && less_than(h.t, max),
            None => true,
        },
{
    lemma_scan_is_nearest(hits, min, max);
    match scan(hits, min, max) {
        Some(h) => {
            let i = choose|i: int|
                0 <= i < hits.len() && hits[i] == Some(h) && #[trigger] is_nearest(
                    parameters(hits),
                    min,
                    max,
                    i,
                );
            assert(hit_in_range(parameters(hits), min, max, i));
        },
        None => {},
    }
}

} // verus!
