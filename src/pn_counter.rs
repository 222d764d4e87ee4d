//! The positive-negative counter.
use vstd::prelude::*;

use crate::count::Count;
use crate::counter::Counter;
use crate::error::CounterError;
use crate::slots::{
    all_of_len, bump_slot, bumped, copy_slots, join_all, join_into, join_slots,
    lemma_bump_monotone, lemma_join_all_converges, lemma_join_associative,
    lemma_join_commutative, lemma_join_idempotent, lemma_join_monotone, same_slots, slot_values,
    sum_slots, total, zero_slots, zeros,
};

verus! {

/// Every slot of `a` is at most the same slot of `b`, and both have the same length.
pub open spec fn slots_below(a: Seq<nat>, b: Seq<nat>) -> bool {
    b.len() == a.len() && forall|i: int| 0 <= i < a.len() ==> a[i] <= #[trigger] b[i]
}

/// A counter that can go up and down: two grow-only slot vectors, one
/// counting increments and one counting decrements, whose sums are
/// subtracted to read the value.
#[derive(Debug)]
pub struct PNCounter<T> {
    id: usize,
    increments: Vec<T>,
    decrements: Vec<T>,
}

impl<T: Count> PNCounter<T> {
    /// The identifier of the replica that owns this counter.
    pub closed spec fn replica(&self) -> nat {
        self.id as nat
    }

    /// The increment slots, one per replica.
    pub closed spec fn inc_slots(&self) -> Seq<nat> {
        slot_values(self.increments@)
    }

    /// The decrement slots, one per replica.
    pub closed spec fn dec_slots(&self) -> Seq<nat> {
        slot_values(self.decrements@)
    }

    /// The logical value: increments minus decrements.
    pub open spec fn spec_value(&self) -> int {
        total(self.inc_slots()) - total(self.dec_slots())
    }

    /// A counter for replica `id` among `total_nodes` replicas, with every slot
    /// of both vectors zero.
    pub fn new(id: usize, total_nodes: Option<u64>) -> (r: PNCounter<T>)
        requires
            total_nodes matches Some(n) && id < n && n <= usize::MAX,
        ensures
            r.wf(),
            r.replica() == id,
            r.inc_slots() == zero_slots(total_nodes->0 as nat),
            r.dec_slots() == zero_slots(total_nodes->0 as nat),
    {
        let n = total_nodes.unwrap() as usize;
        PNCounter { id, increments: zeros(n), decrements: zeros(n) }
    }

    /// A counter for replica `id` holding the given slots (a snapshot
    /// received from elsewhere), or `None` when the two vectors differ in
    /// length or `id` indexes no slot.
    pub fn from_entries(id: usize, increments: Vec<T>, decrements: Vec<T>) -> (r: Option<
        PNCounter<T>,
    >)
        ensures
            r is Some <==> id < increments.len() && increments.len() == decrements.len(),
            r matches Some(c) ==> c.wf() && c.replica() == id && c.inc_slots() == slot_values(
                increments@,
            ) && c.dec_slots() == slot_values(decrements@),
    {
        if id < increments.len() && increments.len() == decrements.len() {
            Some(PNCounter { id, increments, decrements })
        } else {
            None
        }
    }
}

impl<T: Count> PNCounter<T> {
    /// The identifier of the replica that owns this counter.
    pub fn id(&self) -> (r: usize)
        ensures
            r == self.replica(),
    {
        self.id
    }

    /// The increment slots, one per replica.
    pub fn increments(&self) -> (r: &Vec<T>)
        ensures
            slot_values(r@) == self.inc_slots(),
    {
        &self.increments
    }

    /// The decrement slots, one per replica.
    pub fn decrements(&self) -> (r: &Vec<T>)
        ensures
            slot_values(r@) == self.dec_slots(),
    {
        &self.decrements
    }
}

impl<T: Count> Counter<i128, PNCounter<T>> for PNCounter<T> {
    open spec fn wf(&self) -> bool {
        self.replica() < self.inc_slots().len() && self.inc_slots().len()
            == self.dec_slots().len()
    }

    open spec fn peer_wf(other: &PNCounter<T>) -> bool {
        other.wf()
    }

    open spec fn compatible(&self, other: &PNCounter<T>) -> bool {
        self.inc_slots().len() == other.inc_slots().len()
    }

    open spec fn increment_result(&self) -> Result<(), CounterError> {
        if self.inc_slots()[self.replica() as int] < T::max_nat() {
            Ok(())
        } else {
            Err(CounterError::CounterOverflow)
        }
    }

    open spec fn incremented(&self, after: &Self) -> bool {
        &&& after.replica() == self.replica()
        &&& after.inc_slots() == bumped(self.inc_slots(), self.replica() as int)
        &&& after.dec_slots() == self.dec_slots()
    }

    open spec fn decrement_result(&self) -> Result<(), CounterError> {
        if self.dec_slots()[self.replica() as int] < T::max_nat() {
            Ok(())
        } else {
            Err(CounterError::CounterOverflow)
        }
    }

    open spec fn decremented(&self, after: &Self) -> bool {
        &&& after.replica() == self.replica()
        &&& after.inc_slots() == self.inc_slots()
        &&& after.dec_slots() == bumped(self.dec_slots(), self.replica() as int)
    }

    open spec fn value_result(&self) -> Result<i128, CounterError> {
        if i128::MIN <= self.spec_value() <= i128::MAX {
            Ok(self.spec_value() as i128)
        } else {
            Err(CounterError::ValueRangeError)
        }
    }

    open spec fn same_state(&self, other: &PNCounter<T>) -> bool {
        self.inc_slots() == other.inc_slots() && self.dec_slots() == other.dec_slots()
    }

    open spec fn merged(&self, other: &PNCounter<T>, after: &Self) -> bool {
        &&& after.replica() == self.replica()
        &&& after.inc_slots() == join_slots(self.inc_slots(), other.inc_slots())
        &&& after.dec_slots() == join_slots(self.dec_slots(), other.dec_slots())
    }

    open spec fn dominated_by(&self, after: &Self) -> bool {
        slots_below(self.inc_slots(), after.inc_slots()) && slots_below(
            self.dec_slots(),
            after.dec_slots(),
        )
    }

    fn increment(&mut self) -> (r: Result<(), CounterError>) {
        proof {
            assert(self.inc_slots()[self.id as int] == self.increments@[self.id as int].as_nat());
            self.increments@[self.id as int].lemma_range();
            lemma_bump_monotone(self.inc_slots(), self.id as int);
        }
        bump_slot(&mut self.increments, self.id)
    }

    fn decrement(&mut self) -> (r: Result<(), CounterError>) {
        proof {
            assert(self.dec_slots()[self.id as int] == self.decrements@[self.id as int].as_nat());
            self.decrements@[self.id as int].lemma_range();
            lemma_bump_monotone(self.dec_slots(), self.id as int);
        }
        bump_slot(&mut self.decrements, self.id)
    }

    fn value(&self) -> (r: Result<i128, CounterError>) {
        let ups = sum_slots(&self.increments);
        let downs = sum_slots(&self.decrements);
        let bound = i128::MAX as u128;
        if ups >= downs {
            let d = ups - downs;
            if d <= bound {
                Ok(d as i128)
            } else {
                Err(CounterError::ValueRangeError)
            }
        } else {
            let d = downs - ups;
            if d <= bound {
                Ok(-(d as i128))
            } else if d == bound + 1 {
                Ok(i128::MIN)
            } else {
                Err(CounterError::ValueRangeError)
            }
        }
    }

    fn compare(&self, other: &PNCounter<T>) -> (r: Result<bool, CounterError>) {
        if self.increments.len() != other.increments.len() {
            return Err(CounterError::IncompatibleReplicaSets);
        }
        let same_ups = same_slots(&self.increments, &other.increments);
        let same_downs = same_slots(&self.decrements, &other.decrements);
        Ok(same_ups && same_downs)
    }

    fn merge(&mut self, other: &PNCounter<T>) -> (r: Result<(), CounterError>) {
        if self.increments.len() != other.increments.len() {
            return Err(CounterError::IncompatibleReplicaSets);
        }
        proof {
            lemma_join_monotone(self.inc_slots(), other.inc_slots());
            lemma_join_monotone(self.dec_slots(), other.dec_slots());
        }
        join_into(&mut self.increments, &other.increments);
        join_into(&mut self.decrements, &other.decrements);
        Ok(())
    }
}

impl<T: Count> Clone for PNCounter<T> {
    fn clone(&self) -> (r: Self)
        ensures
            r.replica() == self.replica(),
            r.inc_slots() == self.inc_slots(),
            r.dec_slots() == self.dec_slots(),
    {
        PNCounter {
            id: self.id,
            increments: copy_slots(&self.increments),
            decrements: copy_slots(&self.decrements),
        }
    }
}

/// Merging a counter with itself leaves its state unchanged.
pub proof fn lemma_merge_idempotent<T: Count>(a: PNCounter<T>, after: PNCounter<T>)
    requires
        a.merged(&a, &after),
    ensures
        after.replica() == a.replica(),
        after.same_state(&a),
{
    lemma_join_idempotent(a.inc_slots());
    lemma_join_idempotent(a.dec_slots());
}

/// Merging `b` into `a` and `a` into `b` give the same state.
pub proof fn lemma_merge_commutative<T: Count>(
    a: PNCounter<T>,
    b: PNCounter<T>,
    ab: PNCounter<T>,
    ba: PNCounter<T>,
)
    requires
        a.wf(),
        b.wf(),
        a.compatible(&b),
        a.merged(&b, &ab),
        b.merged(&a, &ba),
    ensures
        ab.same_state(&ba),
{
    lemma_join_commutative(a.inc_slots(), b.inc_slots());
    lemma_join_commutative(a.dec_slots(), b.dec_slots());
}

/// Merging `b` into `a` and then `c`, or merging into `a` the result of
/// merging `c` into `b`, give the same state.
pub proof fn lemma_merge_associative<T: Count>(
    a: PNCounter<T>,
    b: PNCounter<T>,
    c: PNCounter<T>,
    ab: PNCounter<T>,
    ab_c: PNCounter<T>,
    bc: PNCounter<T>,
    a_bc: PNCounter<T>,
)
    requires
        a.wf(),
        b.wf(),
        c.wf(),
        a.compatible(&b),
        b.compatible(&c),
        a.merged(&b, &ab),
        ab.merged(&c, &ab_c),
        b.merged(&c, &bc),
        a.merged(&bc, &a_bc),
    ensures
        ab_c.same_state(&a_bc),
{
    lemma_join_associative(a.inc_slots(), b.inc_slots(), c.inc_slots());
    lemma_join_associative(a.dec_slots(), b.dec_slots(), c.dec_slots());
}


/// The increment slots of each counter in `cs`.
pub open spec fn inc_views<T: Count>(cs: Seq<PNCounter<T>>) -> Seq<Seq<nat>> {
    cs.map_values(|c: PNCounter<T>| c.inc_slots())
}

/// The decrement slots of each counter in `cs`.
pub open spec fn dec_views<T: Count>(cs: Seq<PNCounter<T>>) -> Seq<Seq<nat>> {
    cs.map_values(|c: PNCounter<T>| c.dec_slots())
}

proof fn lemma_views_cover<T: Count>(xs: Seq<PNCounter<T>>, ys: Seq<PNCounter<T>>)
    requires
        xs.to_set() <= ys.to_set(),
    ensures
        inc_views(xs).to_set() <= inc_views(ys).to_set(),
        dec_views(xs).to_set() <= dec_views(ys).to_set(),
{
    assert forall|v: Seq<nat>| inc_views(xs).to_set().contains(v) implies inc_views(
        ys,
    ).to_set().contains(v) by {
        let k = choose|k: int| 0 <= k < inc_views(xs).len() && inc_views(xs)[k] == v;
        assert(xs.to_set().contains(xs[k]));
        let m = choose|m: int| 0 <= m < ys.len() && ys[m] == xs[k];
        assert(inc_views(ys)[m] == v);
    }
    assert forall|v: Seq<nat>| dec_views(xs).to_set().contains(v) implies dec_views(
        ys,
    ).to_set().contains(v) by {
        let k = choose|k: int| 0 <= k < dec_views(xs).len() && dec_views(xs)[k] == v;
        assert(xs.to_set().contains(xs[k]));
        let m = choose|m: int| 0 <= m < ys.len() && ys[m] == xs[k];
        assert(dec_views(ys)[m] == v);
    }
}

/// Two replicas that start from the same state and merge in the same
/// collection of snapshots, in any order and with any repetitions, reach the
/// same state.
pub proof fn lemma_merges_converge<T: Count>(
    start: PNCounter<T>,
    xs: Seq<PNCounter<T>>,
    ys: Seq<PNCounter<T>>,
)
    requires
        start.wf(),
        forall|k: int| 0 <= k < xs.len() ==> (#[trigger] xs[k]).wf() && start.compatible(&xs[k]),
        forall|k: int| 0 <= k < ys.len() ==> (#[trigger] ys[k]).wf() && start.compatible(&ys[k]),
        xs.to_set() == ys.to_set(),
    ensures
        join_all(start.inc_slots(), inc_views(xs)) == join_all(start.inc_slots(), inc_views(ys)),
        join_all(start.dec_slots(), dec_views(xs)) == join_all(start.dec_slots(), dec_views(ys)),
{
    lemma_views_cover(xs, ys);
    lemma_views_cover(ys, xs);
    assert(inc_views(xs).to_set() == inc_views(ys).to_set());
    assert(dec_views(xs).to_set() == dec_views(ys).to_set());
    let n = start.inc_slots().len();
    assert(all_of_len(inc_views(xs), n));
    assert(all_of_len(inc_views(ys), n));
    assert(all_of_len(dec_views(xs), n));
    assert(all_of_len(dec_views(ys), n));
    lemma_join_all_converges(start.inc_slots(), inc_views(xs), inc_views(ys));
    lemma_join_all_converges(start.dec_slots(), dec_views(xs), dec_views(ys));
}


} // verus!
