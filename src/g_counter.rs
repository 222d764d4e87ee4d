//! The grow-only counter.
use vstd::prelude::*;

use crate::count::Count;
use crate::counter::Counter;
use crate::error::CounterError;
use crate::slots::{
    all_of_len, bump_slot, bumped, copy_slots, join_all, join_into, join_slots,
    lemma_bump_monotone, lemma_join_all_converges, lemma_join_associative,
    lemma_join_commutative, lemma_join_idempotent, lemma_join_monotone, lemma_total_fits,
    same_slots, slot_values, sum_slots, total, zero_slots, zeros,
};

verus! {

/// A grow-only counter: one slot per replica, of which this replica writes
/// only its own; the value is the sum of the slots.
#[derive(Debug)]
pub struct GCounter<T> {
    id: usize,
    entries: Vec<T>,
}

impl<T: Count> View for GCounter<T> {
    type V = Seq<nat>;

    /// The slots, one per replica.
    closed spec fn view(&self) -> Seq<nat> {
        slot_values(self.entries@)
    }
}

impl<T: Count> GCounter<T> {
    /// The identifier of the replica that owns this counter.
    pub closed spec fn replica(&self) -> nat {
        self.id as nat
    }

    /// A counter for replica `id` among `total_nodes` replicas, with every slot zero.
    pub fn new(id: usize, total_nodes: Option<u64>) -> (r: GCounter<T>)
        requires
            total_nodes matches Some(n) && id < n && n <= usize::MAX,
        ensures
            r.wf(),
            r.replica() == id,
            r@ == zero_slots(total_nodes->0 as nat),
    {
        let n = total_nodes.unwrap() as usize;
        GCounter { id, entries: zeros(n) }
    }

    /// A counter for replica `id` holding the given slots (a snapshot
    /// received from elsewhere), or `None` when `id` indexes no slot.
    pub fn from_entries(id: usize, entries: Vec<T>) -> (r: Option<GCounter<T>>)
        ensures
            r is Some <==> id < entries.len(),
            r matches Some(c) ==> c.wf() && c.replica() == id && c@ == slot_values(entries@),
    {
        if id < entries.len() {
            Some(GCounter { id, entries })
        } else {
            None
        }
    }
}

impl<T: Count> GCounter<T> {
    /// The identifier of the replica that owns this counter.
    pub fn id(&self) -> (r: usize)
        ensures
            r == self.replica(),
    {
        self.id
    }

    /// The slots, one per replica.
    pub fn entries(&self) -> (r: &Vec<T>)
        ensures
            slot_values(r@) == self@,
    {
        &self.entries
    }
}

impl<T: Count> Counter<u128, GCounter<T>> for GCounter<T> {
    open spec fn wf(&self) -> bool {
        self.replica() < self@.len()
    }

    open spec fn peer_wf(other: &GCounter<T>) -> bool {
        other.wf()
    }

    open spec fn compatible(&self, other: &GCounter<T>) -> bool {
        self@.len() == other@.len()
    }

    open spec fn increment_result(&self) -> Result<(), CounterError> {
        if self@[self.replica() as int] < T::max_nat() {
            Ok(())
        } else {
            Err(CounterError::CounterOverflow)
        }
    }

    open spec fn incremented(&self, after: &Self) -> bool {
        after.replica() == self.replica() && after@ == bumped(self@, self.replica() as int)
    }

    open spec fn decrement_result(&self) -> Result<(), CounterError> {
        Err(CounterError::UnsupportedOperation)
    }

    open spec fn decremented(&self, after: &Self) -> bool {
        after.replica() == self.replica() && after@ == self@
    }

    open spec fn value_result(&self) -> Result<u128, CounterError> {
        if total(self@) <= u128::MAX {
            Ok(total(self@) as u128)
        } else {
            Err(CounterError::ValueRangeError)
        }
    }

    open spec fn same_state(&self, other: &GCounter<T>) -> bool {
        self@ == other@
    }

    open spec fn merged(&self, other: &GCounter<T>, after: &Self) -> bool {
        after.replica() == self.replica() && after@ == join_slots(self@, other@)
    }

    open spec fn dominated_by(&self, after: &Self) -> bool {
        after@.len() == self@.len() && forall|i: int|
            0 <= i < self@.len() ==> self@[i] <= #[trigger] after@[i]
    }

    fn increment(&mut self) -> (r: Result<(), CounterError>) {
        proof {
            assert(self@[self.id as int] == self.entries@[self.id as int].as_nat());
            self.entries@[self.id as int].lemma_range();
            lemma_bump_monotone(self@, self.id as int);
        }
        bump_slot(&mut self.entries, self.id)
    }

    fn decrement(&mut self) -> (r: Result<(), CounterError>) {
        Err(CounterError::UnsupportedOperation)
    }

    fn value(&self) -> (r: Result<u128, CounterError>) {
        Ok(sum_slots(&self.entries))
    }

    fn compare(&self, other: &GCounter<T>) -> (r: Result<bool, CounterError>) {
        if self.entries.len() != other.entries.len() {
            return Err(CounterError::IncompatibleReplicaSets);
        }
        Ok(same_slots(&self.entries, &other.entries))
    }

    fn merge(&mut self, other: &GCounter<T>) -> (r: Result<(), CounterError>) {
        if self.entries.len() != other.entries.len() {
            return Err(CounterError::IncompatibleReplicaSets);
        }
        proof {
            lemma_join_monotone(self@, other@);
        }
        join_into(&mut self.entries, &other.entries);
        Ok(())
    }
}

impl<T: Count> Clone for GCounter<T> {
    fn clone(&self) -> (r: Self)
        ensures
            r.replica() == self.replica(),
            r@ == self@,
    {
        GCounter { id: self.id, entries: copy_slots(&self.entries) }
    }
}

/// The value of a grow-only counter always fits in a `u128`, so reading it
/// never fails.
pub proof fn lemma_value_fits<T: Count>(c: GCounter<T>)
    ensures
        c.value_result() == Ok::<u128, CounterError>(total(c@) as u128),
{
    assert(c.entries@.len() == c.entries.len());
    lemma_total_fits(c.entries@);
}

/// Merging a counter with itself leaves its state unchanged.
pub proof fn lemma_merge_idempotent<T: Count>(a: GCounter<T>, after: GCounter<T>)
    requires
        a.merged(&a, &after),
    ensures
        after.replica() == a.replica(),
        after@ == a@,
{
    lemma_join_idempotent(a@);
}

/// Merging `b` into `a` and `a` into `b` give the same state.
pub proof fn lemma_merge_commutative<T: Count>(
    a: GCounter<T>,
    b: GCounter<T>,
    ab: GCounter<T>,
    ba: GCounter<T>,
)
    requires
        a.compatible(&b),
        a.merged(&b, &ab),
        b.merged(&a, &ba),
    ensures
        ab.same_state(&ba),
{
    lemma_join_commutative(a@, b@);
}

/// Merging `b` into `a` and then `c`, or merging into `a` the result of
/// merging `c` into `b`, give the same state.
pub proof fn lemma_merge_associative<T: Count>(
    a: GCounter<T>,
    b: GCounter<T>,
    c: GCounter<T>,
    ab: GCounter<T>,
    ab_c: GCounter<T>,
    bc: GCounter<T>,
    a_bc: GCounter<T>,
)
    requires
        a.compatible(&b),
        b.compatible(&c),
        a.merged(&b, &ab),
        ab.merged(&c, &ab_c),
        b.merged(&c, &bc),
        a.merged(&bc, &a_bc),
    ensures
        ab_c.same_state(&a_bc),
{
    lemma_join_associative(a@, b@, c@);
}


/// The slots of each counter in `cs`.
pub open spec fn slot_views<T: Count>(cs: Seq<GCounter<T>>) -> Seq<Seq<nat>> {
    cs.map_values(|c: GCounter<T>| c@)
}

proof fn lemma_views_cover<T: Count>(xs: Seq<GCounter<T>>, ys: Seq<GCounter<T>>)
    requires
        xs.to_set() <= ys.to_set(),
    ensures
        slot_views(xs).to_set() <= slot_views(ys).to_set(),
{
    assert forall|v: Seq<nat>| slot_views(xs).to_set().contains(v) implies slot_views(
        ys,
    ).to_set().contains(v) by {
        let k = choose|k: int| 0 <= k < slot_views(xs).len() && slot_views(xs)[k] == v;
        assert(xs.to_set().contains(xs[k]));
        let m = choose|m: int| 0 <= m < ys.len() && ys[m] == xs[k];
        assert(slot_views(ys)[m] == v);
    }
}

/// Two replicas that start from the same state and merge in the same
/// collection of snapshots, in any order and with any repetitions, reach the
/// same state.
pub proof fn lemma_merges_converge<T: Count>(
    start: GCounter<T>,
    xs: Seq<GCounter<T>>,
    ys: Seq<GCounter<T>>,
)
    requires
        forall|k: int| 0 <= k < xs.len() ==> start.compatible(&#[trigger] xs[k]),
        forall|k: int| 0 <= k < ys.len() ==> start.compatible(&#[trigger] ys[k]),
        xs.to_set() == ys.to_set(),
    ensures
        join_all(start@, slot_views(xs)) == join_all(start@, slot_views(ys)),
{
    lemma_views_cover(xs, ys);
    lemma_views_cover(ys, xs);
    assert(slot_views(xs).to_set() == slot_views(ys).to_set());
    assert(all_of_len(slot_views(xs), start@.len()));
    assert(all_of_len(slot_views(ys), start@.len()));
    lemma_join_all_converges(start@, slot_views(xs), slot_views(ys));
}


} // verus!
