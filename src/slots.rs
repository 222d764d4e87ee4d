//! Per-replica slot vectors: their mathematical model, the join (pointwise
//! maximum) and its laws, and the executable operations on them.
use vstd::prelude::*;

use crate::count::Count;
use crate::error::CounterError;

verus! {

/// The slots of a vector as natural numbers.
pub open spec fn slot_values<T: Count>(v: Seq<T>) -> Seq<nat> {
    v.map_values(|x: T| x.as_nat())
}

/// `n` slots, all zero.
pub open spec fn zero_slots(n: nat) -> Seq<nat> {
    Seq::new(n, |i: int| 0nat)
}

/// The pointwise maximum of two slot vectors of equal length.
pub open spec fn join_slots(a: Seq<nat>, b: Seq<nat>) -> Seq<nat> {
    Seq::new(a.len(), |i: int| if a[i] >= b[i] { a[i] } else { b[i] })
}

/// `s` with slot `i` raised by one.
pub open spec fn bumped(s: Seq<nat>, i: int) -> Seq<nat> {
    s.update(i, s[i] + 1)
}

/// The sum of all slots.
pub open spec fn total(s: Seq<nat>) -> nat
    decreases s.len(),
{
    if s.len() == 0 {
        0
    } else {
        total(s.drop_last()) + s.last()
    }
}

/// The state reached from `s` by joining the snapshots in order.
pub open spec fn join_all(s: Seq<nat>, snapshots: Seq<Seq<nat>>) -> Seq<nat>
    decreases snapshots.len(),
{
    if snapshots.len() == 0 {
        s
    } else {
        join_slots(join_all(s, snapshots.drop_last()), snapshots.last())
    }
}

/// Every snapshot has `n` slots.
pub open spec fn all_of_len(snapshots: Seq<Seq<nat>>, n: nat) -> bool {
    forall|k: int| 0 <= k < snapshots.len() ==> (#[trigger] snapshots[k]).len() == n
}

/// Joining a state with itself leaves it unchanged.
pub proof fn lemma_join_idempotent(a: Seq<nat>)
    ensures
        join_slots(a, a) == a,
{
    assert(join_slots(a, a) =~= a);
}

/// The join does not depend on the order of its operands.
pub proof fn lemma_join_commutative(a: Seq<nat>, b: Seq<nat>)
    requires
        a.len() == b.len(),
    ensures
        join_slots(a, b) == join_slots(b, a),
{
    assert(join_slots(a, b) =~= join_slots(b, a));
}

/// The join does not depend on how successive joins are grouped.
pub proof fn lemma_join_associative(a: Seq<nat>, b: Seq<nat>, c: Seq<nat>)
    requires
        a.len() == b.len(),
        b.len() == c.len(),
    ensures
        join_slots(join_slots(a, b), c) == join_slots(a, join_slots(b, c)),
{
    assert(join_slots(join_slots(a, b), c) =~= join_slots(a, join_slots(b, c)));
}

/// A join keeps the length and lowers no slot.
pub proof fn lemma_join_monotone(a: Seq<nat>, b: Seq<nat>)
    requires
        a.len() == b.len(),
    ensures
        join_slots(a, b).len() == a.len(),
        forall|i: int| 0 <= i < a.len() ==> a[i] <= #[trigger] join_slots(a, b)[i],
{
}

/// Raising a slot keeps the length and lowers no slot.
pub proof fn lemma_bump_monotone(s: Seq<nat>, i: int)
    requires
        0 <= i < s.len(),
    ensures
        bumped(s, i).len() == s.len(),
        forall|j: int| 0 <= j < s.len() ==> s[j] <= #[trigger] bumped(s, i)[j],
{
}

proof fn lemma_join_all_len(s: Seq<nat>, xs: Seq<Seq<nat>>)
    ensures
        join_all(s, xs).len() == s.len(),
    decreases xs.len(),
{
    if xs.len() > 0 {
        lemma_join_all_len(s, xs.drop_last());
    }
}

/// Each slot of `join_all(s, xs)` is the largest of that slot in `s` and in
/// every snapshot of `xs`.
proof fn lemma_join_all_slot(s: Seq<nat>, xs: Seq<Seq<nat>>, i: int)
    requires
        all_of_len(xs, s.len()),
        0 <= i < s.len(),
    ensures
        join_all(s, xs).len() == s.len(),
        s[i] <= join_all(s, xs)[i],
        forall|k: int| 0 <= k < xs.len() ==> (#[trigger] xs[k])[i] <= join_all(s, xs)[i],
        join_all(s, xs)[i] == s[i] || exists|k: int|
            0 <= k < xs.len() && (#[trigger] xs[k])[i] == join_all(s, xs)[i],
    decreases xs.len(),
{
    if xs.len() > 0 {
        let init = xs.drop_last();
        assert(all_of_len(init, s.len())) by {
            assert forall|k: int| 0 <= k < init.len() implies (#[trigger] init[k]).len()
                == s.len() by {
                assert(init[k] == xs[k]);
            }
        }
        lemma_join_all_slot(s, init, i);
        let prev = join_all(s, init);
        assert(xs.last() == xs[xs.len() - 1]);
        assert forall|k: int| 0 <= k < xs.len() implies (#[trigger] xs[k])[i] <= join_all(
            s,
            xs,
        )[i] by {
            if k < xs.len() - 1 {
                assert(init[k] == xs[k]);
            }
        }
        if join_all(s, xs)[i] != s[i] {
            if join_all(s, xs)[i] == prev[i] {
                let k = choose|k: int| 0 <= k < init.len() && (#[trigger] init[k])[i] == prev[i];
                assert(init[k] == xs[k]);
            } else {
                assert(xs[xs.len() - 1][i] == join_all(s, xs)[i]);
            }
        }
    }
}

/// Two replicas that start from the same state and join the same collection
/// of snapshots, in any order and with any repetitions, end in the same state.
pub proof fn lemma_join_all_converges(s: Seq<nat>, xs: Seq<Seq<nat>>, ys: Seq<Seq<nat>>)
    requires
        all_of_len(xs, s.len()),
        all_of_len(ys, s.len()),
        xs.to_set() == ys.to_set(),
    ensures
        join_all(s, xs) == join_all(s, ys),
{
    lemma_join_all_len(s, xs);
    lemma_join_all_len(s, ys);
    assert forall|i: int| 0 <= i < s.len() implies join_all(s, xs)[i] == join_all(s, ys)[i] by {
        lemma_join_all_slot(s, xs, i);
        lemma_join_all_slot(s, ys, i);
        lemma_slot_below(s, xs, ys, i);
        lemma_slot_below(s, ys, xs, i);
    }
    assert(join_all(s, xs) =~= join_all(s, ys));
}

proof fn lemma_slot_below(s: Seq<nat>, xs: Seq<Seq<nat>>, ys: Seq<Seq<nat>>, i: int)
    requires
        all_of_len(xs, s.len()),
        all_of_len(ys, s.len()),
        xs.to_set() == ys.to_set(),
        0 <= i < s.len(),
    ensures
        join_all(s, xs)[i] <= join_all(s, ys)[i],
{
    lemma_join_all_slot(s, xs, i);
    lemma_join_all_slot(s, ys, i);
    if join_all(s, xs)[i] != s[i] {
        let k = choose|k: int| 0 <= k < xs.len() && (#[trigger] xs[k])[i] == join_all(s, xs)[i];
        assert(xs.to_set().contains(xs[k]));
        assert(ys.to_set().contains(xs[k]));
        let m = choose|m: int| 0 <= m < ys.len() && ys[m] == xs[k];
        assert(ys[m][i] <= join_all(s, ys)[i]);
    }
}

/// The sum of `n` slots, each at most `m`, is at most `n * m`.
proof fn lemma_total_bound(s: Seq<nat>, m: nat)
    requires
        forall|i: int| 0 <= i < s.len() ==> s[i] <= m,
    ensures
        total(s) <= s.len() * m,
    decreases s.len(),
{
    if s.len() > 0 {
        lemma_total_bound(s.drop_last(), m);
        assert(total(s) <= (s.len() - 1) * m + m);
        assert((s.len() - 1) * m + m == s.len() * m) by (nonlinear_arith);
    }
}

/// The slots of a vector sum to at most `u128::MAX`.
pub proof fn lemma_total_fits<T: Count>(v: Seq<T>)
    requires
        v.len() <= usize::MAX,
    ensures
        total(slot_values(v)) <= u128::MAX,
{
    let s = slot_values(v);
    assert forall|j: int| 0 <= j < s.len() implies s[j] <= u64::MAX by {
        v[j].lemma_range();
    }
    lemma_total_bound(s, u64::MAX as nat);
    let n: int = s.len() as int;
    assert(n * (u64::MAX as int) <= (usize::MAX as int) * (u64::MAX as int)) by (nonlinear_arith)
        requires
            0 <= n <= usize::MAX,
    ;
}

/// A vector of `n` zero slots.
pub fn zeros<T: Count>(n: usize) -> (r: Vec<T>)
    ensures
        slot_values(r@) == zero_slots(n as nat),
{
    let mut v: Vec<T> = Vec::new();
    let mut i: usize = 0;
    while i < n
        invariant
            i <= n,
            v.len() == i,
            forall|j: int| 0 <= j < i ==> (#[trigger] v@[j]).as_nat() == 0,
        decreases n - i,
    {
        v.push(T::zero());
        i = i + 1;
    }
    assert(slot_values(v@) =~= zero_slots(n as nat));
    v
}

/// The sum of all slots, computed in an accumulator wide enough never to
/// overflow.
pub fn sum_slots<T: Count>(v: &Vec<T>) -> (r: u128)
    ensures
        r == total(slot_values(v@)),
{
    let ghost vals = slot_values(v@);
    let mut acc: u128 = 0;
    let mut i: usize = 0;
    while i < v.len()
        invariant
            i <= v.len(),
            vals == slot_values(v@),
            acc == total(vals.take(i as int)),
        decreases v.len() - i,
    {
        let x = v[i];
        proof {
            let prefix = v@.take(i + 1);
            assert(slot_values(prefix) =~= vals.take(i + 1));
            assert(vals.take(i + 1).drop_last() =~= vals.take(i as int));
            lemma_total_fits(prefix);
        }
        acc = acc + x.widen();
        i = i + 1;
    }
    assert(vals.take(v.len() as int) =~= vals);
    acc
}

/// Raises slot `i` by one, or reports `CounterOverflow` and leaves the vector
/// as it was when the slot already holds the largest value of its type.
pub fn bump_slot<T: Count>(v: &mut Vec<T>, i: usize) -> (r: Result<(), CounterError>)
    requires
        i < old(v).len(),
    ensures
        old(v)@[i as int].as_nat() < T::max_nat() ==> r == Ok::<(), CounterError>(()) && slot_values(final(v)@)
            == bumped(slot_values(old(v)@), i as int),
        old(v)@[i as int].as_nat() == T::max_nat() ==> r == Err::<(), CounterError>(
            CounterError::CounterOverflow,
        ) && *final(v) == *old(v),
{
    proof {
        v@[i as int].lemma_range();
    }
    match v[i].checked_succ() {
        Some(x) => {
            v.set(i, x);
            assert(slot_values(v@) =~= bumped(slot_values(old(v)@), i as int));
            Ok(())
        },
        None => Err(CounterError::CounterOverflow),
    }
}

/// Replaces each slot of `v` by the larger of it and the same slot of `w`.
pub fn join_into<T: Count>(v: &mut Vec<T>, w: &Vec<T>)
    requires
        old(v).len() == w.len(),
    ensures
        slot_values(final(v)@) == join_slots(slot_values(old(v)@), slot_values(w@)),
{
    let ghost start = slot_values(v@);
    let mut i: usize = 0;
    while i < v.len()
        invariant
            v.len() == w.len(),
            start.len() == w.len(),
            i <= v.len(),
            start == slot_values(old(v)@),
            forall|j: int|
                0 <= j < i ==> (#[trigger] v@[j]).as_nat() == join_slots(
                    start,
                    slot_values(w@),
                )[j],
            forall|j: int| i <= j < v.len() ==> (#[trigger] v@[j]).as_nat() == start[j],
        decreases v.len() - i,
    {
        let x = v[i].join(w[i]);
        v.set(i, x);
        i = i + 1;
    }
    assert(slot_values(v@) =~= join_slots(start, slot_values(w@)));
}

/// Whether two vectors of equal length hold the same slot values.
pub fn same_slots<T: Count>(v: &Vec<T>, w: &Vec<T>) -> (r: bool)
    requires
        v.len() == w.len(),
    ensures
        r == (slot_values(v@) == slot_values(w@)),
{
    let mut i: usize = 0;
    while i < v.len()
        invariant
            v.len() == w.len(),
            i <= v.len(),
            forall|j: int| 0 <= j < i ==> v@[j].as_nat() == w@[j].as_nat(),
        decreases v.len() - i,
    {
        if !v[i].same(w[i]) {
            assert(slot_values(v@)[i as int] != slot_values(w@)[i as int]);
            return false;
        }
        i = i + 1;
    }
    assert(slot_values(v@) =~= slot_values(w@));
    true
}

/// A copy of a slot vector.
pub fn copy_slots<T: Count>(v: &Vec<T>) -> (r: Vec<T>)
    ensures
        r@ == v@,
{
    let mut out: Vec<T> = Vec::new();
    let mut i: usize = 0;
    while i < v.len()
        invariant
            i <= v.len(),
            out@ =~= v@.take(i as int),
        decreases v.len() - i,
    {
        out.push(v[i]);
        i = i + 1;
    }
    assert(v@.take(v.len() as int) =~= v@);
    out
}

} // verus!
