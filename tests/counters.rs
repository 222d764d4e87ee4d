use crdts::{Counter, CounterError, GCounter, PNCounter};

fn g_with(id: usize, entries: Vec<u64>) -> GCounter<u64> {
    GCounter::from_entries(id, entries).unwrap()
}

fn pn_with(id: usize, inc: Vec<u64>, dec: Vec<u64>) -> PNCounter<u64> {
    PNCounter::from_entries(id, inc, dec).unwrap()
}

#[test]
fn g_new_is_zero_filled() {
    let c = GCounter::<u32>::new(2, Some(4));
    assert_eq!(c.id(), 2);
    assert_eq!(c.entries(), &vec![0u32, 0, 0, 0]);
    assert_eq!(c.value(), Ok(0));
}

#[test]
fn g_three_replica_scenario() {
    let mut r0 = GCounter::<u64>::new(0, Some(3));
    let mut r1 = GCounter::<u64>::new(1, Some(3));
    assert_eq!(r0.entries(), &vec![0, 0, 0]);
    r0.increment().unwrap();
    r0.increment().unwrap();
    assert_eq!(r0.entries(), &vec![2, 0, 0]);
    r1.increment().unwrap();
    assert_eq!(r1.entries(), &vec![0, 1, 0]);
    assert_eq!(r1.merge(&r0), Ok(()));
    assert_eq!(r1.entries(), &vec![2, 1, 0]);
    assert_eq!(r1.value(), Ok(3));
    assert_eq!(r1.id(), 1);
}

#[test]
fn pn_two_replica_scenario() {
    let mut r0 = PNCounter::<u64>::new(0, Some(2));
    for _ in 0..3 {
        r0.increment().unwrap();
    }
    r0.decrement().unwrap();
    assert_eq!(r0.increments(), &vec![3, 0]);
    assert_eq!(r0.decrements(), &vec![1, 0]);
    assert_eq!(r0.value(), Ok(2));
    let untouched = PNCounter::<u64>::new(1, Some(2));
    r0.merge(&untouched).unwrap();
    assert_eq!(r0.value(), Ok(2));
    let mut r1 = PNCounter::<u64>::new(1, Some(2));
    r1.merge(&r0).unwrap();
    assert_eq!(r1.value(), Ok(2));
    assert_eq!(r1.compare(&r0), Ok(true));
}

#[test]
fn pn_value_can_be_negative() {
    let mut c = PNCounter::<u8>::new(1, Some(3));
    c.increment().unwrap();
    c.decrement().unwrap();
    c.decrement().unwrap();
    c.decrement().unwrap();
    assert_eq!(c.value(), Ok(-2));
    assert_eq!(c.increments(), &vec![0u8, 1, 0]);
    assert_eq!(c.decrements(), &vec![0u8, 3, 0]);
}

#[test]
fn g_decrement_is_unsupported_and_changes_nothing() {
    let mut c = g_with(1, vec![4, 5, 6]);
    assert_eq!(c.decrement(), Err(CounterError::UnsupportedOperation));
    assert_eq!(c.entries(), &vec![4, 5, 6]);
    assert_eq!(c.value(), Ok(15));
}

#[test]
fn g_increment_overflow_is_reported_without_change() {
    let mut c = GCounter::<u8>::from_entries(0, vec![254, 3]).unwrap();
    assert_eq!(c.increment(), Ok(()));
    assert_eq!(c.entries(), &vec![255u8, 3]);
    assert_eq!(c.increment(), Err(CounterError::CounterOverflow));
    assert_eq!(c.entries(), &vec![255u8, 3]);
}

#[test]
fn pn_decrement_overflow_is_reported_without_change() {
    let mut c = PNCounter::<u8>::from_entries(1, vec![0, 0], vec![0, 255]).unwrap();
    assert_eq!(c.decrement(), Err(CounterError::CounterOverflow));
    assert_eq!(c.decrements(), &vec![0u8, 255]);
    assert_eq!(c.increment(), Ok(()));
    assert_eq!(c.increments(), &vec![0u8, 1]);
}

#[test]
fn g_value_uses_a_wide_accumulator() {
    let c = GCounter::<u8>::from_entries(0, vec![200, 200, 255]).unwrap();
    assert_eq!(c.value(), Ok(655));
    let big = g_with(0, vec![u64::MAX, u64::MAX]);
    assert_eq!(big.value(), Ok(2 * (u64::MAX as u128)));
}

#[test]
fn pn_value_of_large_slots() {
    let c = pn_with(0, vec![u64::MAX, u64::MAX], vec![0, 1]);
    assert_eq!(c.value(), Ok(2 * (u64::MAX as i128) - 1));
    let d = pn_with(0, vec![0, 0], vec![u64::MAX, u64::MAX]);
    assert_eq!(d.value(), Ok(-2 * (u64::MAX as i128)));
}

#[test]
fn mismatched_replica_counts_are_incompatible() {
    let mut a = GCounter::<u64>::new(0, Some(2));
    let b = GCounter::<u64>::new(0, Some(3));
    assert_eq!(a.compare(&b), Err(CounterError::IncompatibleReplicaSets));
    assert_eq!(a.merge(&b), Err(CounterError::IncompatibleReplicaSets));
    assert_eq!(a.entries(), &vec![0, 0]);
    let mut p = PNCounter::<u64>::new(0, Some(2));
    let q = PNCounter::<u64>::new(1, Some(1));
    assert_eq!(p.compare(&q), Err(CounterError::IncompatibleReplicaSets));
    assert_eq!(p.merge(&q), Err(CounterError::IncompatibleReplicaSets));
}

#[test]
fn from_entries_rejects_bad_snapshots() {
    assert!(GCounter::<u64>::from_entries(3, vec![1, 2, 3]).is_none());
    assert!(PNCounter::<u64>::from_entries(0, vec![1, 2], vec![1]).is_none());
    assert!(PNCounter::<u64>::from_entries(2, vec![1, 2], vec![1, 2]).is_none());
}

#[test]
fn compare_detects_any_slot_difference() {
    let a = g_with(0, vec![1, 2, 3]);
    assert_eq!(a.compare(&g_with(2, vec![1, 2, 3])), Ok(true));
    assert_eq!(a.compare(&g_with(0, vec![1, 2, 4])), Ok(false));
    let p = pn_with(0, vec![1, 2], vec![0, 0]);
    assert_eq!(p.compare(&pn_with(1, vec![1, 2], vec![0, 0])), Ok(true));
    assert_eq!(p.compare(&pn_with(0, vec![1, 2], vec![0, 1])), Ok(false));
}

#[test]
fn merge_with_self_changes_nothing() {
    let mut a = g_with(1, vec![3, 7, 0]);
    let copy = a.clone();
    a.merge(&copy).unwrap();
    assert_eq!(a.entries(), &vec![3, 7, 0]);
    let mut p = pn_with(0, vec![2, 5], vec![4, 1]);
    let pcopy = p.clone();
    p.merge(&pcopy).unwrap();
    assert_eq!(p.increments(), &vec![2, 5]);
    assert_eq!(p.decrements(), &vec![4, 1]);
}

#[test]
fn merge_order_does_not_matter() {
    let a = g_with(0, vec![5, 1, 9]);
    let b = g_with(1, vec![2, 8, 9]);
    let mut ab = a.clone();
    ab.merge(&b).unwrap();
    let mut ba = b.clone();
    ba.merge(&a).unwrap();
    assert_eq!(ab.entries(), &vec![5, 8, 9]);
    assert_eq!(ab.compare(&ba), Ok(true));
    let p = pn_with(0, vec![3, 0], vec![0, 2]);
    let q = pn_with(1, vec![1, 4], vec![1, 1]);
    let mut pq = p.clone();
    pq.merge(&q).unwrap();
    let mut qp = q.clone();
    qp.merge(&p).unwrap();
    assert_eq!(pq.compare(&qp), Ok(true));
    assert_eq!(pq.value(), Ok(4));
}

#[test]
fn merge_grouping_does_not_matter() {
    let a = g_with(0, vec![1, 6, 2]);
    let b = g_with(1, vec![4, 0, 3]);
    let c = g_with(2, vec![2, 5, 7]);
    let mut left = a.clone();
    left.merge(&b).unwrap();
    left.merge(&c).unwrap();
    let mut bc = b.clone();
    bc.merge(&c).unwrap();
    let mut right = a.clone();
    right.merge(&bc).unwrap();
    assert_eq!(left.entries(), &vec![4, 6, 7]);
    assert_eq!(left.compare(&right), Ok(true));
    let p = pn_with(0, vec![1, 0, 0], vec![0, 0, 2]);
    let q = pn_with(1, vec![0, 3, 0], vec![1, 0, 0]);
    let r = pn_with(2, vec![2, 1, 1], vec![0, 1, 0]);
    let mut pl = p.clone();
    pl.merge(&q).unwrap();
    pl.merge(&r).unwrap();
    let mut qr = q.clone();
    qr.merge(&r).unwrap();
    let mut pr = p.clone();
    pr.merge(&qr).unwrap();
    assert_eq!(pl.compare(&pr), Ok(true));
    assert_eq!(pl.value(), Ok(2));
}

#[test]
fn increments_and_merges_lower_no_slot() {
    let mut a = g_with(0, vec![3, 9, 1]);
    a.increment().unwrap();
    assert_eq!(a.entries(), &vec![4, 9, 1]);
    a.merge(&g_with(2, vec![1, 2, 5])).unwrap();
    assert_eq!(a.entries(), &vec![4, 9, 5]);
    let mut p = pn_with(1, vec![0, 2], vec![3, 0]);
    p.decrement().unwrap();
    p.merge(&pn_with(0, vec![1, 1], vec![1, 0])).unwrap();
    assert_eq!(p.increments(), &vec![1, 2]);
    assert_eq!(p.decrements(), &vec![3, 1]);
}

#[test]
fn replicas_converge_whatever_the_order_of_merges() {
    let x = g_with(0, vec![4, 0, 1]);
    let y = g_with(1, vec![0, 6, 1]);
    let z = g_with(2, vec![2, 2, 9]);
    let mut one = GCounter::<u64>::new(0, Some(3));
    for s in [&x, &y, &z] {
        one.merge(s).unwrap();
    }
    let mut two = GCounter::<u64>::new(1, Some(3));
    for s in [&z, &x, &z, &y, &x] {
        two.merge(s).unwrap();
    }
    assert_eq!(one.compare(&two), Ok(true));
    assert_eq!(two.value(), Ok(19));
    let p = pn_with(0, vec![2, 0], vec![0, 0]);
    let q = pn_with(1, vec![0, 3], vec![0, 4]);
    let mut m = PNCounter::<u64>::new(0, Some(2));
    m.merge(&p).unwrap();
    m.merge(&q).unwrap();
    let mut n = PNCounter::<u64>::new(1, Some(2));
    n.merge(&q).unwrap();
    n.merge(&q).unwrap();
    n.merge(&p).unwrap();
    assert_eq!(m.compare(&n), Ok(true));
    assert_eq!(n.value(), Ok(1));
}
