//! Time-stamped sample windows and latency percentiles over them.
use vstd::prelude::*;
use vstd::relations::{sorted_by, total_ordering};
use vstd::seq_lib::lemma_sorted_unique;

verus! {

broadcast use vstd::seq_lib::group_to_multiset_ensures;

/// The ascending order on `u64`.
pub open spec fn u64_leq() -> spec_fn(u64, u64) -> bool {
    |a: u64, b: u64| a <= b
}

/// The samples of `s` in ascending order.
pub open spec fn ascending(s: Seq<u64>) -> Seq<u64> {
    s.sort_by(u64_leq())
}

/// The rank `p * n / 100` (rounded down) of the `p`-th percentile among `n`
/// samples. For a window of `n` samples this equals `floor(n * 0.50)` and
/// `floor(n * 0.99)` computed in `f64`, as long as `n` stays below 2^44.
pub open spec fn percentile_rank(n: nat, p: nat) -> nat {
    (p * n / 100) as nat
}

/// `std`'s `sort_unstable` on a vector of integers.
#[verifier::external_body]
fn sort_unstable_u64(v: &mut Vec<u64>)
    ensures
        final(v)@.to_multiset() == old(v)@.to_multiset(),
        sorted_by(final(v)@, u64_leq()),
{
    v.sort_unstable();
}

proof fn lemma_u64_leq_total()
    ensures
        total_ordering(u64_leq()),
{
}

/// Sorts `v` in ascending order.
fn sort_ascending(v: &mut Vec<u64>)
    ensures
        final(v)@ == ascending(old(v)@),
{
    let ghost before = v@;
    sort_unstable_u64(v);
    proof {
        before.lemma_sort_by_ensures(u64_leq());
        lemma_u64_leq_total();
        lemma_sorted_unique(v@, ascending(before), u64_leq());
    }
}

proof fn lemma_rank_in_bounds(n: nat, p: nat)
    requires
        n > 0,
        p < 100,
    ensures
        percentile_rank(n, p) < n,
{
    assert(p * n < 100 * n) by (nonlinear_arith)
        requires
            n > 0,
            p < 100,
    ;
}

/// The 50th and 99th percentiles of `latencies`, taken at ranks
/// `percentile_rank(n, 50)` and `percentile_rank(n, 99)` of the samples in
/// ascending order; `(0, 0)` when there are no samples.
pub fn compute_percentiles(latencies: &[u64]) -> (r: (u64, u64))
    ensures
        latencies@.len() == 0 ==> r == (0u64, 0u64),
        latencies@.len() > 0 ==> r.0 == ascending(latencies@)[percentile_rank(
            latencies@.len(),
            50,
        ) as int] && r.1 == ascending(latencies@)[percentile_rank(latencies@.len(), 99) as int],
{
    if latencies.len() == 0 {
        return (0, 0);
    }
    let mut sorted = vstd::slice::slice_to_vec(latencies);
    sort_ascending(&mut sorted);
    let n: usize = sorted.len();
    proof {
        latencies@.lemma_sort_by_ensures(u64_leq());
        assert(sorted@.len() == latencies@.to_multiset().len());
        lemma_rank_in_bounds(n as nat, 50);
        lemma_rank_in_bounds(n as nat, 99);
    }
    let n_wide: u128 = n as u128;
    let p50_idx: usize = (n_wide * 50 / 100) as usize;
    let p99_idx: usize = (n_wide * 99 / 100) as usize;
    (sorted[p50_idx], sorted[p99_idx])
}

/// The median of a non-empty window is at most its 99th percentile, and both
/// are samples of the window.
pub proof fn lemma_percentiles_ordered(s: Seq<u64>)
    requires
        s.len() > 0,
    ensures
        ascending(s)[percentile_rank(s.len(), 50) as int] <= ascending(s)[percentile_rank(
            s.len(),
            99,
        ) as int],
        s.contains(ascending(s)[percentile_rank(s.len(), 50) as int]),
        s.contains(ascending(s)[percentile_rank(s.len(), 99) as int]),
{
    let n = s.len();
    s.lemma_sort_by_ensures(u64_leq());
    lemma_rank_in_bounds(n, 50);
    lemma_rank_in_bounds(n, 99);
    assert(50 * n / 100 <= 99 * n / 100) by (nonlinear_arith);
    let a = percentile_rank(n, 50) as int;
    let b = percentile_rank(n, 99) as int;
    let t = ascending(s);
    assert(t.len() == s.to_multiset().len());
    if a < b {
        assert(u64_leq()(t[a], t[b]));
    }
    assert(t.contains(t[a]));
    assert(t.contains(t[b]));
}

/// Samples `(received_ms, value)` received after `cutoff`.
pub open spec fn stamped_after(cutoff: u64) -> spec_fn((u64, u64)) -> bool {
    |e: (u64, u64)| e.0 > cutoff
}

/// Timestamps later than `cutoff`.
pub open spec fn later_than(cutoff: u64) -> spec_fn(u64) -> bool {
    |t: u64| t > cutoff
}

/// The values of the samples of `w` received after `cutoff`, in order.
pub open spec fn values_after(w: Seq<(u64, u64)>, cutoff: u64) -> Seq<u64> {
    w.filter_map(|e: (u64, u64)| if e.0 > cutoff { Some(e.1) } else { None })
}

/// The samples of `w` received after `cutoff`, in order.
pub fn keep_stamped_after(w: &Vec<(u64, u64)>, cutoff: u64) -> (r: Vec<(u64, u64)>)
    ensures
        r@ == w@.filter(stamped_after(cutoff)),
{
    let mut r: Vec<(u64, u64)> = Vec::new();
    let mut i: usize = 0;
    while i < w.len()
        invariant
            i <= w.len(),
            r@ == w@.take(i as int).filter(stamped_after(cutoff)),
        decreases w.len() - i,
    {
        proof {
            reveal(Seq::filter);
            assert(w@.take(i + 1).drop_last() =~= w@.take(i as int));
        }
        if w[i].0 > cutoff {
            r.push(w[i]);
        }
        i += 1;
    }
    assert(w@.take(w.len() as int) =~= w@);
    r
}

/// The timestamps of `w` later than `cutoff`, in order.
pub fn keep_later_than(w: &Vec<u64>, cutoff: u64) -> (r: Vec<u64>)
    ensures
        r@ == w@.filter(later_than(cutoff)),
{
    let mut r: Vec<u64> = Vec::new();
    let mut i: usize = 0;
    while i < w.len()
        invariant
            i <= w.len(),
            r@ == w@.take(i as int).filter(later_than(cutoff)),
        decreases w.len() - i,
    {
        proof {
            reveal(Seq::filter);
            assert(w@.take(i + 1).drop_last() =~= w@.take(i as int));
        }
        if w[i] > cutoff {
            r.push(w[i]);
        }
        i += 1;
    }
    assert(w@.take(w.len() as int) =~= w@);
    r
}

/// The values of the samples of `w` received after `cutoff`, in order.
pub fn collect_values_after(w: &Vec<(u64, u64)>, cutoff: u64) -> (r: Vec<u64>)
    ensures
        r@ == values_after(w@, cutoff),
{
    let mut r: Vec<u64> = Vec::new();
    let mut i: usize = 0;
    while i < w.len()
        invariant
            i <= w.len(),
            r@ == values_after(w@.take(i as int), cutoff),
        decreases w.len() - i,
    {
        assert(w@.take(i + 1).drop_last() =~= w@.take(i as int));
        if w[i].0 > cutoff {
            r.push(w[i].1);
        }
        i += 1;
    }
    assert(w@.take(w.len() as int) =~= w@);
    r
}

/// The rank of the `p`-th percentile among `n` samples is `p * n / 100`
/// rounded down, for every window size: the largest rank whose hundredfold
/// does not exceed `p * n`.
pub proof fn lemma_percentile_rank_is_floor(n: nat, p: nat)
    ensures
        percentile_rank(n, p) * 100 <= p * n,
        p * n < (percentile_rank(n, p) + 1) * 100,
{
}

/// `ascending(s)` holds the samples of `s`, each as often as in `s`, in
/// non-decreasing order.
pub proof fn lemma_ascending_sorts(s: Seq<u64>)
    ensures
        ascending(s).len() == s.len(),
        ascending(s).to_multiset() == s.to_multiset(),
        forall|i: int, j: int|
            0 <= i <= j < s.len() ==> #[trigger] ascending(s)[i] <= #[trigger] ascending(s)[j],
{
    s.lemma_sort_by_ensures(u64_leq());
    let t = ascending(s);
    assert(t.len() == s.to_multiset().len());
    assert forall|i: int, j: int| 0 <= i <= j < s.len() implies #[trigger] t[i] <= #[trigger] t[j] by {
        if i < j {
            assert(u64_leq()(t[i], t[j]));
        }
    }
}

proof fn lemma_values_after_as_map(w: Seq<(u64, u64)>, cutoff: u64)
    ensures
        values_after(w, cutoff) =~= w.filter(stamped_after(cutoff)).map_values(
            |e: (u64, u64)| e.1,
        ),
    decreases w.len(),
{
    reveal(Seq::filter);
    if w.len() > 0 {
        let d = w.drop_last();
        lemma_values_after_as_map(d, cutoff);
        let f = d.filter(stamped_after(cutoff));
        if w.last().0 > cutoff {
            assert(w.filter(stamped_after(cutoff)) == f.push(w.last()));
            assert(f.push(w.last()).map_values(|e: (u64, u64)| e.1) =~= f.map_values(
                |e: (u64, u64)| e.1,
            ).push(w.last().1));
        } else {
            assert(w.filter(stamped_after(cutoff)) == f);
        }
    }
}

/// The latencies behind the percentiles at `cutoff` are those of all the
/// samples received after it and of no other: one value per such sample, and
/// each such sample's value among them.
pub proof fn lemma_values_after_keeps_all(w: Seq<(u64, u64)>, cutoff: u64)
    ensures
        values_after(w, cutoff).len() == w.filter(stamped_after(cutoff)).len(),
        forall|i: int|
            0 <= i < w.len() && w[i].0 > cutoff ==> values_after(w, cutoff).contains(
                #[trigger] w[i].1,
            ),
        forall|v: u64|
            #[trigger] values_after(w, cutoff).contains(v) ==> exists|i: int|
                0 <= i < w.len() && w[i].0 > cutoff && #[trigger] w[i].1 == v,
{
    broadcast use vstd::seq_lib::group_filter_ensures;

    lemma_values_after_as_map(w, cutoff);
    let f = w.filter(stamped_after(cutoff));
    let snd = |e: (u64, u64)| e.1;
    assert forall|i: int| 0 <= i < w.len() && w[i].0 > cutoff implies values_after(
        w,
        cutoff,
    ).contains(#[trigger] w[i].1) by {
        w.lemma_filter_contains(stamped_after(cutoff), i);
        let j = choose|j: int| 0 <= j < f.len() && f[j] == w[i];
        assert(values_after(w, cutoff)[j] == w[i].1);
    }
    assert forall|v: u64| #[trigger] values_after(w, cutoff).contains(v) implies exists|i: int|
        0 <= i < w.len() && w[i].0 > cutoff && #[trigger] w[i].1 == v by {
        let j = choose|j: int| 0 <= j < values_after(w, cutoff).len() && values_after(w, cutoff)[j] == v;
        assert(f[j].1 == v);
        w.lemma_filter_pred(stamped_after(cutoff), j);
        assert(f.contains(f[j]));
        w.lemma_filter_contains_rev(stamped_after(cutoff), f[j]);
        let i = choose|i: int| 0 <= i < w.len() && w[i] == f[j];
        assert(w[i].0 > cutoff && w[i].1 == v);
    }
}

/// Pruning a window keeps exactly the samples received after the cutoff:
/// each of them is kept, and every sample kept is one of them.
pub proof fn lemma_window_pruning_exact(w: Seq<(u64, u64)>, t: Seq<u64>, cutoff: u64)
    ensures
        forall|i: int|
            0 <= i < w.len() && w[i].0 > cutoff ==> w.filter(stamped_after(cutoff)).contains(
                #[trigger] w[i],
            ),
        forall|e: (u64, u64)| #[trigger]
            w.filter(stamped_after(cutoff)).contains(e) ==> w.contains(e) && e.0 > cutoff,
        forall|i: int|
            0 <= i < t.len() && t[i] > cutoff ==> t.filter(later_than(cutoff)).contains(
                #[trigger] t[i],
            ),
        forall|x: u64| #[trigger]
            t.filter(later_than(cutoff)).contains(x) ==> t.contains(x) && x > cutoff,
{
    broadcast use vstd::seq_lib::group_filter_ensures;

    assert forall|i: int| 0 <= i < w.len() && w[i].0 > cutoff implies w.filter(
        stamped_after(cutoff),
    ).contains(#[trigger] w[i]) by {
        w.lemma_filter_contains(stamped_after(cutoff), i);
    }
    assert forall|e: (u64, u64)| #[trigger]
        w.filter(stamped_after(cutoff)).contains(e) implies w.contains(e) && e.0 > cutoff by {
        let f = w.filter(stamped_after(cutoff));
        let j = choose|j: int| 0 <= j < f.len() && f[j] == e;
        w.lemma_filter_pred(stamped_after(cutoff), j);
        w.lemma_filter_contains_rev(stamped_after(cutoff), e);
    }
    assert forall|i: int| 0 <= i < t.len() && t[i] > cutoff implies t.filter(
        later_than(cutoff),
    ).contains(#[trigger] t[i]) by {
        t.lemma_filter_contains(later_than(cutoff), i);
    }
    assert forall|x: u64| #[trigger]
        t.filter(later_than(cutoff)).contains(x) implies t.contains(x) && x > cutoff by {
        let f = t.filter(later_than(cutoff));
        let j = choose|j: int| 0 <= j < f.len() && f[j] == x;
        t.lemma_filter_pred(later_than(cutoff), j);
        t.lemma_filter_contains_rev(later_than(cutoff), x);
    }
}

/// Latencies are kept in reception order: a sample received after all
/// others adds its latency last when it lies after the cutoff, and nothing
/// otherwise.
pub proof fn lemma_values_in_order(w: Seq<(u64, u64)>, e: (u64, u64), cutoff: u64)
    ensures
        e.0 > cutoff ==> values_after(w.push(e), cutoff) == values_after(w, cutoff).push(e.1),
        e.0 <= cutoff ==> values_after(w.push(e), cutoff) == values_after(w, cutoff),
{
    assert(w.push(e).drop_last() =~= w);
    if e.0 > cutoff {
        assert(values_after(w, cutoff) + seq![e.1] =~= values_after(w, cutoff).push(e.1));
    }
}

} // verus!
