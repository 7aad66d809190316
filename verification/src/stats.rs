//! Statistics over timing samples.

use vstd::prelude::*;

verus! {

/// The sum of all samples.
pub open spec fn total(s: Seq<u64>) -> nat
    decreases s.len(),
{
    if s.len() == 0 {
        0
    } else {
        total(s.drop_last()) + s.last() as nat
    }
}

/// The samples are in ascending order.
pub open spec fn sorted(s: Seq<u64>) -> bool {
    forall|i: int, j: int| 0 <= i <= j < s.len() ==> s[i] <= s[j]
}

/// Sorts the samples in ascending order.
pub fn sort_u64(arr: &mut [u64])
    ensures
        sorted(final(arr)@),
        final(arr)@.to_multiset() == old(arr)@.to_multiset(),
        final(arr)@.len() == old(arr)@.len(),
{
    let ghost before = arr@;
    let n = arr.len();
    let mut i: usize = 1;
    while i < n
        invariant
            1 <= i,
            n == arr@.len(),
            arr@.len() == before.len(),
            forall|a: int, b: int| 0 <= a <= b < i && b < n ==> arr@[a] <= arr@[b],
            arr@.to_multiset() == before.to_multiset(),
        decreases n - i,
    {
        let key = arr[i];
        let mut j: usize = i;
        proof {
            assert(arr@.update(j as int, key) =~= arr@);
        }
        while j > 0 && arr[j - 1] > key
            invariant
                j <= i < n,
                n == arr@.len(),
                arr@.len() == before.len(),
                arr@.update(j as int, key).to_multiset() == before.to_multiset(),
                forall|a: int, b: int|
                    0 <= a <= b <= i && a != j && b != j ==> arr@[a] <= arr@[b],
                forall|b: int| j < b <= i ==> key < #[trigger] arr@[b],
            decreases j,
        {
            let ghost prev = arr@;
            let moved = arr[j - 1];
            arr[j] = moved;
            j = j - 1;
            proof {
                lemma_swap_keeps_samples(prev.update(j + 1, key), j as int, j + 1);
                assert(arr@.update(j as int, key) =~= prev.update(j + 1, key).update(
                    j as int,
                    key,
                ).update(j + 1, moved));
            }
        }
        arr[j] = key;
        i = i + 1;
    }
}

/// Swapping two samples keeps the collection of samples.
proof fn lemma_swap_keeps_samples(s: Seq<u64>, i: int, j: int)
    requires
        0 <= i < s.len(),
        0 <= j < s.len(),
        i != j,
    ensures
        s.update(i, s[j]).update(j, s[i]).to_multiset() == s.to_multiset(),
{
    let t = s.update(i, s[j]);
    vstd::seq_lib::to_multiset_update(s, i, s[j]);
    vstd::seq_lib::to_multiset_update(t, j, s[i]);
    s.to_multiset_ensures();
    assert(s.contains(s[i]));
    assert(s.contains(s[j]));
    assert(t.update(j, s[i]).to_multiset() =~= s.to_multiset());
}

/// The figures of a series of samples.
#[derive(Debug, Clone, Copy, PartialEq, Eq, Structural)]
pub struct Stats {
    pub n: usize,
    pub min: u64,
    pub avg: u64,
    pub max: u64,
    pub p50: u64,
    pub p99: u64,
}

/// The figures of a non-empty series, whose samples in order are `s` and whose
/// sum is `sum`.
pub open spec fn figures(s: Seq<u64>, sum: nat) -> Stats {
    Stats {
        n: s.len() as usize,
        min: s[0],
        avg: (sum as int / s.len() as int) as u64,
        max: s[s.len() - 1],
        p50: s[s.len() as int / 2],
        p99: s[(s.len() * 99) as int / 100],
    }
}

/// Whether the figures of a series can be computed without overflow.
pub open spec fn summable(s: Seq<u64>) -> bool {
    total(s) <= u64::MAX && s.len() * 99 <= usize::MAX
}

/// Tests whether the figures of a series can be computed without overflow.
pub fn can_summarize(samples: &[u64]) -> (r: bool)
    ensures
        r == summable(samples@),
{
    let n = samples.len();
    if n > usize::MAX / 99 {
        return false;
    }
    let mut sum: u64 = 0;
    let mut i: usize = 0;
    while i < n
        invariant
            i <= n,
            n == samples@.len(),
            n * 99 <= usize::MAX,
            sum == total(samples@.take(i as int)),
        decreases n - i,
    {
        proof {
            assert(samples@.take(i + 1).drop_last() =~= samples@.take(i as int));
            lemma_total_of_prefix(samples@, i + 1);
        }
        match sum.checked_add(samples[i]) {
            Some(next) => {
                sum = next;
            },
            None => {
                return false;
            },
        }
        i = i + 1;
    }
    assert(samples@.take(n as int) =~= samples@);
    true
}

/// Sorts the samples and computes their figures; an empty series has none.
pub fn summarize(samples: &mut [u64]) -> (r: Option<Stats>)
    requires
        summable(old(samples)@),
    ensures
        sorted(final(samples)@),
        final(samples)@.to_multiset() == old(samples)@.to_multiset(),
        r is None <==> old(samples)@.len() == 0,
        r matches Some(st) ==> {
            &&& st == figures(final(samples)@, total(old(samples)@))
            &&& st.min <= st.avg <= st.max
            &&& st.min <= st.p50 <= st.p99 <= st.max
        },
{
    let ghost before = samples@;
    if samples.len() == 0 {
        return None;
    }
    let n = samples.len();
    let mut sum: u64 = 0;
    let mut i: usize = 0;
    while i < n
        invariant
            i <= n,
            n == samples@.len(),
            samples@ == before,
            sum == total(before.take(i as int)),
            total(before) <= u64::MAX,
        decreases n - i,
    {
        proof {
            assert(before.take(i + 1).drop_last() =~= before.take(i as int));
            lemma_total_of_prefix(before, i + 1);
        }
        sum = sum + samples[i];
        i = i + 1;
    }
    assert(before.take(n as int) =~= before);
    sort_u64(samples);
    let min = samples[0];
    let max = samples[n - 1];
    let avg = sum / n as u64;
    let p50 = samples[n / 2];
    let p99 = samples[(n * 99) / 100];
    proof {
        lemma_samples_in_range(samples@, before);
        lemma_total_in_range(before, min, max);
        lemma_average_in_range(sum as int, n as int, min as int, max as int);
    }
    Some(Stats { n, min, avg, max, p50, p99 })
}

/// A quotient lies between two bounds of its dividend.
proof fn lemma_average_in_range(sum: int, n: int, lo: int, hi: int)
    by (nonlinear_arith)
    requires
        n > 0,
        lo * n <= sum <= hi * n,
    ensures
        lo <= sum / n <= hi,
{
}

/// A series lies between the first and the last of its samples in order.
proof fn lemma_samples_in_range(s: Seq<u64>, before: Seq<u64>)
    requires
        sorted(s),
        s.len() > 0,
        s.to_multiset() == before.to_multiset(),
    ensures
        forall|k: int|
            0 <= k < before.len() ==> s[0] <= #[trigger] before[k] <= s[s.len() - 1],
{
    s.to_multiset_ensures();
    before.to_multiset_ensures();
    assert forall|k: int| 0 <= k < before.len() implies s[0] <= #[trigger] before[k] <= s[s.len()
        - 1] by {
        assert(before.contains(before[k]));
        assert(before.to_multiset().count(before[k]) > 0);
        assert(s.to_multiset().count(before[k]) > 0);
        assert(s.contains(before[k]));
        let j = choose|j: int| 0 <= j < s.len() && s[j] == before[k];
        assert(s[0] <= s[j] <= s[s.len() - 1]);
    }
}

/// The sum of a prefix is at most the whole sum.
proof fn lemma_total_of_prefix(s: Seq<u64>, k: int)
    requires
        0 <= k <= s.len(),
    ensures
        total(s.take(k)) <= total(s),
    decreases s.len() - k,
{
    if k < s.len() {
        lemma_total_of_prefix(s, k + 1);
        assert(s.take(k + 1).drop_last() =~= s.take(k));
    } else {
        assert(s.take(k) =~= s);
    }
}

/// A sum lies between its length times the bounds of its samples.
proof fn lemma_total_in_range(s: Seq<u64>, lo: u64, hi: u64)
    requires
        forall|k: int| 0 <= k < s.len() ==> lo <= #[trigger] s[k] <= hi,
    ensures
        lo * s.len() <= total(s) <= hi * s.len(),
    decreases s.len(),
{
    if s.len() > 0 {
        let t = s.drop_last();
        assert forall|k: int| 0 <= k < t.len() implies lo <= #[trigger] t[k] <= hi by {
            assert(t[k] == s[k]);
        }
        lemma_total_in_range(t, lo, hi);
        let n = s.len() as int;
        assert(lo * n == lo * (n - 1) + lo) by (nonlinear_arith);
        assert(hi * n == hi * (n - 1) + hi) by (nonlinear_arith);
    } else {
        assert(lo * s.len() == 0 && hi * s.len() == 0) by (nonlinear_arith)
            requires
                s.len() == 0,
        ;
    }
}

/// A sum grows by each sample that is added to it.
pub proof fn law_sum_adds_samples(s: Seq<u64>, x: u64)
    ensures
        total(Seq::empty()) == 0,
        total(s.push(x)) == total(s) + x,
{
    assert(s.push(x).drop_last() =~= s);
}

/// Of sorted samples, the minimum and the maximum bound all of them, the average
/// is the sum shared out and rounded down, at least half of the samples reach
/// from the start up to the median, and 99 of 100 up to the 99th percentile.
pub proof fn law_figures_describe_the_samples(s: Seq<u64>, sum: nat, i: int)
    requires
        0 < s.len() <= u64::MAX,
        s.len() <= usize::MAX,
        forall|a: int, b: int| 0 <= a <= b < s.len() ==> s[a] <= s[b],
        sum <= u64::MAX,
        0 <= i < s.len(),
    ensures
        ({
            let f = figures(s, sum);
            &&& sorted(s)
            &&& f.n == s.len()
            &&& f.min <= s[i] <= f.max
            &&& s.contains(f.min) && s.contains(f.max)
            &&& f.avg * s.len() <= sum < (f.avg + 1) * s.len()
            &&& 2 * i <= s.len() ==> s[i] <= f.p50
            &&& 2 * i >= s.len() ==> s[i] >= f.p50
            &&& s.contains(f.p50)
            &&& 100 * i <= 99 * s.len() ==> s[i] <= f.p99
            &&& 100 * i >= 99 * s.len() ==> s[i] >= f.p99
            &&& s.contains(f.p99)
        }),
{
    let n = s.len() as int;
    let f = figures(s, sum);
    let q = sum as int / n;
    vstd::arithmetic::div_mod::lemma_fundamental_div_mod(sum as int, n);
    vstd::arithmetic::div_mod::lemma_mod_bound(sum as int, n);
    assert(q <= sum) by (nonlinear_arith)
        requires
            q == sum as int / n,
            n > 0,
            sum >= 0,
    ;
    assert(q >= 0) by (nonlinear_arith)
        requires
            q == sum as int / n,
            n > 0,
            sum >= 0,
    ;
    assert(f.avg == q);
    assert(q * n == n * q && (q + 1) * n == n * q + n) by (nonlinear_arith);
    assert(s[0] == f.min && s[n - 1] == f.max);
    assert(s[n / 2] == f.p50 && s[(n * 99) / 100] == f.p99);
}

/// Samples can be summed up where their sum fits 64 bits.
pub proof fn law_summable(s: Seq<u64>)
    ensures
        summable(s) <==> total(s) <= u64::MAX && 99 * s.len() <= usize::MAX,
{
}

/// In sorted samples no sample is above one behind it.
pub proof fn law_sorted_samples_rise(s: Seq<u64>, i: int, j: int)
    requires
        sorted(s),
        0 <= i <= j < s.len(),
    ensures
        s[i] <= s[j],
{
}

} // verus!
