//! Chart data: the moving windows a graph averages its samples over.

use vstd::prelude::*;

verus! {

/// The sum of `s`.
pub open spec fn seq_sum(s: Seq<u64>) -> int
    decreases s.len(),
{
    if s.len() == 0 {
        0
    } else {
        seq_sum(s.drop_last()) + s.last()
    }
}

/// The first sample of the window around `idx`.
pub open spec fn window_start(idx: int, radius: int) -> int {
    if idx >= radius {
        idx - radius
    } else {
        0
    }
}

/// One past the last sample of the window around `idx`, among `n` samples.
pub open spec fn window_end(idx: int, radius: int, n: int) -> int {
    if idx + radius + 1 < n {
        idx + radius + 1
    } else {
        n
    }
}

/// The sum of the samples within `radius` of sample `idx`.
pub open spec fn window_sum(data: Seq<u64>, idx: int, radius: int) -> int {
    seq_sum(data.subrange(window_start(idx, radius), window_end(idx, radius, data.len() as int)))
}

proof fn lemma_sum_prefix_grows(s: Seq<u64>, k: int)
    requires
        0 <= k <= s.len(),
    ensures
        seq_sum(s.take(k)) <= seq_sum(s),
    decreases s.len() - k,
{
    if k < s.len() {
        lemma_sum_prefix_grows(s, k + 1);
        assert(s.take(k + 1).drop_last() =~= s.take(k));
    } else {
        assert(s.take(k) =~= s);
    }
}

/// For each sample, the sum and the number of the samples within `radius`
/// of it: the windows a graph averages over to smooth its line.
pub fn window_sums(data: &Vec<u64>, radius: usize) -> (res: Vec<(u64, usize)>)
    requires
        data.len() + radius <= usize::MAX,
        forall|i: int| 0 <= i < data.len() ==> #[trigger] window_sum(data@, i, radius as int) <= u64::MAX,
    ensures
        res.len() == data.len(),
        forall|i: int| 0 <= i < data.len() ==> #[trigger] res@[i] == (
            window_sum(data@, i, radius as int) as u64,
            (window_end(i, radius as int, data.len() as int) - window_start(i, radius as int)) as usize,
        ),
{
    let n = data.len();
    let mut res: Vec<(u64, usize)> = Vec::new();
    let mut idx: usize = 0;
    while idx < n
        invariant
            idx <= n == data.len(),
            n + radius <= usize::MAX,
            forall|i: int| 0 <= i < n ==> #[trigger] window_sum(data@, i, radius as int) <= u64::MAX,
            res.len() == idx,
            forall|i: int| 0 <= i < idx ==> #[trigger] res@[i] == (
                window_sum(data@, i, radius as int) as u64,
                (window_end(i, radius as int, n as int) - window_start(i, radius as int)) as usize,
            ),
        decreases n - idx,
    {
        let start: usize = if idx >= radius { idx - radius } else { 0 };
        let end: usize = if idx + radius + 1 < n { idx + radius + 1 } else { n };
        let ghost w = data@.subrange(start as int, end as int);
        assert(window_sum(data@, idx as int, radius as int) == seq_sum(w));
        let mut sum: u64 = 0;
        let mut j: usize = start;
        while j < end
            invariant
                start <= j <= end <= n == data.len(),
                w == data@.subrange(start as int, end as int),
                seq_sum(w) <= u64::MAX,
                sum == seq_sum(w.take(j - start)),
            decreases end - j,
        {
            proof {
                assert(w.take(j - start + 1).drop_last() =~= w.take(j - start));
                assert(w.take(j - start + 1).last() == data@[j as int]);
                lemma_sum_prefix_grows(w, j - start + 1);
            }
            sum = sum + data[j];
            j = j + 1;
        }
        assert(w.take(end - start) =~= w);
        res.push((sum, end - start));
        idx = idx + 1;
    }
    res
}

} // verus!
