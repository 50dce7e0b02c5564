//! The orders in which the process panel arranges processes, and a stable
//! sort of process indices by them.

use vstd::prelude::*;
use vstd::relations::{sorted_by, total_ordering};
use vstd::seq_lib::{lemma_multiset_commutative, lemma_sorted_unique};
use crate::binary32::{rank, rank_of};
use crate::snapshot::{ProcessInfo, ProcessSortBy};
use crate::text::{chars_equal, chars_less, chars_lt, chars_of, lemma_chars_lt_total, lemma_chars_lt_transitive};

verus! {

/// An arrangement of processes: one of the list orders, or the order of
/// siblings in the tree view.
#[derive(Clone, Copy, Debug, PartialEq, Eq, Structural)]
pub enum ProcessOrder {
    /// By decreasing CPU use (see `binary32::rank`), then decreasing memory,
    /// then increasing PID.
    Cpu,
    /// By decreasing memory, then increasing PID.
    Memory,
    /// By decreasing PID.
    Pid,
    /// By name (code-point order), then increasing PID.
    Name,
    /// Tree siblings: by decreasing CPU use, then increasing PID.
    Siblings,
}

/// The list order that a sort setting selects.
pub open spec fn order_of(by: ProcessSortBy) -> ProcessOrder {
    match by {
        ProcessSortBy::CpuUsage => ProcessOrder::Cpu,
        ProcessSortBy::Memory => ProcessOrder::Memory,
        ProcessSortBy::Pid => ProcessOrder::Pid,
        ProcessSortBy::Name => ProcessOrder::Name,
    }
}

/// `p` and `q` tie in `order`.
pub open spec fn same_key(order: ProcessOrder, p: ProcessInfo, q: ProcessInfo) -> bool {
    match order {
        ProcessOrder::Cpu => rank(p.cpu_usage_bits) == rank(q.cpu_usage_bits) && p.memory == q.memory && p.pid == q.pid,
        ProcessOrder::Memory => p.memory == q.memory && p.pid == q.pid,
        ProcessOrder::Pid => p.pid == q.pid,
        ProcessOrder::Name => p.name@ == q.name@ && p.pid == q.pid,
        ProcessOrder::Siblings => rank(p.cpu_usage_bits) == rank(q.cpu_usage_bits) && p.pid == q.pid,
    }
}

/// `p` comes strictly before `q` in `order`.
pub open spec fn key_before(order: ProcessOrder, p: ProcessInfo, q: ProcessInfo) -> bool {
    match order {
        ProcessOrder::Cpu => rank(p.cpu_usage_bits) > rank(q.cpu_usage_bits) || (rank(p.cpu_usage_bits) == rank(q.cpu_usage_bits) && (
        p.memory > q.memory || (p.memory == q.memory && p.pid < q.pid))),
        ProcessOrder::Memory => p.memory > q.memory || (p.memory == q.memory && p.pid < q.pid),
        ProcessOrder::Pid => p.pid > q.pid,
        ProcessOrder::Name => chars_lt(p.name@, q.name@) || (p.name@ == q.name@ && p.pid < q.pid),
        ProcessOrder::Siblings => rank(p.cpu_usage_bits) > rank(q.cpu_usage_bits) || (rank(p.cpu_usage_bits) == rank(q.cpu_usage_bits)
            && p.pid < q.pid),
    }
}

/// Index `x` may stand before index `y`: its process comes first, or the two
/// tie and `x` was listed no later (a stable sort keeps ties in list order).
pub open spec fn index_leq(procs: Seq<ProcessInfo>, order: ProcessOrder) -> spec_fn(usize, usize) -> bool {
    |x: usize, y: usize|
        key_before(order, procs[x as int], procs[y as int]) || (same_key(
            order,
            procs[x as int],
            procs[y as int],
        ) && x <= y)
}

/// Index `x` stands strictly before index `y`.
pub open spec fn index_lt(procs: Seq<ProcessInfo>, order: ProcessOrder, x: usize, y: usize) -> bool {
    key_before(order, procs[x as int], procs[y as int]) || (same_key(
        order,
        procs[x as int],
        procs[y as int],
    ) && x < y)
}

/// The indices `cands` arranged by `order`, ties kept in the order of `cands`
/// when it lists them increasingly.
pub open spec fn arranged(procs: Seq<ProcessInfo>, order: ProcessOrder, cands: Seq<usize>) -> Seq<usize> {
    cands.sort_by(index_leq(procs, order))
}

/// Exactly one of: `p` before `q`, a tie, `q` before `p`; ties are an equivalence.
pub proof fn lemma_key_trichotomy(order: ProcessOrder, p: ProcessInfo, q: ProcessInfo)
    ensures
        same_key(order, p, p),
        !key_before(order, p, p),
        same_key(order, p, q) == same_key(order, q, p),
        key_before(order, p, q) || key_before(order, q, p) || same_key(order, p, q),
        !(key_before(order, p, q) && key_before(order, q, p)),
        !(key_before(order, p, q) && same_key(order, p, q)),
{
    lemma_chars_lt_total(p.name@, q.name@);
    lemma_chars_lt_total(q.name@, p.name@);
    lemma_chars_lt_total(p.name@, p.name@);
}

/// Coming before, and tying, are transitive and compose.
pub proof fn lemma_key_transitive(order: ProcessOrder, p: ProcessInfo, q: ProcessInfo, r: ProcessInfo)
    ensures
        key_before(order, p, q) && key_before(order, q, r) ==> key_before(order, p, r),
        key_before(order, p, q) && same_key(order, q, r) ==> key_before(order, p, r),
        same_key(order, p, q) && key_before(order, q, r) ==> key_before(order, p, r),
        same_key(order, p, q) && same_key(order, q, r) ==> same_key(order, p, r),
{
    if order == ProcessOrder::Name && chars_lt(p.name@, q.name@) && chars_lt(q.name@, r.name@) {
        lemma_chars_lt_transitive(p.name@, q.name@, r.name@);
    }
}

/// Arranging by `order` is a total order on indices.
pub proof fn lemma_index_leq_total(procs: Seq<ProcessInfo>, order: ProcessOrder)
    ensures
        total_ordering(index_leq(procs, order)),
{
    let leq = index_leq(procs, order);
    assert forall|x: usize| #[trigger] leq(x, x) by {
        lemma_key_trichotomy(order, procs[x as int], procs[x as int]);
    }
    assert forall|x: usize, y: usize| #[trigger] leq(x, y) && #[trigger] leq(y, x) implies x == y by {
        lemma_key_trichotomy(order, procs[x as int], procs[y as int]);
    }
    assert forall|x: usize, y: usize, z: usize| #[trigger] leq(x, y) && #[trigger] leq(y, z) implies leq(
        x,
        z,
    ) by {
        lemma_key_transitive(order, procs[x as int], procs[y as int], procs[z as int]);
        lemma_key_trichotomy(order, procs[x as int], procs[z as int]);
    }
    assert forall|x: usize, y: usize| #[trigger] leq(x, y) || #[trigger] leq(y, x) by {
        lemma_key_trichotomy(order, procs[x as int], procs[y as int]);
    }
}

/// Arranging neither drops nor adds a candidate.
pub proof fn lemma_arranged_same_members(procs: Seq<ProcessInfo>, order: ProcessOrder, cands: Seq<usize>)
    ensures
        forall|x: usize| #[trigger] arranged(procs, order, cands).contains(x) <==> cands.contains(x),
{
    lemma_index_leq_total(procs, order);
    let sorted = arranged(procs, order, cands);
    cands.lemma_sort_by_ensures(index_leq(procs, order));
    cands.to_multiset_ensures();
    sorted.to_multiset_ensures();
    assert forall|x: usize| #[trigger] sorted.contains(x) <==> cands.contains(x) by {
        assert(sorted.to_multiset().count(x) == cands.to_multiset().count(x));
    }
}

/// The list orders, stated on the processes they arrange: by CPU, an earlier
/// process never uses less CPU (see `binary32::rank`), and on equal use not
/// less memory, and on equal memory has a smaller PID; by memory, never less
/// memory, ties by increasing PID; by PID, decreasing PIDs; by name, names
/// never after the later one's, ties by increasing PID.
pub proof fn lemma_list_orders(procs: Seq<ProcessInfo>, by: ProcessSortBy, cands: Seq<usize>, a: int, b: int)
    requires
        0 <= a < b < arranged(procs, order_of(by), cands).len(),
    ensures
        ({
            let s = arranged(procs, order_of(by), cands);
            let p = procs[s[a] as int];
            let q = procs[s[b] as int];
            &&& by == ProcessSortBy::CpuUsage ==> rank(p.cpu_usage_bits) >= rank(q.cpu_usage_bits)
                && (rank(p.cpu_usage_bits) == rank(q.cpu_usage_bits) ==> p.memory >= q.memory
                && (p.memory == q.memory ==> p.pid <= q.pid))
            &&& by == ProcessSortBy::Memory ==> p.memory >= q.memory && (p.memory == q.memory ==> p.pid <= q.pid)
            &&& by == ProcessSortBy::Pid ==> p.pid >= q.pid
            &&& by == ProcessSortBy::Name ==> !chars_lt(q.name@, p.name@) && (p.name@ == q.name@ ==> p.pid <= q.pid)
        }),
{
    lemma_index_leq_total(procs, order_of(by));
    cands.lemma_sort_by_ensures(index_leq(procs, order_of(by)));
    let s = arranged(procs, order_of(by), cands);
    assert(index_leq(procs, order_of(by))(s[a], s[b]));
    let p = procs[s[a] as int];
    let q = procs[s[b] as int];
    lemma_chars_lt_total(p.name@, q.name@);
    lemma_chars_lt_total(q.name@, p.name@);
}

/// Tree siblings come by decreasing CPU use, ties by increasing PID.
pub proof fn lemma_sibling_order(procs: Seq<ProcessInfo>, cands: Seq<usize>, a: int, b: int)
    requires
        0 <= a < b < arranged(procs, ProcessOrder::Siblings, cands).len(),
    ensures
        ({
            let s = arranged(procs, ProcessOrder::Siblings, cands);
            let p = procs[s[a] as int];
            let q = procs[s[b] as int];
            rank(p.cpu_usage_bits) >= rank(q.cpu_usage_bits)
                && (rank(p.cpu_usage_bits) == rank(q.cpu_usage_bits) ==> p.pid <= q.pid)
        }),
{
    lemma_index_leq_total(procs, ProcessOrder::Siblings);
    cands.lemma_sort_by_ensures(index_leq(procs, ProcessOrder::Siblings));
    let s = arranged(procs, ProcessOrder::Siblings, cands);
    assert(index_leq(procs, ProcessOrder::Siblings)(s[a], s[b]));
}

/// Whether index `x` stands strictly before index `y`.
fn index_less(
    procs: &Vec<ProcessInfo>,
    names: &Vec<Vec<char>>,
    order: ProcessOrder,
    x: usize,
    y: usize,
) -> (res: bool)
    requires
        x < procs.len(),
        y < procs.len(),
        names.len() == procs.len(),
        forall|i: int| 0 <= i < procs.len() ==> #[trigger] names@[i]@ == procs@[i].name@,
    ensures
        res == index_lt(procs@, order, x, y),
{
    let p = &procs[x];
    let q = &procs[y];
    let pr = rank_of(p.cpu_usage_bits);
    let qr = rank_of(q.cpu_usage_bits);
    match order {
        ProcessOrder::Cpu => pr > qr || (pr == qr && (p.memory
            > q.memory || (p.memory == q.memory && (p.pid < q.pid || (p.pid == q.pid && x < y))))),
        ProcessOrder::Memory => p.memory > q.memory || (p.memory == q.memory && (p.pid < q.pid || (
        p.pid == q.pid && x < y))),
        ProcessOrder::Pid => p.pid > q.pid || (p.pid == q.pid && x < y),
        ProcessOrder::Name => {
            let pn = &names[x];
            let qn = &names[y];
            if chars_less(pn, qn) {
                true
            } else if chars_equal(pn, qn) {
                p.pid < q.pid || (p.pid == q.pid && x < y)
            } else {
                false
            }
        },
        ProcessOrder::Siblings => pr > qr || (pr == qr && (
        p.pid < q.pid || (p.pid == q.pid && x < y))),
    }
}

proof fn lemma_insert_multiset(s: Seq<usize>, pos: int, x: usize)
    requires
        0 <= pos <= s.len(),
    ensures
        s.insert(pos, x).to_multiset() =~= s.to_multiset().insert(x),
{
    broadcast use vstd::multiset::group_multiset_axioms;
    let a = s.subrange(0, pos);
    let b = s.subrange(pos, s.len() as int);
    assert(s =~= a + b);
    lemma_multiset_commutative(a, b);
    lemma_multiset_commutative(a.push(x), b);
    assert(a.push(x).to_multiset() =~= a.to_multiset().insert(x)) by {
        a.to_multiset_ensures();
    }
}

/// The names of the processes, as characters.
pub fn process_names(procs: &Vec<ProcessInfo>) -> (names: Vec<Vec<char>>)
    ensures
        names.len() == procs.len(),
        forall|i: int| 0 <= i < procs.len() ==> #[trigger] names@[i]@ == procs@[i].name@,
{
    let mut names: Vec<Vec<char>> = Vec::new();
    let mut i: usize = 0;
    while i < procs.len()
        invariant
            i <= procs.len(),
            names.len() == i,
            forall|j: int| 0 <= j < i ==> #[trigger] names@[j]@ == procs@[j].name@,
        decreases procs.len() - i,
    {
        names.push(chars_of(procs[i].name.as_str()));
        i = i + 1;
    }
    names
}

/// Arranges the indices `cands` by `order`; ties keep their order in `cands`.
#[verifier::spinoff_prover]
pub fn arrange(
    procs: &Vec<ProcessInfo>,
    names: &Vec<Vec<char>>,
    order: ProcessOrder,
    cands: &Vec<usize>,
) -> (res: Vec<usize>)
    requires
        names.len() == procs.len(),
        forall|i: int| 0 <= i < procs.len() ==> #[trigger] names@[i]@ == procs@[i].name@,
        forall|i: int| 0 <= i < cands.len() ==> #[trigger] cands@[i] < procs.len(),
    ensures
        res@ == arranged(procs@, order, cands@),
        forall|i: int| 0 <= i < res.len() ==> #[trigger] res@[i] < procs.len(),
{
    let ghost leq = index_leq(procs@, order);
    proof {
        lemma_index_leq_total(procs@, order);
    }
    let mut res: Vec<usize> = Vec::new();
    let mut i: usize = 0;
    assert(cands@.take(0) =~= res@);
    while i < cands.len()
        invariant
            i <= cands.len(),
            total_ordering(leq),
            leq == index_leq(procs@, order),
            names.len() == procs.len(),
            forall|j: int| 0 <= j < procs.len() ==> #[trigger] names@[j]@ == procs@[j].name@,
            forall|j: int| 0 <= j < cands.len() ==> #[trigger] cands@[j] < procs.len(),
            sorted_by(res@, leq),
            res@.to_multiset() == cands@.take(i as int).to_multiset(),
            forall|j: int| 0 <= j < res.len() ==> #[trigger] res@[j] < procs.len(),
        decreases cands.len() - i,
    {
        let x = cands[i];
        let mut pos: usize = 0;
        while pos < res.len() && !index_less(procs, names, order, x, res[pos])
            invariant
                pos <= res.len(),
                x < procs.len(),
                total_ordering(leq),
                leq == index_leq(procs@, order),
                names.len() == procs.len(),
                forall|j: int| 0 <= j < procs.len() ==> #[trigger] names@[j]@ == procs@[j].name@,
                forall|j: int| 0 <= j < res.len() ==> #[trigger] res@[j] < procs.len(),
                forall|j: int| 0 <= j < pos ==> leq(#[trigger] res@[j], x),
            decreases res.len() - pos,
        {
            proof {
                lemma_key_trichotomy(order, procs@[x as int], procs@[res@[pos as int] as int]);
            }
            pos = pos + 1;
        }
        let ghost old_res = res@;
        proof {
            if pos < res.len() {
                lemma_key_trichotomy(order, procs@[x as int], procs@[res@[pos as int] as int]);
                assert(leq(x, res@[pos as int]));
            }
            lemma_insert_multiset(old_res, pos as int, x);
            assert(cands@.take(i as int + 1) =~= cands@.take(i as int).push(x));
            cands@.take(i as int).to_multiset_ensures();
        }
        res.insert(pos, x);
        proof {
            old_res.insert_ensures(pos as int, x);
            assert forall|a: int, b: int| 0 <= a < b < res@.len() implies #[trigger] leq(
                res@[a],
                res@[b],
            ) by {
                if b < pos {
                } else if a < pos && b == pos {
                } else if a < pos && b > pos {
                    assert(res@[b] == old_res[b - 1]);
                    assert(leq(res@[a], x));
                    if pos < old_res.len() {
                        assert(leq(x, old_res[pos as int]));
                        if b - 1 > pos {
                            assert(leq(old_res[pos as int], old_res[b - 1]));
                        }
                        assert(leq(x, old_res[b - 1]));
                    }
                } else if a == pos {
                    assert(res@[b] == old_res[b - 1]);
                    assert(leq(x, old_res[pos as int]));
                    if b - 1 > pos {
                        assert(leq(old_res[pos as int], old_res[b - 1]));
                    }
                } else {
                    assert(res@[a] == old_res[a - 1]);
                    assert(res@[b] == old_res[b - 1]);
                }
            }
        }
        i = i + 1;
    }
    proof {
        assert(cands@.take(cands.len() as int) =~= cands@);
        cands@.lemma_sort_by_ensures(leq);
        lemma_sorted_unique(res@, cands@.sort_by(leq), leq);
    }
    res
}

} // verus!
