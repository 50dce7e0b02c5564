//! Bounded histories of samples, as the charts show them.

use std::collections::VecDeque;
use vstd::prelude::*;
use crate::network::{rate_totals, rates_fit, received_rate_sum, transmitted_rate_sum};
use crate::snapshot::{DiskInfo, NetworkInfo};

verus! {

/// How many samples a history keeps.
pub const HISTORY_LEN: usize = 120;

/// The last `n` items of `s`, or all of `s` when it is shorter.
pub open spec fn last_n<T>(s: Seq<T>, n: nat) -> Seq<T> {
    if s.len() <= n {
        s
    } else {
        s.subrange(s.len() - n, s.len() as int)
    }
}

/// `s` with `value` appended, cut to the latest `HISTORY_LEN` samples.
pub open spec fn pushed<T>(s: Seq<T>, value: T) -> Seq<T> {
    last_n(s.push(value), HISTORY_LEN as nat)
}

/// Appends a sample and drops the oldest ones beyond `HISTORY_LEN`.
pub fn push_history_point<T>(queue: &mut VecDeque<T>, value: T)
    ensures
        final(queue)@ == pushed(old(queue)@, value),
{
    let ghost all = old(queue)@.push(value);
    queue.push_back(value);
    while queue.len() > HISTORY_LEN
        invariant
            all.len() >= queue@.len() >= if all.len() <= HISTORY_LEN { all.len() } else { HISTORY_LEN as nat },
            queue@ == all.subrange(all.len() - queue@.len(), all.len() as int),
        decreases queue@.len(),
    {
        let _ = queue.pop_front();
    }
}

/// Starts the per-processor histories over, empty, when the number of
/// processors is not the number of histories; otherwise keeps them.
pub fn fit_cpu_history<T>(history: &mut Vec<VecDeque<T>>, cpu_count: usize)
    ensures
        final(history).len() == cpu_count,
        old(history).len() == cpu_count ==> final(history)@ == old(history)@,
        old(history).len() != cpu_count ==> forall|i: int| 0 <= i < cpu_count ==> (#[trigger] final(history)@[i])@ == Seq::<T>::empty(),
{
    if history.len() != cpu_count {
        let mut fresh: Vec<VecDeque<T>> = Vec::new();
        let mut i: usize = 0;
        while i < cpu_count
            invariant
                i <= cpu_count,
                fresh.len() == i,
                forall|j: int| 0 <= j < i ==> (#[trigger] fresh@[j])@ == Seq::<T>::empty(),
            decreases cpu_count - i,
        {
            fresh.push(VecDeque::new());
            i = i + 1;
        }
        *history = fresh;
    }
}

/// Records one sample per processor: the histories are started over when
/// the number of processors changed, then each gets its sample appended.
pub fn record_cpu_samples<T: Copy>(history: &mut Vec<VecDeque<T>>, samples: &Vec<T>)
    ensures
        final(history).len() == samples.len(),
        forall|i: int| 0 <= i < samples.len() ==> (#[trigger] final(history)@[i])@ == pushed(
            if old(history).len() == samples.len() { old(history)@[i]@ } else { Seq::<T>::empty() },
            samples@[i],
        ),
{
    let ghost start = old(history)@;
    fit_cpu_history(history, samples.len());
    let ghost fitted = history@;
    let mut i: usize = 0;
    while i < samples.len()
        invariant
            i <= samples.len(),
            history.len() == samples.len(),
            fitted.len() == samples.len(),
            start.len() == samples.len() ==> fitted == start,
            start.len() != samples.len() ==> forall|j: int| 0 <= j < samples.len() ==> (#[trigger] fitted[j])@ == Seq::<T>::empty(),
            forall|j: int| 0 <= j < i ==> (#[trigger] history@[j])@ == pushed(fitted[j]@, samples@[j]),
            forall|j: int| i <= j < samples.len() ==> #[trigger] history@[j] == fitted[j],
        decreases samples.len() - i,
    {
        let mut queue: VecDeque<T> = VecDeque::new();
        history.set_and_swap(i, &mut queue);
        push_history_point(&mut queue, samples[i]);
        history.set_and_swap(i, &mut queue);
        i = i + 1;
    }
}

/// Keeps one history of (available, total) space per volume: histories
/// beyond the number of volumes are dropped, missing ones start empty, and
/// each volume's current space is appended to its history.
pub fn update_disk_history(history: &mut Vec<VecDeque<(u64, u64)>>, disks: &Vec<DiskInfo>)
    ensures
        final(history).len() == disks.len(),
        forall|i: int| 0 <= i < disks.len() ==> (#[trigger] final(history)@[i])@ == pushed(
            if i < old(history).len() { old(history)@[i]@ } else { Seq::<(u64, u64)>::empty() },
            (disks@[i].available_space, disks@[i].total_space),
        ),
{
    let ghost start = old(history)@;
    let ghost base: int = if start.len() < disks.len() { start.len() as int } else { disks.len() as int };
    if history.len() > disks.len() {
        history.truncate(disks.len());
    }
    let mut i: usize = 0;
    while i < disks.len()
        invariant
            i <= disks.len(),
            base == if start.len() < disks.len() { start.len() as int } else { disks.len() as int },
            history.len() == if i < base { base } else { i as int },
            forall|j: int| 0 <= j < i ==> (#[trigger] history@[j])@ == pushed(
                if j < start.len() { start[j]@ } else { Seq::<(u64, u64)>::empty() },
                (disks@[j].available_space, disks@[j].total_space),
            ),
            forall|j: int| i <= j < history.len() ==> #[trigger] history@[j] == start[j],
        decreases disks.len() - i,
    {
        if history.len() <= i {
            history.push(VecDeque::new());
        }
        let mut queue: VecDeque<(u64, u64)> = VecDeque::new();
        history.set_and_swap(i, &mut queue);
        let disk = &disks[i];
        push_history_point(&mut queue, (disk.available_space, disk.total_space));
        history.set_and_swap(i, &mut queue);
        i = i + 1;
    }
}

/// The histories that the sampler keeps between samples: one per processor,
/// the memory and swap use, the summed network rates, and one per volume.
pub struct Histories<T> {
    pub cpu: Vec<VecDeque<T>>,
    pub memory: VecDeque<(u64, u64)>,
    pub swap: VecDeque<(u64, u64)>,
    pub network: VecDeque<(u64, u64)>,
    pub disk: Vec<VecDeque<(u64, u64)>>,
}

impl<T> Histories<T> {
    /// No history holds more than `HISTORY_LEN` samples.
    pub open spec fn bounded(&self) -> bool {
        &&& forall|i: int| 0 <= i < self.cpu.len() ==> (#[trigger] self.cpu@[i])@.len() <= HISTORY_LEN
        &&& self.memory@.len() <= HISTORY_LEN
        &&& self.swap@.len() <= HISTORY_LEN
        &&& self.network@.len() <= HISTORY_LEN
        &&& forall|i: int| 0 <= i < self.disk.len() ==> (#[trigger] self.disk@[i])@.len() <= HISTORY_LEN
    }

    /// Empty histories.
    pub fn new() -> (res: Self)
        ensures
            res.cpu.len() == 0,
            res.memory@.len() == 0,
            res.swap@.len() == 0,
            res.network@.len() == 0,
            res.disk.len() == 0,
            res.bounded(),
    {
        Histories {
            cpu: Vec::new(),
            memory: VecDeque::new(),
            swap: VecDeque::new(),
            network: VecDeque::new(),
            disk: Vec::new(),
        }
    }
}

impl<T: Copy> Histories<T> {
    /// Records one sample: a value per processor, the (used, total) memory
    /// and swap, the rates summed over the interfaces, and the (available,
    /// total) space per volume. Whatever came before, afterwards there is a
    /// history per processor and per volume, every history ends with its new
    /// sample, and none holds more than `HISTORY_LEN`.
    pub fn record(
        &mut self,
        cpu_samples: &Vec<T>,
        memory: (u64, u64),
        swap: (u64, u64),
        networks: &Vec<NetworkInfo>,
        disks: &Vec<DiskInfo>,
    )
        requires
            rates_fit(networks@),
        ensures
            final(self).cpu.len() == cpu_samples.len(),
            forall|i: int| 0 <= i < cpu_samples.len() ==> (#[trigger] final(self).cpu@[i])@ == pushed(
                if old(self).cpu.len() == cpu_samples.len() { old(self).cpu@[i]@ } else { Seq::<T>::empty() },
                cpu_samples@[i],
            ),
            final(self).memory@ == pushed(old(self).memory@, memory),
            final(self).swap@ == pushed(old(self).swap@, swap),
            final(self).network@ == pushed(
                old(self).network@,
                (
                    received_rate_sum(networks@, networks.len() as int) as u64,
                    transmitted_rate_sum(networks@, networks.len() as int) as u64,
                ),
            ),
            final(self).disk.len() == disks.len(),
            forall|i: int| 0 <= i < disks.len() ==> (#[trigger] final(self).disk@[i])@ == pushed(
                if i < old(self).disk.len() { old(self).disk@[i]@ } else { Seq::<(u64, u64)>::empty() },
                (disks@[i].available_space, disks@[i].total_space),
            ),
            final(self).bounded(),
            final(self).memory@.last() == memory,
            final(self).swap@.last() == swap,
            final(self).network@.last() == (
                received_rate_sum(networks@, networks.len() as int) as u64,
                transmitted_rate_sum(networks@, networks.len() as int) as u64,
            ),
            forall|i: int| 0 <= i < cpu_samples.len() ==> (#[trigger] final(self).cpu@[i])@.last() == cpu_samples@[i],
            forall|i: int| 0 <= i < disks.len() ==> (#[trigger] final(self).disk@[i])@.last() == (
                disks@[i].available_space,
                disks@[i].total_space,
            ),
    {
        record_cpu_samples(&mut self.cpu, cpu_samples);
        push_history_point(&mut self.memory, memory);
        push_history_point(&mut self.swap, swap);
        let totals = rate_totals(networks);
        push_history_point(&mut self.network, totals);
        update_disk_history(&mut self.disk, disks);
        proof {
            lemma_history_bounded(old(self).memory@, memory);
            lemma_history_bounded(old(self).swap@, swap);
            lemma_history_bounded(old(self).network@, totals);
            assert forall|i: int| 0 <= i < self.cpu.len() implies (#[trigger] self.cpu@[i])@.len() <= HISTORY_LEN
                && self.cpu@[i]@.last() == cpu_samples@[i] by {
                lemma_history_bounded(
                    if old(self).cpu.len() == cpu_samples.len() { old(self).cpu@[i]@ } else { Seq::<T>::empty() },
                    cpu_samples@[i],
                );
            }
            assert forall|i: int| 0 <= i < self.disk.len() implies (#[trigger] self.disk@[i])@.len() <= HISTORY_LEN
                && self.disk@[i]@.last() == (disks@[i].available_space, disks@[i].total_space) by {
                lemma_history_bounded(
                    if i < old(self).disk.len() { old(self).disk@[i]@ } else { Seq::<(u64, u64)>::empty() },
                    (disks@[i].available_space, disks@[i].total_space),
                );
            }
        }
    }
}

/// A history never holds more than `HISTORY_LEN` samples and ends with the
/// latest one; until it is full it keeps every sample, and once full it
/// drops exactly the oldest ones.
pub proof fn lemma_history_bounded<T>(s: Seq<T>, v: T)
    ensures
        pushed(s, v).len() <= HISTORY_LEN,
        pushed(s, v).last() == v,
        s.len() < HISTORY_LEN ==> pushed(s, v) == s.push(v),
        s.len() >= HISTORY_LEN ==> pushed(s, v) == s.push(v).skip(s.len() + 1 - HISTORY_LEN),
{
    let all = s.push(v);
    if all.len() > HISTORY_LEN {
        assert(pushed(s, v) =~= all.skip(s.len() + 1 - HISTORY_LEN));
    }
}

} // verus!
