//! Network interfaces: the byte counts since the previous sample, the totals
//! the network panel shows, and the panel's state.

use vstd::prelude::*;
use crate::action::Action;
use crate::snapshot::NetworkInfo;
use crate::text::{chars_of, push_chars, push_str, string_of_chars};
use crate::theme::Theme;
use crate::utils::{human_bytes, human_bytes_chars};

verus! {

/// The byte counters of one interface, as the system reports them.
#[derive(Debug)]
pub struct InterfaceCounters {
    pub name: String,
    pub received: u64,
    pub transmitted: u64,
}

/// What a counter sample holds, as values.
pub struct CounterView {
    pub name: Seq<char>,
    pub received: u64,
    pub transmitted: u64,
}

impl View for InterfaceCounters {
    type V = CounterView;

    open spec fn view(&self) -> CounterView {
        CounterView { name: self.name@, received: self.received, transmitted: self.transmitted }
    }
}

/// The views of a list of counter samples.
pub open spec fn counter_views(s: Seq<InterfaceCounters>) -> Seq<CounterView> {
    s.map_values(|c: InterfaceCounters| c@)
}

/// The position of the last sample of `prev` (among its first `n`) for the
/// interface `name`.
pub open spec fn last_sample(prev: Seq<CounterView>, name: Seq<char>, n: int) -> Option<int>
    decreases n,
{
    if n <= 0 {
        None
    } else if prev[n - 1].name == name {
        Some(n - 1)
    } else {
        last_sample(prev, name, n - 1)
    }
}

/// `a - b`, or 0 where `b` is larger (a counter that was reset).
pub open spec fn counter_growth(a: u64, b: u64) -> u64 {
    if a >= b {
        (a - b) as u64
    } else {
        0
    }
}

/// What the counters of `cur` grew by since the previous sample of its
/// interface in `prev`; `None` for an interface that had no sample.
pub open spec fn growth_since(prev: Seq<CounterView>, cur: CounterView) -> Option<(u64, u64)> {
    match last_sample(prev, cur.name, prev.len() as int) {
        Some(k) => Some((counter_growth(cur.received, prev[k].received), counter_growth(cur.transmitted, prev[k].transmitted))),
        None => None,
    }
}

/// The counters of the previous sample, from which the next sample's rates follow.
pub struct NetworkRates {
    pub previous: Vec<InterfaceCounters>,
}

fn copy_counters(c: &InterfaceCounters) -> (res: InterfaceCounters)
    ensures
        res@ == c@,
{
    InterfaceCounters { name: c.name.clone(), received: c.received, transmitted: c.transmitted }
}

impl NetworkRates {
    /// No previous sample.
    pub fn new() -> (r: Self)
        ensures
            r.previous@ == Seq::<InterfaceCounters>::empty(),
    {
        NetworkRates { previous: Vec::new() }
    }

    fn growth_of(&self, cur: &InterfaceCounters) -> (res: Option<(u64, u64)>)
        ensures
            res == growth_since(counter_views(self.previous@), cur@),
    {
        let ghost prev = counter_views(self.previous@);
        let mut n: usize = self.previous.len();
        while n > 0 && self.previous[n - 1].name != cur.name
            invariant
                n <= self.previous.len(),
                prev == counter_views(self.previous@),
                last_sample(prev, cur.name@, prev.len() as int) == last_sample(prev, cur.name@, n as int),
            decreases n,
        {
            assert(prev[n - 1].name == self.previous@[n - 1].name@);
            n = n - 1;
        }
        if n == 0 {
            None
        } else {
            assert(prev[n - 1].name == self.previous@[n - 1].name@);
            let p = &self.previous[n - 1];
            let rx = if cur.received >= p.received { cur.received - p.received } else { 0 };
            let tx = if cur.transmitted >= p.transmitted { cur.transmitted - p.transmitted } else { 0 };
            Some((rx, tx))
        }
    }

    /// Takes a new sample: gives, for each interface of `current`, what its
    /// counters grew by since its previous sample (`None` for a new
    /// interface), and keeps `current` as the previous sample, so that
    /// interfaces that disappeared are forgotten.
    pub fn update(&mut self, current: &Vec<InterfaceCounters>) -> (res: Vec<Option<(u64, u64)>>)
        ensures
            res.len() == current.len(),
            forall|i: int| 0 <= i < current.len() ==> #[trigger] res@[i] == growth_since(counter_views(old(self).previous@), current@[i]@),
            counter_views(final(self).previous@) == counter_views(current@),
    {
        let mut res: Vec<Option<(u64, u64)>> = Vec::new();
        let mut next: Vec<InterfaceCounters> = Vec::new();
        let mut i: usize = 0;
        while i < current.len()
            invariant
                i <= current.len(),
                self.previous@ == old(self).previous@,
                res.len() == i,
                next.len() == i,
                forall|j: int| 0 <= j < i ==> #[trigger] res@[j] == growth_since(counter_views(old(self).previous@), current@[j]@),
                counter_views(next@) == counter_views(current@).take(i as int),
            decreases current.len() - i,
        {
            let g = self.growth_of(&current[i]);
            res.push(g);
            let c = copy_counters(&current[i]);
            let ghost before = next@;
            next.push(c);
            assert(counter_views(next@) =~= counter_views(current@).take(i + 1)) by {
                assert forall|j: int| 0 <= j < i + 1 implies #[trigger] counter_views(next@)[j] == counter_views(current@).take(i + 1)[j] by {
                    if j < i {
                        assert(next@[j] == before[j]);
                        assert(counter_views(before)[j] == counter_views(current@).take(i as int)[j]);
                    }
                }
            }
            i = i + 1;
        }
        assert(counter_views(current@).take(current.len() as int) =~= counter_views(current@));
        self.previous = next;
        res
    }
}

/// Sum of the received rates of the first `n` interfaces.
pub open spec fn received_rate_sum(s: Seq<NetworkInfo>, n: int) -> int
    decreases n,
{
    if n <= 0 {
        0
    } else {
        received_rate_sum(s, n - 1) + s[n - 1].received_per_sec
    }
}

/// Sum of the sent rates of the first `n` interfaces.
pub open spec fn transmitted_rate_sum(s: Seq<NetworkInfo>, n: int) -> int
    decreases n,
{
    if n <= 0 {
        0
    } else {
        transmitted_rate_sum(s, n - 1) + s[n - 1].transmitted_per_sec
    }
}

/// Sum of the bytes received over the first `n` interfaces.
pub open spec fn received_total_sum(s: Seq<NetworkInfo>, n: int) -> int
    decreases n,
{
    if n <= 0 {
        0
    } else {
        received_total_sum(s, n - 1) + s[n - 1].total_received
    }
}

/// Sum of the bytes sent over the first `n` interfaces.
pub open spec fn transmitted_total_sum(s: Seq<NetworkInfo>, n: int) -> int
    decreases n,
{
    if n <= 0 {
        0
    } else {
        transmitted_total_sum(s, n - 1) + s[n - 1].total_transmitted
    }
}

proof fn lemma_sums_grow(s: Seq<NetworkInfo>, i: int, n: int)
    requires
        0 <= i <= n <= s.len(),
    ensures
        received_rate_sum(s, i) <= received_rate_sum(s, n),
        transmitted_rate_sum(s, i) <= transmitted_rate_sum(s, n),
        received_total_sum(s, i) <= received_total_sum(s, n),
        transmitted_total_sum(s, i) <= transmitted_total_sum(s, n),
    decreases n - i,
{
    if i < n {
        lemma_sums_grow(s, i + 1, n);
    }
}

/// The first interface of `s` named `name`.
pub open spec fn first_named(s: Seq<NetworkInfo>, name: Seq<char>, n: int) -> Option<int>
    decreases n,
{
    if n <= 0 {
        None
    } else {
        match first_named(s, name, n - 1) {
            Some(k) => Some(k),
            None => if s[n - 1].name@ == name { Some(n - 1) } else { None },
        }
    }
}

/// The rates and totals that the network panel shows: those of the selected
/// interface (zeros when no interface has its name), or the sums over all.
pub open spec fn traffic(s: Seq<NetworkInfo>, selected: Option<Seq<char>>) -> (int, int, int, int) {
    match selected {
        Some(name) => match first_named(s, name, s.len() as int) {
            Some(k) => (
                s[k].received_per_sec as int,
                s[k].transmitted_per_sec as int,
                s[k].total_received as int,
                s[k].total_transmitted as int,
            ),
            None => (0, 0, 0, 0),
        },
        None => (
            received_rate_sum(s, s.len() as int),
            transmitted_rate_sum(s, s.len() as int),
            received_total_sum(s, s.len() as int),
            transmitted_total_sum(s, s.len() as int),
        ),
    }
}

/// The sums over all interfaces fit in 64 bits.
pub open spec fn sums_fit(s: Seq<NetworkInfo>) -> bool {
    &&& received_rate_sum(s, s.len() as int) <= u64::MAX
    &&& transmitted_rate_sum(s, s.len() as int) <= u64::MAX
    &&& received_total_sum(s, s.len() as int) <= u64::MAX
    &&& transmitted_total_sum(s, s.len() as int) <= u64::MAX
}

/// The sums of the received and of the sent rates fit in 64 bits.
pub open spec fn rates_fit(s: Seq<NetworkInfo>) -> bool {
    &&& received_rate_sum(s, s.len() as int) <= u64::MAX
    &&& transmitted_rate_sum(s, s.len() as int) <= u64::MAX
}

/// The received and the sent rates summed over all interfaces.
pub fn rate_totals(networks: &Vec<NetworkInfo>) -> (res: (u64, u64))
    requires
        rates_fit(networks@),
    ensures
        res.0 == received_rate_sum(networks@, networks.len() as int),
        res.1 == transmitted_rate_sum(networks@, networks.len() as int),
{
    let ghost s = networks@;
    let mut rr: u64 = 0;
    let mut tr: u64 = 0;
    let mut i: usize = 0;
    while i < networks.len()
        invariant
            i <= networks.len(),
            s == networks@,
            rates_fit(s),
            rr == received_rate_sum(s, i as int),
            tr == transmitted_rate_sum(s, i as int),
        decreases networks.len() - i,
    {
        proof {
            lemma_sums_grow(s, i + 1, s.len() as int);
        }
        rr = rr + networks[i].received_per_sec;
        tr = tr + networks[i].transmitted_per_sec;
        i = i + 1;
    }
    (rr, tr)
}

/// The received and sent rates, and the received and sent totals, that the
/// network panel shows (see `traffic`).
pub fn traffic_summary(networks: &Vec<NetworkInfo>, selected: &Option<String>) -> (res: (u64, u64, u64, u64))
    requires
        selected is None ==> sums_fit(networks@),
    ensures
        (res.0 as int, res.1 as int, res.2 as int, res.3 as int) == traffic(networks@, match selected {
            Some(n) => Some(n@),
            None => None,
        }),
{
    let ghost s = networks@;
    match selected {
        Some(name) => {
            let mut i: usize = 0;
            while i < networks.len() && networks[i].name != *name
                invariant
                    i <= networks.len(),
                    s == networks@,
                    first_named(s, name@, i as int) is None,
                decreases networks.len() - i,
            {
                i = i + 1;
            }
            proof {
                if i < networks.len() {
                    assert(s[i as int].name@ == name@);
                    assert(first_named(s, name@, i + 1) == Some(i as int));
                    lemma_first_named_stays(s, name@, i + 1, s.len() as int);
                }
            }
            if i < networks.len() {
                let n = &networks[i];
                (n.received_per_sec, n.transmitted_per_sec, n.total_received, n.total_transmitted)
            } else {
                (0, 0, 0, 0)
            }
        },
        None => {
            let mut rr: u64 = 0;
            let mut tr: u64 = 0;
            let mut rt: u64 = 0;
            let mut tt: u64 = 0;
            let mut i: usize = 0;
            while i < networks.len()
                invariant
                    i <= networks.len(),
                    s == networks@,
                    sums_fit(s),
                    rr == received_rate_sum(s, i as int),
                    tr == transmitted_rate_sum(s, i as int),
                    rt == received_total_sum(s, i as int),
                    tt == transmitted_total_sum(s, i as int),
                decreases networks.len() - i,
            {
                proof {
                    lemma_sums_grow(s, i + 1, s.len() as int);
                }
                let n = &networks[i];
                rr = rr + n.received_per_sec;
                tr = tr + n.transmitted_per_sec;
                rt = rt + n.total_received;
                tt = tt + n.total_transmitted;
                i = i + 1;
            }
            (rr, tr, rt, tt)
        },
    }
}

proof fn lemma_first_named_stays(s: Seq<NetworkInfo>, name: Seq<char>, a: int, b: int)
    requires
        0 < a <= b <= s.len(),
        first_named(s, name, a) is Some,
    ensures
        first_named(s, name, b) == first_named(s, name, a),
    decreases b - a,
{
    if a < b {
        lemma_first_named_stays(s, name, a, b - 1);
    }
}

/// The values of the network panel's summary, each shown after its label
/// (`RX: `, `TX: `, `Interface: `): the received rate, the sent rate, the
/// interface, and its received and sent totals.
pub open spec fn traffic_parts_text(t: (int, int, int, int), label: Seq<char>) -> Seq<Seq<char>> {
    seq![
        human_bytes(t.0 as nat) + "/s"@,
        human_bytes(t.1 as nat) + "/s"@,
        label,
        human_bytes(t.2 as nat) + " / "@ + human_bytes(t.3 as nat),
    ]
}

/// The interface the panel names: the selected one, or `All`.
pub open spec fn interface_label(selected: Option<Seq<char>>) -> Seq<char> {
    match selected {
        Some(n) => n,
        None => "All"@,
    }
}

/// The network panel: the interfaces, the selected one, and whether the
/// traffic chart is shown.
pub struct NetworkComponent {
    pub networks: Vec<NetworkInfo>,
    pub selected_interface: Option<String>,
    pub theme: Theme,
    pub show_graphs: bool,
}

impl NetworkComponent {
    /// A panel with the chart shown.
    pub fn new(networks: Vec<NetworkInfo>, selected_interface: Option<String>, theme: Theme) -> (c: Self)
        ensures
            c.networks@ == networks@,
            c.selected_interface == selected_interface,
            c.theme == theme,
            c.show_graphs,
    {
        NetworkComponent { networks, selected_interface, theme, show_graphs: true }
    }

    /// `ToggleGraphs` shows or hides the chart; other actions change nothing.
    pub fn update(&mut self, action: Action)
        ensures
            final(self).networks@ == old(self).networks@,
            final(self).selected_interface == old(self).selected_interface,
            final(self).theme == old(self).theme,
            final(self).show_graphs == if action is ToggleGraphs {
                !old(self).show_graphs
            } else {
                old(self).show_graphs
            },
    {
        match action {
            Action::ToggleGraphs => {
                self.show_graphs = !self.show_graphs;
            },
            _ => {},
        }
    }

    /// The values of the summary (see `traffic_parts_text`).
    pub fn summary_parts(&self) -> (res: Vec<String>)
        requires
            self.selected_interface is None ==> sums_fit(self.networks@),
        ensures
            res.len() == 4,
            forall|i: int| 0 <= i < 4 ==> (#[trigger] res@[i])@ == traffic_parts_text(
                traffic(self.networks@, match self.selected_interface {
                    Some(n) => Some(n@),
                    None => None,
                }),
                interface_label(match self.selected_interface {
                    Some(n) => Some(n@),
                    None => None,
                }),
            )[i],
    {
        let (rx, tx, trx, ttx) = traffic_summary(&self.networks, &self.selected_interface);
        let mut a = human_bytes_chars(rx);
        push_str(&mut a, "/s");
        let mut b = human_bytes_chars(tx);
        push_str(&mut b, "/s");
        let mut c: Vec<char> = Vec::new();
        match &self.selected_interface {
            Some(n) => push_str(&mut c, n.as_str()),
            None => push_str(&mut c, "All"),
        }
        let mut d = human_bytes_chars(trx);
        push_str(&mut d, " / ");
        push_chars(&mut d, &human_bytes_chars(ttx));
        let mut res: Vec<String> = Vec::new();
        res.push(string_of_chars(&a));
        res.push(string_of_chars(&b));
        res.push(string_of_chars(&c));
        res.push(string_of_chars(&d));
        res
    }
}

proof fn lemma_last_sample_unique(prev: Seq<CounterView>, i: int, n: int)
    requires
        0 <= i < n <= prev.len(),
        forall|a: int, b: int| 0 <= a < b < prev.len() ==> (#[trigger] prev[a]).name != (#[trigger] prev[b]).name,
    ensures
        last_sample(prev, prev[i].name, n) == Some(i),
    decreases n,
{
    if n - 1 > i {
        assert(prev[i].name != prev[n - 1].name);
        lemma_last_sample_unique(prev, i, n - 1);
    }
}

/// Counters that did not change since the previous sample show no growth,
/// for every interface of a sample whose interface names are distinct.
pub proof fn lemma_unchanged_sample_has_no_growth(sample: Seq<CounterView>, i: int)
    requires
        0 <= i < sample.len(),
        forall|a: int, b: int| 0 <= a < b < sample.len() ==> (#[trigger] sample[a]).name != (#[trigger] sample[b]).name,
    ensures
        growth_since(sample, sample[i]) == Some((0u64, 0u64)),
{
    lemma_last_sample_unique(sample, i, sample.len() as int);
}

proof fn lemma_last_sample_bounds(prev: Seq<CounterView>, name: Seq<char>, n: int)
    requires
        0 <= n <= prev.len(),
    ensures
        last_sample(prev, name, n) matches Some(k) ==> 0 <= k < n && prev[k].name == name,
        (forall|j: int| 0 <= j < n ==> (#[trigger] prev[j]).name != name) ==> last_sample(prev, name, n) is None,
        forall|i: int| 0 <= i < n && (#[trigger] prev[i]).name == name ==> last_sample(prev, name, n) is Some,
    decreases n,
{
    if n > 0 {
        lemma_last_sample_bounds(prev, name, n - 1);
    }
}

/// Between two samples, an interface that the earlier sample listed once
/// shows what each counter grew by, or 0 for a counter that went back
/// (reset); an interface that the earlier sample did not list shows no
/// growth; and growth is never more than the counter itself.
pub proof fn lemma_growth_between_samples(prev: Seq<CounterView>, cur: CounterView)
    ensures
        forall|k: int| 0 <= k < prev.len() && (#[trigger] prev[k]).name == cur.name
            && (forall|j: int| 0 <= j < prev.len() && j != k ==> (#[trigger] prev[j]).name != cur.name)
            ==> growth_since(prev, cur) == Some((
                if cur.received >= prev[k].received { (cur.received - prev[k].received) as u64 } else { 0u64 },
                if cur.transmitted >= prev[k].transmitted { (cur.transmitted - prev[k].transmitted) as u64 } else { 0u64 },
            )),
        (forall|j: int| 0 <= j < prev.len() ==> (#[trigger] prev[j]).name != cur.name) ==> growth_since(prev, cur) is None,
        growth_since(prev, cur) matches Some(g) ==> g.0 <= cur.received && g.1 <= cur.transmitted,
{
    lemma_last_sample_bounds(prev, cur.name, prev.len() as int);
    assert forall|k: int| 0 <= k < prev.len() && (#[trigger] prev[k]).name == cur.name
        && (forall|j: int| 0 <= j < prev.len() && j != k ==> (#[trigger] prev[j]).name != cur.name)
        implies growth_since(prev, cur) == Some((
            if cur.received >= prev[k].received { (cur.received - prev[k].received) as u64 } else { 0u64 },
            if cur.transmitted >= prev[k].transmitted { (cur.transmitted - prev[k].transmitted) as u64 } else { 0u64 },
        )) by {
        let found = last_sample(prev, cur.name, prev.len() as int);
        let m = found->0;
        if m != k {
            assert(prev[m].name != cur.name);
        }
    }
}

} // verus!
