//! The application-wide interface state: quitting, auto-update, the theme,
//! the process sort order and the network interface shown, and how actions
//! change them.

use vstd::prelude::*;
use vstd::relations::{sorted_by, total_ordering};
use vstd::seq_lib::{lemma_multiset_commutative, lemma_sorted_unique};
use crate::action::Action;
use crate::snapshot::{ColorScheme, ProcessSortBy};
use crate::text::{chars_equal, chars_less, chars_lt, chars_of, lemma_chars_lt_total, lemma_chars_lt_transitive, string_of_chars};
use crate::theme::{canonical_scheme, is_canonical_scheme, theme_cycle_seq, Theme};

verus! {

// ---------------------------------------------------------------------------
// Cycling settings
// ---------------------------------------------------------------------------

/// The sort setting that follows `by`: CPU, memory, PID, name, and round again.
pub open spec fn next_sort(by: ProcessSortBy) -> ProcessSortBy {
    match by {
        ProcessSortBy::CpuUsage => ProcessSortBy::Memory,
        ProcessSortBy::Memory => ProcessSortBy::Pid,
        ProcessSortBy::Pid => ProcessSortBy::Name,
        ProcessSortBy::Name => ProcessSortBy::CpuUsage,
    }
}

/// The scheme the theme switcher moves to from `scheme`: the entry after its
/// canonical form in the switcher's cycle.
pub open spec fn next_theme(scheme: ColorScheme) -> ColorScheme {
    let cycle = theme_cycle_seq();
    let idx = if cycle.contains(canonical_scheme(scheme)) {
        cycle.index_of(canonical_scheme(scheme))
    } else {
        0
    };
    cycle[(idx + 1) % (cycle.len() as int)]
}

/// The name the interface shows for a scheme.
pub open spec fn theme_name_of(scheme: ColorScheme) -> Seq<char> {
    match canonical_scheme(scheme) {
        ColorScheme::Default => "Graphite"@,
        ColorScheme::Dark => "Midnight"@,
        ColorScheme::Nord => "Nord"@,
        ColorScheme::SolarizedDark => "Solarized"@,
        ColorScheme::Gruvbox => "Gruvbox"@,
        ColorScheme::Rtop => "Neon"@,
        _ => "Graphite"@,
    }
}

/// Applies `f` `n` times.
pub open spec fn iterate_theme(scheme: ColorScheme, n: nat) -> ColorScheme
    decreases n,
{
    if n == 0 {
        scheme
    } else {
        next_theme(iterate_theme(scheme, (n - 1) as nat))
    }
}

proof fn lemma_next_theme_table(scheme: ColorScheme)
    ensures
        next_theme(scheme) == match canonical_scheme(scheme) {
            ColorScheme::Default => ColorScheme::Dark,
            ColorScheme::Dark => ColorScheme::Nord,
            ColorScheme::Nord => ColorScheme::SolarizedDark,
            ColorScheme::SolarizedDark => ColorScheme::Gruvbox,
            ColorScheme::Gruvbox => ColorScheme::Rtop,
            _ => ColorScheme::Default,
        },
{
    let cycle = theme_cycle_seq();
    let c = canonical_scheme(scheme);
    assert(cycle.len() == 6);
    assert(cycle[0] == ColorScheme::Default);
    assert(cycle[1] == ColorScheme::Dark);
    assert(cycle[2] == ColorScheme::Nord);
    assert(cycle[3] == ColorScheme::SolarizedDark);
    assert(cycle[4] == ColorScheme::Gruvbox);
    assert(cycle[5] == ColorScheme::Rtop);
    let i: int = match c {
        ColorScheme::Default => 0,
        ColorScheme::Dark => 1,
        ColorScheme::Nord => 2,
        ColorScheme::SolarizedDark => 3,
        ColorScheme::Gruvbox => 4,
        _ => 5,
    };
    assert(cycle[i] == c);
    assert(cycle.contains(c));
    let j = cycle.index_of(c);
    assert(0 <= j < 6 && cycle[j] == c);
    if j == 0 {
    } else if j == 1 {
    } else if j == 2 {
    } else if j == 3 {
    } else if j == 4 {
    } else {
        assert(j == 5);
    }
    assert(j == i);
    assert((i + 1) % 6 == if i == 5 { 0 } else { i + 1 });
    assert(next_theme(scheme) == cycle[(i + 1) % 6]);
}

/// The theme switcher only ever selects canonical schemes, and six switches
/// bring it back to where it started.
pub proof fn lemma_theme_switch_cycles(scheme: ColorScheme)
    ensures
        is_canonical_scheme(next_theme(scheme)),
        iterate_theme(canonical_scheme(scheme), 6) == canonical_scheme(scheme),
        next_theme(scheme) != canonical_scheme(scheme),
{
    reveal_with_fuel(iterate_theme, 7);
    lemma_next_theme_table(scheme);
    let c = canonical_scheme(scheme);
    lemma_next_theme_table(c);
    lemma_next_theme_table(next_theme(c));
    lemma_next_theme_table(next_theme(next_theme(c)));
    lemma_next_theme_table(next_theme(next_theme(next_theme(c))));
    lemma_next_theme_table(next_theme(next_theme(next_theme(next_theme(c)))));
    lemma_next_theme_table(next_theme(next_theme(next_theme(next_theme(next_theme(c))))));
}

/// Four switches of the sort setting bring it back, visiting each setting once.
pub proof fn lemma_sort_switch_cycles(by: ProcessSortBy)
    ensures
        next_sort(next_sort(next_sort(next_sort(by)))) == by,
        next_sort(by) != by,
        next_sort(next_sort(by)) != by,
        next_sort(next_sort(next_sort(by))) != by,
{
}

/// The name shown for the scheme.
pub fn theme_name(scheme: ColorScheme) -> (res: &'static str)
    ensures
        res@ == theme_name_of(scheme),
{
    match Theme::canonicalize_color_scheme(scheme) {
        ColorScheme::Default => "Graphite",
        ColorScheme::Dark => "Midnight",
        ColorScheme::Nord => "Nord",
        ColorScheme::SolarizedDark => "Solarized",
        ColorScheme::Gruvbox => "Gruvbox",
        ColorScheme::Rtop => "Neon",
        _ => "Graphite",
    }
}

/// The sort setting that follows `by`.
pub fn switch_process_sort(by: ProcessSortBy) -> (res: ProcessSortBy)
    ensures
        res == next_sort(by),
{
    match by {
        ProcessSortBy::CpuUsage => ProcessSortBy::Memory,
        ProcessSortBy::Memory => ProcessSortBy::Pid,
        ProcessSortBy::Pid => ProcessSortBy::Name,
        ProcessSortBy::Name => ProcessSortBy::CpuUsage,
    }
}

/// The scheme the theme switcher moves to.
pub fn switch_theme(scheme: ColorScheme) -> (res: ColorScheme)
    ensures
        res == next_theme(scheme),
{
    let cycle = Theme::cycle();
    let current = Theme::canonicalize_color_scheme(scheme);
    let mut idx: usize = 0;
    let mut found = false;
    let mut i: usize = 0;
    while i < cycle.len()
        invariant
            cycle@ == theme_cycle_seq(),
            i <= cycle.len(),
            current == canonical_scheme(scheme),
            found ==> idx < i && cycle@[idx as int] == current,
            !found ==> idx == 0 && forall|j: int| 0 <= j < i ==> cycle@[j] != current,
        decreases cycle.len() - i,
    {
        if !found && cycle[i] == current {
            idx = i;
            found = true;
        }
        i = i + 1;
    }
    proof {
        lemma_next_theme_table(scheme);
        if found {
            assert(theme_cycle_seq().contains(current));
        }
    }
    let next = cycle[(idx + 1) % cycle.len()];
    proof {
        let c = current;
        if found {
            let j = theme_cycle_seq().index_of(c);
            assert(theme_cycle_seq()[j] == c);
        }
    }
    next
}

// ---------------------------------------------------------------------------
// Network interfaces
// ---------------------------------------------------------------------------

/// `a` sorts no later than `b`.
pub open spec fn text_le() -> spec_fn(Seq<char>, Seq<char>) -> bool {
    |a: Seq<char>, b: Seq<char>| chars_lt(a, b) || a == b
}

/// `s` with each run of equal neighbours reduced to one, as `Vec::dedup` leaves it.
pub open spec fn dedup_adjacent(s: Seq<Seq<char>>) -> Seq<Seq<char>>
    decreases s.len(),
{
    if s.len() <= 1 {
        s
    } else if s.last() == s[s.len() - 2] {
        dedup_adjacent(s.drop_last())
    } else {
        dedup_adjacent(s.drop_last()).push(s.last())
    }
}

/// The interfaces in the order the switcher visits them: the distinct names, sorted.
pub open spec fn interface_cycle(names: Seq<Seq<char>>) -> Seq<Seq<char>> {
    dedup_adjacent(names.sort_by(text_le()))
}

/// The interface shown after switching from `current` (`None` shows all):
/// the first name when none or an unknown one is shown, the next name
/// otherwise, and all again after the last.
pub open spec fn next_interface(names: Seq<Seq<char>>, current: Option<Seq<char>>) -> Option<Seq<char>> {
    let cycle = interface_cycle(names);
    if cycle.len() == 0 {
        None
    } else {
        match current {
            None => Some(cycle[0]),
            Some(c) => if cycle.contains(c) {
                if cycle.index_of(c) + 1 < cycle.len() {
                    Some(cycle[cycle.index_of(c) + 1])
                } else {
                    None
                }
            } else {
                Some(cycle[0])
            },
        }
    }
}

/// Character vectors as character sequences.
pub open spec fn char_vec_views(s: Seq<Vec<char>>) -> Seq<Seq<char>> {
    s.map_values(|v: Vec<char>| v@)
}

/// The names of a list of strings, as character sequences.
pub open spec fn name_views(names: Seq<String>) -> Seq<Seq<char>> {
    names.map_values(|s: String| s@)
}

/// Text order is a total order.
pub proof fn lemma_text_le_total()
    ensures
        total_ordering(text_le()),
{
    let leq = text_le();
    assert forall|a: Seq<char>, b: Seq<char>| #[trigger] leq(a, b) && #[trigger] leq(b, a) implies a == b by {
        lemma_chars_lt_total(a, b);
    }
    assert forall|a: Seq<char>, b: Seq<char>, c: Seq<char>| #[trigger] leq(a, b) && #[trigger] leq(b, c) implies leq(a, c) by {
        if chars_lt(a, b) && chars_lt(b, c) {
            lemma_chars_lt_transitive(a, b, c);
        }
    }
    assert forall|a: Seq<char>, b: Seq<char>| #[trigger] leq(a, b) || #[trigger] leq(b, a) by {
        lemma_chars_lt_total(a, b);
    }
    assert forall|a: Seq<char>| #[trigger] leq(a, a) by {}
}

proof fn lemma_insert_multiset(s: Seq<Seq<char>>, pos: int, x: Seq<char>)
    requires
        0 <= pos <= s.len(),
    ensures
        s.insert(pos, x).to_multiset() =~= s.to_multiset().insert(x),
{
    broadcast use vstd::multiset::group_multiset_axioms;
    let a = s.subrange(0, pos);
    let b = s.subrange(pos, s.len() as int);
    assert(s =~= a + b);
    lemma_multiset_commutative(a, b);
    lemma_multiset_commutative(a.push(x), b);
    assert(a.push(x).to_multiset() =~= a.to_multiset().insert(x)) by {
        a.to_multiset_ensures();
    }
}

/// The names, sorted.
fn sorted_names(names: &Vec<String>) -> (res: Vec<Vec<char>>)
    ensures
        char_vec_views(res@) == name_views(names@).sort_by(text_le()),
{
    let ghost leq = text_le();
    proof {
        lemma_text_le_total();
    }
    let ghost src = name_views(names@);
    let mut res: Vec<Vec<char>> = Vec::new();
    let mut i: usize = 0;
    assert(src.take(0) =~= char_vec_views(res@));
    while i < names.len()
        invariant
            i <= names.len(),
            total_ordering(leq),
            leq == text_le(),
            src == name_views(names@),
            sorted_by(char_vec_views(res@), leq),
            char_vec_views(res@).to_multiset() == src.take(i as int).to_multiset(),
        decreases names.len() - i,
    {
        let x = chars_of(names[i].as_str());
        let ghost cur = char_vec_views(res@);
        let mut pos: usize = 0;
        while pos < res.len() && !chars_less(&x, &res[pos])
            invariant
                pos <= res.len(),
                total_ordering(leq),
                leq == text_le(),
                    cur == char_vec_views(res@),
                forall|j: int| 0 <= j < pos ==> leq(#[trigger] cur[j], x@),
            decreases res.len() - pos,
        {
            proof {
                lemma_chars_lt_total(x@, cur[pos as int]);
            }
            pos = pos + 1;
        }
        proof {
            if pos < res.len() {
                assert(leq(x@, cur[pos as int]));
            }
            lemma_insert_multiset(cur, pos as int, x@);
            assert(src.take(i as int + 1) =~= src.take(i as int).push(x@));
            src.take(i as int).to_multiset_ensures();
        }
        res.insert(pos, x);
        proof {
            let now = char_vec_views(res@);
            assert(now =~= cur.insert(pos as int, x@));
            cur.insert_ensures(pos as int, x@);
            assert forall|a: int, b: int| 0 <= a < b < now.len() implies #[trigger] leq(now[a], now[b]) by {
                if b < pos {
                } else if a < pos && b == pos {
                } else if a < pos && b > pos {
                    assert(now[b] == cur[b - 1]);
                    if pos < cur.len() {
                        if b - 1 > pos {
                            assert(leq(cur[pos as int], cur[b - 1]));
                        }
                        assert(leq(x@, cur[b - 1]));
                    }
                } else if a == pos {
                    assert(now[b] == cur[b - 1]);
                    if b - 1 > pos {
                        assert(leq(cur[pos as int], cur[b - 1]));
                    }
                } else {
                    assert(now[a] == cur[a - 1]);
                    assert(now[b] == cur[b - 1]);
                }
            }
        }
        i = i + 1;
    }
    proof {
        assert(src.take(names.len() as int) =~= src);
        src.lemma_sort_by_ensures(leq);
        lemma_sorted_unique(char_vec_views(res@), src.sort_by(leq), leq);
    }
    res
}

/// The interfaces in switching order: the distinct names, sorted.
pub fn interface_names(names: &Vec<String>) -> (res: Vec<Vec<char>>)
    ensures
        char_vec_views(res@) == interface_cycle(name_views(names@)),
{
    let sorted = sorted_names(names);
    let ghost s = char_vec_views(sorted@);
    let mut res: Vec<Vec<char>> = Vec::new();
    let mut k: usize = 0;
    assert(char_vec_views(res@) =~= dedup_adjacent(s.take(0)));
    while k < sorted.len()
        invariant
            k <= sorted.len(),
            s == char_vec_views(sorted@),
            char_vec_views(res@) == dedup_adjacent(s.take(k as int)),
        decreases sorted.len() - k,
    {
        let ghost t = s.take(k as int + 1);
        assert(t.drop_last() =~= s.take(k as int));
        if k > 0 && chars_equal(&sorted[k], &sorted[k - 1]) {
            assert(t.last() == t[t.len() - 2]);
        } else {
            let ghost before = char_vec_views(res@);
            res.push(chars_of(string_of_chars(&sorted[k]).as_str()));
            assert(char_vec_views(res@) =~= before.push(s[k as int]));
            if k > 0 {
                assert(t.last() != t[t.len() - 2]);
            } else {
                assert(t =~= seq![s[0]]);
                assert(before.len() == 0);
            }
        }
        k = k + 1;
    }
    assert(s.take(sorted.len() as int) =~= s);
    res
}

/// The interface shown after switching.
pub fn cycle_network_interface(names: &Vec<String>, current: &Option<String>) -> (res: Option<String>)
    ensures
        match res {
            Some(s) => next_interface(name_views(names@), match current {
                Some(c) => Some(c@),
                None => None,
            }) == Some(s@),
            None => next_interface(name_views(names@), match current {
                Some(c) => Some(c@),
                None => None,
            }) is None,
        },
{
    let cycle = interface_names(names);
    let ghost u = char_vec_views(cycle@);
    proof {
        lemma_interface_cycle_distinct(name_views(names@));
    }
    assert(u.len() == cycle.len());
    if cycle.len() == 0 {
        return None;
    }
    assert(u[0] == cycle@[0]@);
    match current {
        None => Some(string_of_chars(&cycle[0])),
        Some(c) => {
            let cc = chars_of(c.as_str());
            let mut i: usize = 0;
            while i < cycle.len()
                invariant
                    i <= cycle.len(),
                    u == char_vec_views(cycle@),
                    u.len() == cycle.len(),
                    cycle.len() > 0,
                    u.no_duplicates(),
                    u == interface_cycle(name_views(names@)),
                    *current matches Some(x) && x@ == cc@,
                    forall|j: int| 0 <= j < i ==> u[j] != cc@,
                decreases cycle.len() - i,
            {
                if chars_equal(&cycle[i], &cc) {
                    proof {
                        assert(u[i as int] == cycle@[i as int]@);
                        assert(u[i as int] == cc@);
                        assert(u.contains(cc@));
                        let j = u.index_of(cc@);
                        assert(u[j] == cc@);
                        assert(u.no_duplicates());
                        if j != i {
                            assert(u[j] != u[i as int]);
                        }
                        assert(j == i);
                    }
                    if i + 1 < cycle.len() {
                        assert(u[i + 1] == cycle@[i + 1]@);
                        return Some(string_of_chars(&cycle[i + 1]));
                    } else {
                        return None;
                    }
                }
                proof {
                    assert(u[i as int] == cycle@[i as int]@);
                }
                i = i + 1;
            }
            assert(!u.contains(cc@));
            assert(u[0] == cycle@[0]@);
            Some(string_of_chars(&cycle[0]))
        },
    }
}

proof fn lemma_dedup_members(s: Seq<Seq<char>>)
    ensures
        forall|i: int| 0 <= i < dedup_adjacent(s).len() ==> s.contains(#[trigger] dedup_adjacent(s)[i]),
        s.len() > 0 ==> dedup_adjacent(s).len() > 0 && dedup_adjacent(s).last() == s.last(),
    decreases s.len(),
{
    if s.len() > 1 {
        lemma_dedup_members(s.drop_last());
        let d = dedup_adjacent(s.drop_last());
        assert forall|i: int| 0 <= i < dedup_adjacent(s).len() implies s.contains(#[trigger] dedup_adjacent(s)[i]) by {
            if i < d.len() {
                assert(d.contains(d[i]) ==> s.drop_last().contains(d[i]));
                let k = choose|k: int| 0 <= k < s.drop_last().len() && s.drop_last()[k] == d[i];
                assert(s[k] == d[i]);
            } else {
                assert(s[s.len() - 1] == s.last());
            }
        }
    } else if s.len() == 1 {
        assert(s[0] == s.last());
    }
}

/// The switching order lists each interface once, in strictly increasing order.
pub proof fn lemma_interface_cycle_distinct(names: Seq<Seq<char>>)
    ensures
        forall|i: int, j: int| 0 <= i < j < interface_cycle(names).len() ==> chars_lt(
            #[trigger] interface_cycle(names)[i],
            #[trigger] interface_cycle(names)[j],
        ),
        interface_cycle(names).no_duplicates(),
        forall|x: Seq<char>| #[trigger] interface_cycle(names).contains(x) <==> names.contains(x),
{
    lemma_text_le_total();
    let s = names.sort_by(text_le());
    names.lemma_sort_by_ensures(text_le());
    lemma_dedup_strict(s);
    let u = dedup_adjacent(s);
    assert forall|i: int, j: int| 0 <= i < j < u.len() implies u[i] != u[j] by {
        lemma_chars_lt_total(u[i], u[j]);
    }
    assert forall|x: Seq<char>| #[trigger] u.contains(x) <==> names.contains(x) by {
        broadcast use vstd::seq_lib::group_to_multiset_ensures;
        lemma_dedup_members(s);
        lemma_dedup_covers(s, x);
        assert(s.contains(x) <==> s.to_multiset().count(x) > 0);
        assert(names.contains(x) <==> names.to_multiset().count(x) > 0);
    }
}

proof fn lemma_dedup_covers(s: Seq<Seq<char>>, x: Seq<char>)
    ensures
        s.contains(x) ==> dedup_adjacent(s).contains(x),
    decreases s.len(),
{
    if s.len() > 1 && s.contains(x) {
        lemma_dedup_members(s.drop_last());
        if s.last() == x {
            if s.last() == s[s.len() - 2] {
                assert(s.drop_last().last() == x);
                let d = dedup_adjacent(s.drop_last());
                assert(d[d.len() - 1] == x);
            } else {
                let d = dedup_adjacent(s);
                assert(d[d.len() - 1] == x);
            }
        } else {
            let k = choose|k: int| 0 <= k < s.len() && s[k] == x;
            assert(s.drop_last()[k] == x);
            lemma_dedup_covers(s.drop_last(), x);
            let d = dedup_adjacent(s.drop_last());
            let m = choose|m: int| 0 <= m < d.len() && d[m] == x;
            if s.last() != s[s.len() - 2] {
                assert(dedup_adjacent(s)[m] == x);
            }
        }
    } else if s.len() == 1 && s.contains(x) {
        assert(dedup_adjacent(s)[0] == x);
    }
}

proof fn lemma_dedup_strict(s: Seq<Seq<char>>)
    requires
        sorted_by(s, text_le()),
    ensures
        forall|i: int, j: int| 0 <= i < j < dedup_adjacent(s).len() ==> chars_lt(
            #[trigger] dedup_adjacent(s)[i],
            #[trigger] dedup_adjacent(s)[j],
        ),
    decreases s.len(),
{
    if s.len() > 1 {
        let t = s.drop_last();
        assert(sorted_by(t, text_le())) by {
            assert forall|i: int, j: int| 0 <= i < j < t.len() implies #[trigger] text_le()(t[i], t[j]) by {
                assert(text_le()(s[i], s[j]));
            }
        }
        lemma_dedup_strict(t);
        lemma_dedup_members(t);
        let d = dedup_adjacent(t);
        if s.last() != s[s.len() - 2] {
            let r = dedup_adjacent(s);
            assert(text_le()(s[s.len() - 2], s[s.len() - 1]));
            assert forall|i: int, j: int| 0 <= i < j < r.len() implies chars_lt(#[trigger] r[i], #[trigger] r[j]) by {
                if j == r.len() - 1 {
                    assert(t.contains(d[i]));
                    let k = choose|k: int| 0 <= k < t.len() && t[k] == d[i];
                    assert(text_le()(s[k], s[s.len() - 2]) || k == s.len() - 2);
                    assert(chars_lt(s[s.len() - 2], s.last()));
                    if k < s.len() - 2 {
                        if chars_lt(s[k], s[s.len() - 2]) {
                            lemma_chars_lt_transitive(s[k], s[s.len() - 2], s.last());
                        }
                    }
                    assert(r[j] == s.last());
                    assert(r[i] == d[i]);
                } else {
                    assert(r[i] == d[i]);
                    assert(r[j] == d[j]);
                }
            }
        }
    }
}

/// The selected interface survives a new list of interfaces only when the
/// list still has it.
pub open spec fn retained_interface(selected: Option<Seq<char>>, names: Seq<Seq<char>>) -> Option<Seq<char>> {
    match selected {
        Some(s) => if names.contains(s) {
            Some(s)
        } else {
            None
        },
        None => None,
    }
}

/// Keeps the selected interface when the new list of interfaces still has it.
pub fn retain_selected_interface(selected: &Option<String>, names: &Vec<String>) -> (res: Option<String>)
    ensures
        match res {
            Some(s) => retained_interface(match selected {
                Some(c) => Some(c@),
                None => None,
            }, name_views(names@)) == Some(s@),
            None => retained_interface(match selected {
                Some(c) => Some(c@),
                None => None,
            }, name_views(names@)) is None,
        },
{
    match selected {
        None => None,
        Some(sel) => {
            let mut i: usize = 0;
            while i < names.len()
                invariant
                    i <= names.len(),
                    *selected matches Some(x) && x == *sel,
                    forall|j: int| 0 <= j < i ==> name_views(names@)[j] != sel@,
                decreases names.len() - i,
            {
                if names[i] == *sel {
                    assert(name_views(names@)[i as int] == sel@);
                    assert(name_views(names@).contains(sel@));
                    return Some(sel.clone());
                }
                i = i + 1;
            }
            None
        },
    }
}

/// A refresh keeps the selected interface exactly when the new list still
/// names it, and otherwise falls back to all interfaces; with all selected
/// it stays so.
pub proof fn lemma_selection_survives_refresh(selected: Option<Seq<char>>, names: Seq<Seq<char>>)
    ensures
        forall|i: int| 0 <= i < names.len() && selected == Some(#[trigger] names[i])
            ==> retained_interface(selected, names) == selected,
        (forall|i: int| 0 <= i < names.len() ==> Some(#[trigger] names[i]) != selected)
            ==> retained_interface(selected, names) is None,
        retained_interface(selected, names) is Some ==> retained_interface(selected, names) == selected,
{
    assert forall|i: int| 0 <= i < names.len() && selected == Some(#[trigger] names[i])
        implies retained_interface(selected, names) == selected by {
        assert(names.contains(names[i]));
    }
}

/// Switching interfaces from "all" visits every interface once, in sorted
/// order, and then returns to "all".
pub proof fn lemma_interface_switching_visits_each_once(names: Seq<Seq<char>>, i: int)
    requires
        0 <= i < interface_cycle(names).len(),
    ensures
        next_interface(names, None) == Some(interface_cycle(names)[0]),
        i + 1 < interface_cycle(names).len() ==> next_interface(names, Some(interface_cycle(names)[i]))
            == Some(interface_cycle(names)[i + 1]),
        i + 1 == interface_cycle(names).len() ==> next_interface(names, Some(interface_cycle(names)[i]))
            is None,
{
    lemma_interface_cycle_distinct(names);
    let u = interface_cycle(names);
    assert(u.contains(u[i]));
    let j = u.index_of(u[i]);
    assert(u[j] == u[i]);
}

// ---------------------------------------------------------------------------
// Actions
// ---------------------------------------------------------------------------

/// The actions the process panel handles.
pub open spec fn is_process_action(action: Action) -> bool {
    match action {
        Action::MoveUp | Action::MoveDown | Action::ToggleProcessTree | Action::StartProcessSearch
        | Action::UpdateProcessSearch(_) | Action::BackspaceProcessSearch
        | Action::ConfirmProcessSearch | Action::CancelProcessSearch | Action::RequestProcessKill
        | Action::ToggleProcessKillChoice | Action::ConfirmProcessKill
        | Action::CancelProcessKill => true,
        _ => false,
    }
}

/// What the caller must still do after an action.
#[derive(Debug)]
pub enum Followup {
    /// Nothing.
    Done,
    /// Store the theme setting.
    SaveTheme,
    /// Hand the action to the process panel.
    Process(Action),
}

/// The interface state that is not the process panel's own.
#[derive(Debug)]
pub struct UiState {
    pub should_quit: bool,
    pub auto_update: bool,
    pub theme: Theme,
    pub process_sort_by: ProcessSortBy,
    pub selected_network_interface: Option<String>,
}

impl UiState {
    /// The selected interface, as characters.
    pub open spec fn selected_view(&self) -> Option<Seq<char>> {
        match self.selected_network_interface {
            Some(s) => Some(s@),
            None => None,
        }
    }

    /// Reacts to an action; `network_names` lists the interfaces currently shown.
    pub fn handle_action(&mut self, action: Action, network_names: &Vec<String>) -> (res: Followup)
        ensures
            final(self).should_quit == (old(self).should_quit || action is Quit),
            final(self).auto_update == if action is ToggleAutoUpdate {
                !old(self).auto_update
            } else {
                old(self).auto_update
            },
            final(self).process_sort_by == if action is SwitchProcessSort {
                next_sort(old(self).process_sort_by)
            } else {
                old(self).process_sort_by
            },
            final(self).selected_view() == if action is CycleNetworkInterface {
                next_interface(name_views(network_names@), old(self).selected_view())
            } else {
                old(self).selected_view()
            },
            final(self).theme.color_scheme == if action is SwitchTheme {
                next_theme(old(self).theme.color_scheme)
            } else {
                old(self).theme.color_scheme
            },
            match res {
                Followup::Process(a) => is_process_action(action) && a == action,
                Followup::SaveTheme => action is SwitchTheme || action is SaveConfig,
                Followup::Done => !is_process_action(action) && !(action is SwitchTheme) && !(action is SaveConfig),
            },
    {
        match action {
            Action::Quit => {
                self.should_quit = true;
                Followup::Done
            },
            Action::ToggleAutoUpdate => {
                self.auto_update = !self.auto_update;
                Followup::Done
            },
            Action::MoveUp | Action::MoveDown | Action::ToggleProcessTree | Action::StartProcessSearch
            | Action::UpdateProcessSearch(_) | Action::BackspaceProcessSearch
            | Action::ConfirmProcessSearch | Action::CancelProcessSearch | Action::RequestProcessKill
            | Action::ToggleProcessKillChoice | Action::ConfirmProcessKill
            | Action::CancelProcessKill => Followup::Process(action),
            Action::SwitchProcessSort => {
                self.process_sort_by = switch_process_sort(self.process_sort_by);
                Followup::Done
            },
            Action::CycleNetworkInterface => {
                self.selected_network_interface = cycle_network_interface(
                    network_names,
                    &self.selected_network_interface,
                );
                Followup::Done
            },
            Action::SwitchTheme => {
                let next_scheme = switch_theme(self.theme.color_scheme);
                proof {
                    lemma_theme_switch_cycles(self.theme.color_scheme);
                }
                self.theme = Theme::new(next_scheme);
                Followup::SaveTheme
            },
            Action::SaveConfig => Followup::SaveTheme,
            _ => Followup::Done,
        }
    }
}

} // verus!
