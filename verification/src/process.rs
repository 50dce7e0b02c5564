//! The process panel: filtering, sorting and tree layout of the process list,
//! the selection, the search box and the termination dialog.

use vstd::prelude::*;
use crate::action::Action;
use crate::binary32::{fixed2_text, push_fixed2};
use crate::order::{arrange, arranged, lemma_arranged_same_members, order_of, process_names, ProcessOrder};
use crate::snapshot::{ProcessInfo, ProcessSortBy};
use crate::text::{
    chars_of, contains_sub, push_char, dec, dec_chars, digit_char, has_sub, lowercase, lowercase_chars,
    pad_left, push_chars, push_dec, push_padded, push_spaces, spaces, string_of_chars, trim,
    trim_seq,
};
use crate::theme::Theme;
use vstd::string::StringExecFns;
use crate::utils::{human_bytes, human_bytes_chars};

verus! {

/// One line of the process panel.
#[derive(Debug)]
pub struct ProcessRow {
    pub pid: u32,
    pub name: String,
    pub line: String,
}

/// What a process row holds, as values.
pub struct RowView {
    pub pid: u32,
    pub name: Seq<char>,
    pub line: Seq<char>,
}

impl View for ProcessRow {
    type V = RowView;

    open spec fn view(&self) -> RowView {
        RowView { pid: self.pid, name: self.name@, line: self.line@ }
    }
}

/// The views of a sequence of rows.
pub open spec fn row_views(rows: Seq<ProcessRow>) -> Seq<RowView> {
    rows.map_values(|r: ProcessRow| r@)
}

/// The indices `0 .. n`.
pub open spec fn index_range(n: nat) -> Seq<usize> {
    Seq::new(n, |i: int| i as usize)
}

/// `process` matches the lower-cased search text `needle`: its PID, or the
/// lower-cased name, a command-line part or the executable path, contains it.
/// Without a search text every process matches.
pub open spec fn process_matches(process: ProcessInfo, needle: Option<Seq<char>>) -> bool {
    match needle {
        None => true,
        Some(n) => {
            ||| has_sub(dec(process.pid as nat), n)
            ||| has_sub(lowercase(process.name@), n)
            ||| exists|i: int| 0 <= i < process.cmd.len() && has_sub(lowercase(#[trigger] process.cmd@[i]@), n)
            ||| (process.exe matches Some(e) && has_sub(lowercase(e@), n))
        },
    }
}

/// The list line of a process: PID, memory, CPU use and written bytes in
/// right-aligned columns, then the name.
pub open spec fn flat_line(p: ProcessInfo) -> Seq<char> {
    pad_left(dec(p.pid as nat), 7) + seq![' '] + pad_left(human_bytes(p.memory as nat), 8) + seq![' ']
        + pad_left(fixed2_text(p.cpu_usage_bits), 6) + seq!['%', ' '] + pad_left(
        human_bytes(p.disk_usage as nat),
        9,
    ) + seq![' '] + p.name@
}

/// The tree line of a process at `depth`: indentation, name, PID, CPU use and memory.
pub open spec fn tree_line(p: ProcessInfo, depth: nat) -> Seq<char> {
    spaces(2 * depth) + p.name@ + seq![' ', '['] + dec(p.pid as nat) + seq![']', ' '] + fixed2_text(p.cpu_usage_bits) + seq!['%', ' '] + human_bytes(p.memory as nat)
}

/// The list row of a process.
pub open spec fn flat_row(p: ProcessInfo) -> RowView {
    RowView { pid: p.pid, name: p.name@, line: flat_line(p) }
}

/// The tree row of a process at `depth`.
pub open spec fn tree_row(p: ProcessInfo, depth: nat) -> RowView {
    RowView { pid: p.pid, name: p.name@, line: tree_line(p, depth) }
}

/// The list view: all processes in the sort order, those matching the search kept.
pub open spec fn flat_rows(procs: Seq<ProcessInfo>, by: ProcessSortBy, needle: Option<Seq<char>>) -> Seq<RowView> {
    arranged(procs, order_of(by), index_range(procs.len())).filter(
        |i: usize| process_matches(procs[i as int], needle),
    ).map_values(|i: usize| flat_row(procs[i as int]))
}

/// The parent under which the tree places a process: its parent PID, or 0.
pub open spec fn parent_key(p: ProcessInfo) -> u32 {
    match p.parent_pid {
        Some(pp) => pp,
        None => 0,
    }
}

/// The children of `parent`, in tree-sibling order.
pub open spec fn children(procs: Seq<ProcessInfo>, parent: u32) -> Seq<usize> {
    arranged(
        procs,
        ProcessOrder::Siblings,
        index_range(procs.len()).filter(|i: usize| parent_key(procs[i as int]) == parent),
    )
}

/// The rows of the subtree below `parent`, descending at most `fuel` levels.
pub open spec fn subtree_rows(
    procs: Seq<ProcessInfo>,
    parent: u32,
    depth: nat,
    needle: Option<Seq<char>>,
    fuel: nat,
) -> Seq<RowView>
    decreases fuel, 0nat,
{
    if fuel == 0 {
        Seq::empty()
    } else {
        sibling_rows(procs, children(procs, parent), depth, needle, (fuel - 1) as nat)
    }
}

/// The rows for the siblings `kids` at `depth`, each followed by its subtree.
pub open spec fn sibling_rows(
    procs: Seq<ProcessInfo>,
    kids: Seq<usize>,
    depth: nat,
    needle: Option<Seq<char>>,
    fuel: nat,
) -> Seq<RowView>
    decreases fuel, kids.len() + 1,
{
    if kids.len() == 0 {
        Seq::empty()
    } else {
        let p = procs[kids.last() as int];
        let own = if process_matches(p, needle) {
            seq![tree_row(p, depth)]
        } else {
            Seq::empty()
        };
        sibling_rows(procs, kids.drop_last(), depth, needle, fuel) + own + subtree_rows(
            procs,
            p.pid,
            depth + 1,
            needle,
            fuel,
        )
    }
}

/// The tree view: the subtree below PID 0 and then the subtree below PID 1,
/// each descending at most one level per process (a parent chain that long
/// would have to repeat a process).
pub open spec fn tree_rows(procs: Seq<ProcessInfo>, needle: Option<Seq<char>>) -> Seq<RowView> {
    subtree_rows(procs, 0, 0, needle, procs.len() + 1) + subtree_rows(
        procs,
        1,
        0,
        needle,
        procs.len() + 1,
    )
}

proof fn lemma_filter_take_step<A>(s: Seq<A>, pred: spec_fn(A) -> bool, k: int)
    requires
        0 <= k < s.len(),
    ensures
        s.take(k + 1).filter(pred) == if pred(s[k]) {
            s.take(k).filter(pred).push(s[k])
        } else {
            s.take(k).filter(pred)
        },
{
    reveal(Seq::filter);
    assert(s.take(k + 1).drop_last() =~= s.take(k));
}

/// The indices `0 .. n`.
fn index_range_vec(n: usize) -> (res: Vec<usize>)
    ensures
        res@ == index_range(n as nat),
{
    let mut res: Vec<usize> = Vec::new();
    let mut i: usize = 0;
    while i < n
        invariant
            i <= n,
            res@ == index_range(i as nat),
        decreases n - i,
    {
        res.push(i);
        assert(index_range(i as nat + 1) =~= index_range(i as nat).push(i));
        i = i + 1;
    }
    res
}

/// Whether `process` matches the lower-cased search text `needle`.
pub fn process_matches_filter(process: &ProcessInfo, needle: Option<&Vec<char>>) -> (res: bool)
    ensures
        res == process_matches(*process, match needle {
            Some(n) => Some(n@),
            None => None,
        }),
{
    let nd = match needle {
        None => {
            return true;
        },
        Some(n) => n,
    };
    if contains_sub(&dec_chars(process.pid as u64), nd) {
        return true;
    }
    if contains_sub(&lowercase_chars(process.name.as_str()), nd) {
        return true;
    }
    let mut i: usize = 0;
    while i < process.cmd.len()
        invariant
            needle == Some(nd),
            i <= process.cmd.len(),
            forall|j: int| 0 <= j < i ==> !has_sub(lowercase(#[trigger] process.cmd@[j]@), nd@),
        decreases process.cmd.len() - i,
    {
        if contains_sub(&lowercase_chars(process.cmd[i].as_str()), nd) {
            assert(has_sub(lowercase(process.cmd@[i as int]@), nd@));
            return true;
        }
        i = i + 1;
    }
    match &process.exe {
        Some(exe) => contains_sub(&lowercase_chars(exe.as_str()), nd),
        None => false,
    }
}

fn flat_row_of(p: &ProcessInfo) -> (row: ProcessRow)
    ensures
        row@ == flat_row(*p),
{
    let mut line: Vec<char> = Vec::new();
    push_padded(&mut line, &dec_chars(p.pid as u64), 7);
    line.push(' ');
    push_padded(&mut line, &human_bytes_chars(p.memory), 8);
    line.push(' ');
    let mut cpu: Vec<char> = Vec::new();
    push_fixed2(&mut cpu, p.cpu_usage_bits);
    push_padded(&mut line, &cpu, 6);
    line.push('%');
    line.push(' ');
    push_padded(&mut line, &human_bytes_chars(p.disk_usage), 9);
    line.push(' ');
    push_chars(&mut line, &chars_of(p.name.as_str()));
    assert(line@ =~= flat_line(*p));
    ProcessRow { pid: p.pid, name: p.name.clone(), line: string_of_chars(&line) }
}

fn tree_row_of(p: &ProcessInfo, depth: usize) -> (row: ProcessRow)
    requires
        depth <= usize::MAX / 2,
    ensures
        row@ == tree_row(*p, depth as nat),
{
    let mut line: Vec<char> = Vec::new();
    push_spaces(&mut line, 2 * depth);
    push_chars(&mut line, &chars_of(p.name.as_str()));
    line.push(' ');
    line.push('[');
    push_dec(&mut line, p.pid as u64);
    line.push(']');
    line.push(' ');
    push_fixed2(&mut line, p.cpu_usage_bits);
    line.push('%');
    line.push(' ');
    push_chars(&mut line, &human_bytes_chars(p.memory));
    assert(line@ =~= tree_line(*p, depth as nat));
    ProcessRow { pid: p.pid, name: p.name.clone(), line: string_of_chars(&line) }
}

/// The list order that a sort setting selects.
fn order_for(by: ProcessSortBy) -> (res: ProcessOrder)
    ensures
        res == order_of(by),
{
    match by {
        ProcessSortBy::CpuUsage => ProcessOrder::Cpu,
        ProcessSortBy::Memory => ProcessOrder::Memory,
        ProcessSortBy::Pid => ProcessOrder::Pid,
        ProcessSortBy::Name => ProcessOrder::Name,
    }
}

/// The rows of the list view.
pub fn list_rows(procs: &Vec<ProcessInfo>, by: ProcessSortBy, needle: Option<&Vec<char>>) -> (rows: Vec<ProcessRow>)
    ensures
        row_views(rows@) == flat_rows(procs@, by, match needle {
            Some(n) => Some(n@),
            None => None,
        }),
{
    let ghost nd = match needle {
        Some(n) => Some(n@),
        None => None,
    };
    let names = process_names(procs);
    let all = index_range_vec(procs.len());
    let order = arrange(procs, &names, order_for(by), &all);
    let ghost pred = |i: usize| process_matches(procs@[i as int], nd);
    let ghost f = |i: usize| flat_row(procs@[i as int]);
    let mut rows: Vec<ProcessRow> = Vec::new();
    let mut k: usize = 0;
    assert(order@.take(0).filter(pred) =~= Seq::<usize>::empty()) by {
        reveal(Seq::filter);
    }
    while k < order.len()
        invariant
            k <= order.len(),
            forall|i: int| 0 <= i < order.len() ==> #[trigger] order@[i] < procs.len(),
            row_views(rows@) == order@.take(k as int).filter(pred).map_values(f),
            pred == (|i: usize| process_matches(procs@[i as int], nd)),
            f == (|i: usize| flat_row(procs@[i as int])),
            nd == match needle {
                Some(n) => Some(n@),
                None => None,
            },
        decreases order.len() - k,
    {
        let idx = order[k];
        proof {
            lemma_filter_take_step(order@, pred, k as int);
        }
        if process_matches_filter(&procs[idx], needle) {
            let row = flat_row_of(&procs[idx]);
            let ghost before = rows@;
            rows.push(row);
            assert(row_views(rows@) =~= row_views(before).push(f(idx)));
            assert(order@.take(k as int + 1).filter(pred).map_values(f) =~= order@.take(
                k as int,
            ).filter(pred).map_values(f).push(f(idx)));
        }
        k = k + 1;
    }
    assert(order@.take(order.len() as int) =~= order@);
    rows
}

/// The children of `parent`, in tree-sibling order.
fn children_of(procs: &Vec<ProcessInfo>, names: &Vec<Vec<char>>, parent: u32) -> (res: Vec<usize>)
    requires
        names.len() == procs.len(),
        forall|i: int| 0 <= i < procs.len() ==> #[trigger] names@[i]@ == procs@[i].name@,
    ensures
        res@ == children(procs@, parent),
        forall|i: int| 0 <= i < res.len() ==> #[trigger] res@[i] < procs.len(),
{
    let ghost pred = |i: usize| parent_key(procs@[i as int]) == parent;
    let ghost all = index_range(procs.len() as nat);
    let mut cands: Vec<usize> = Vec::new();
    let mut i: usize = 0;
    assert(all.take(0).filter(pred) =~= cands@) by {
        reveal(Seq::filter);
    }
    while i < procs.len()
        invariant
            i <= procs.len(),
            all == index_range(procs.len() as nat),
            pred == (|i: usize| parent_key(procs@[i as int]) == parent),
            cands@ == all.take(i as int).filter(pred),
            forall|j: int| 0 <= j < cands.len() ==> #[trigger] cands@[j] < i,
        decreases procs.len() - i,
    {
        proof {
            lemma_filter_take_step(all, pred, i as int);
        }
        let key = match procs[i].parent_pid {
            Some(pp) => pp,
            None => 0,
        };
        if key == parent {
            cands.push(i);
        }
        i = i + 1;
    }
    assert(all.take(procs.len() as int) =~= all);
    arrange(procs, names, ProcessOrder::Siblings, &cands)
}

/// Appends the rows of the subtree below `parent`.
fn push_subtree(
    procs: &Vec<ProcessInfo>,
    names: &Vec<Vec<char>>,
    parent: u32,
    depth: usize,
    needle: Option<&Vec<char>>,
    fuel: usize,
    rows: &mut Vec<ProcessRow>,
)
    requires
        names.len() == procs.len(),
        forall|i: int| 0 <= i < procs.len() ==> #[trigger] names@[i]@ == procs@[i].name@,
        depth + fuel <= usize::MAX / 2,
    ensures
        row_views(final(rows)@) == row_views(old(rows)@) + subtree_rows(procs@, parent, depth as nat, match needle {
            Some(n) => Some(n@),
            None => None,
        }, fuel as nat),
    decreases fuel,
{
    let ghost nd = match needle {
        Some(n) => Some(n@),
        None => None,
    };
    if fuel == 0 {
        assert(row_views(rows@) =~= row_views(rows@) + Seq::<RowView>::empty());
        return;
    }
    let kids = children_of(procs, names, parent);
    let ghost start = row_views(rows@);
    let mut k: usize = 0;
    assert(sibling_rows(procs@, kids@.take(0), depth as nat, nd, (fuel - 1) as nat) =~= Seq::<RowView>::empty());
    assert(row_views(rows@) =~= start + Seq::<RowView>::empty());
    while k < kids.len()
        invariant
            k <= kids.len(),
            names.len() == procs.len(),
            forall|i: int| 0 <= i < procs.len() ==> #[trigger] names@[i]@ == procs@[i].name@,
            forall|i: int| 0 <= i < kids.len() ==> #[trigger] kids@[i] < procs.len(),
            depth + fuel <= usize::MAX / 2,
            fuel >= 1,
            nd == match needle {
                Some(n) => Some(n@),
                None => None,
            },
            row_views(rows@) == start + sibling_rows(procs@, kids@.take(k as int), depth as nat, nd, (fuel - 1) as nat),
        decreases kids.len() - k,
    {
        let idx = kids[k];
        let ghost before = row_views(rows@);
        let ghost p = procs@[idx as int];
        let ghost own = if process_matches(p, nd) {
            seq![tree_row(p, depth as nat)]
        } else {
            Seq::<RowView>::empty()
        };
        if process_matches_filter(&procs[idx], needle) {
            rows.push(tree_row_of(&procs[idx], depth));
            assert(row_views(rows@) =~= before + own);
        } else {
            assert(row_views(rows@) =~= before + own);
        }
        let ghost mid = row_views(rows@);
        push_subtree(procs, names, procs[idx].pid, depth + 1, needle, fuel - 1, rows);
        proof {
            let kt = kids@.take(k as int + 1);
            assert(kt.drop_last() =~= kids@.take(k as int));
            assert(kt.last() == idx);
            assert(sibling_rows(procs@, kt, depth as nat, nd, (fuel - 1) as nat) == sibling_rows(
                procs@,
                kids@.take(k as int),
                depth as nat,
                nd,
                (fuel - 1) as nat,
            ) + own + subtree_rows(procs@, p.pid, depth as nat + 1, nd, (fuel - 1) as nat));
            assert(row_views(rows@) =~= start + sibling_rows(procs@, kt, depth as nat, nd, (fuel - 1) as nat));
        }
        k = k + 1;
    }
    assert(kids@.take(kids.len() as int) =~= kids@);
}

/// The rows of the tree view.
pub fn tree_view_rows(procs: &Vec<ProcessInfo>, needle: Option<&Vec<char>>) -> (rows: Vec<ProcessRow>)
    requires
        procs.len() < usize::MAX / 4,
    ensures
        row_views(rows@) == tree_rows(procs@, match needle {
            Some(n) => Some(n@),
            None => None,
        }),
{
    let names = process_names(procs);
    let mut rows: Vec<ProcessRow> = Vec::new();
    let fuel = procs.len() + 1;
    assert(row_views(rows@) =~= Seq::<RowView>::empty());
    push_subtree(procs, &names, 0, 0, needle, fuel, &mut rows);
    push_subtree(procs, &names, 1, 0, needle, fuel, &mut rows);
    assert(row_views(rows@) =~= tree_rows(procs@, match needle {
        Some(n) => Some(n@),
        None => None,
    }));
    rows
}

/// `String::pop`: removes the last character, if any.
#[verifier::external_body]
fn pop_char(s: &mut String)
    ensures
        final(s)@ == if old(s)@.len() > 0 {
            old(s)@.drop_last()
        } else {
            old(s)@
        },
{
    s.pop();
}

/// The termination dialog: which process, and whether `Yes` is selected.
#[derive(Debug)]
pub struct KillDialog {
    pub pid: u32,
    pub name: String,
    pub yes_selected: bool,
}

/// What the termination dialog holds, as values.
pub struct KillView {
    pub pid: u32,
    pub name: Seq<char>,
    pub yes_selected: bool,
}

impl View for KillDialog {
    type V = KillView;

    open spec fn view(&self) -> KillView {
        KillView { pid: self.pid, name: self.name@, yes_selected: self.yes_selected }
    }
}

/// A process the user confirmed to terminate.
#[derive(Debug)]
pub struct KillRequest {
    pub pid: u32,
    pub name: String,
}

/// How an attempt to terminate a process ended.
#[derive(Debug)]
pub enum KillOutcome {
    /// The signal was delivered.
    Sent,
    /// `kill` ran and failed; its exit status, as text.
    Failed(String),
    /// `kill` could not be run; the error, as text.
    NotRun(String),
}

/// The interaction state of the process panel, as values.
pub struct ProcessUi {
    pub show_tree: bool,
    pub filter_query: Seq<char>,
    pub search_mode: bool,
    pub search_input: Seq<char>,
    pub search_prev_filter: Seq<char>,
    pub kill_dialog: Option<KillView>,
    pub status_message: Option<Seq<char>>,
}

/// The process panel.
pub struct ProcessComponent {
    pub processes: Vec<ProcessInfo>,
    pub process_sort_by: ProcessSortBy,
    pub theme: Theme,
    pub selected_index: usize,
    pub show_tree: bool,
    pub filter_query: String,
    pub search_mode: bool,
    pub search_input: String,
    pub search_prev_filter: String,
    pub kill_dialog: Option<KillDialog>,
    pub status_message: Option<String>,
}

/// The text the list is filtered by: what is being typed while searching,
/// the applied filter otherwise.
pub open spec fn current_filter(ui: ProcessUi) -> Seq<char> {
    if ui.search_mode {
        ui.search_input
    } else {
        ui.filter_query
    }
}

/// The search text the list is matched against: the current filter trimmed
/// and lower-cased, or none when it is blank.
pub open spec fn needle_of(ui: ProcessUi) -> Option<Seq<char>> {
    let raw = trim_seq(current_filter(ui));
    if raw.len() == 0 {
        None
    } else {
        Some(lowercase(raw))
    }
}

/// The rows the panel shows.
pub open spec fn rows_for(procs: Seq<ProcessInfo>, by: ProcessSortBy, ui: ProcessUi) -> Seq<RowView> {
    if ui.show_tree {
        tree_rows(procs, needle_of(ui))
    } else {
        flat_rows(procs, by, needle_of(ui))
    }
}

/// The row under the selection: the selected index, held to the last row.
pub open spec fn selected_of(rows: Seq<RowView>, index: usize) -> Option<RowView> {
    if rows.len() == 0 {
        None
    } else if index < rows.len() {
        Some(rows[index as int])
    } else {
        Some(rows.last())
    }
}

/// A selection held within `count` rows.
pub open spec fn clamped(index: usize, count: nat) -> usize {
    if count == 0 {
        0
    } else if index >= count {
        (count - 1) as usize
    } else {
        index
    }
}

/// The status text after a search is cancelled.
pub open spec fn search_canceled_text() -> Seq<char> {
    "Search canceled"@
}

/// The status text when there is nothing to terminate.
pub open spec fn no_process_text() -> Seq<char> {
    "No process selected"@
}

/// The status text after the dialog is dismissed.
pub open spec fn termination_canceled_text() -> Seq<char> {
    "Termination canceled"@
}

/// How an action changes the interaction state; `selected` is the row under
/// the selection before the action.
pub open spec fn ui_next(ui: ProcessUi, action: Action, selected: Option<RowView>) -> ProcessUi {
    let modal = ui.kill_dialog is Some;
    match action {
        Action::ToggleProcessTree => if !modal && !ui.search_mode {
            ProcessUi { show_tree: !ui.show_tree, ..ui }
        } else {
            ui
        },
        Action::StartProcessSearch => if !modal {
            ProcessUi {
                search_prev_filter: ui.filter_query,
                search_input: ui.filter_query,
                search_mode: true,
                status_message: None,
                ..ui
            }
        } else {
            ui
        },
        Action::UpdateProcessSearch(c) => if ui.search_mode {
            ProcessUi { search_input: ui.search_input.push(c), ..ui }
        } else {
            ui
        },
        Action::BackspaceProcessSearch => if ui.search_mode && ui.search_input.len() > 0 {
            ProcessUi { search_input: ui.search_input.drop_last(), ..ui }
        } else {
            ui
        },
        Action::ConfirmProcessSearch => if ui.search_mode {
            ProcessUi {
                filter_query: trim_seq(ui.search_input),
                search_mode: false,
                search_input: Seq::empty(),
                search_prev_filter: Seq::empty(),
                status_message: None,
                ..ui
            }
        } else {
            ui
        },
        Action::CancelProcessSearch => if ui.search_mode {
            ProcessUi {
                filter_query: ui.search_prev_filter,
                search_mode: false,
                search_input: Seq::empty(),
                search_prev_filter: Seq::empty(),
                status_message: Some(search_canceled_text()),
                ..ui
            }
        } else {
            ui
        },
        Action::RequestProcessKill => if ui.search_mode {
            ui
        } else {
            match selected {
                Some(row) => ProcessUi {
                    kill_dialog: Some(KillView { pid: row.pid, name: row.name, yes_selected: true }),
                    status_message: None,
                    ..ui
                },
                None => ProcessUi { status_message: Some(no_process_text()), ..ui },
            }
        },
        Action::ToggleProcessKillChoice => match ui.kill_dialog {
            Some(d) => ProcessUi {
                kill_dialog: Some(KillView { yes_selected: !d.yes_selected, ..d }),
                ..ui
            },
            None => ui,
        },
        Action::ConfirmProcessKill => match ui.kill_dialog {
            Some(d) => ProcessUi {
                kill_dialog: None,
                status_message: if d.yes_selected {
                    ui.status_message
                } else {
                    Some(termination_canceled_text())
                },
                ..ui
            },
            None => ui,
        },
        Action::CancelProcessKill => if modal {
            ProcessUi { kill_dialog: None, status_message: Some(termination_canceled_text()), ..ui }
        } else {
            ui
        },
        _ => ui,
    }
}

/// The process whose termination an action confirms, if any.
pub open spec fn kill_request_of(ui: ProcessUi, action: Action) -> Option<(u32, Seq<char>)> {
    match action {
        Action::ConfirmProcessKill => match ui.kill_dialog {
            Some(d) => if d.yes_selected {
                Some((d.pid, d.name))
            } else {
                None
            },
            None => None,
        },
        _ => None,
    }
}

/// The selection after an action, before it is held within the rows; `count`
/// is the number of rows before the action.
pub open spec fn moved_selection(ui: ProcessUi, action: Action, index: usize, count: nat) -> usize {
    let free = ui.kill_dialog is None && !ui.search_mode;
    match action {
        Action::MoveUp => if free && index > 0 {
            (index - 1) as usize
        } else {
            index
        },
        Action::MoveDown => if free && count > 0 && index < count - 1 {
            (index + 1) as usize
        } else {
            index
        },
        Action::UpdateProcessSearch(_) | Action::BackspaceProcessSearch
        | Action::ConfirmProcessSearch | Action::CancelProcessSearch => if ui.search_mode {
            0
        } else {
            index
        },
        _ => index,
    }
}

/// The status text after a termination attempt.
pub open spec fn kill_outcome_text(pid: u32, name: Seq<char>, outcome: KillOutcome) -> Seq<char> {
    match outcome {
        KillOutcome::Sent => "SIGTERM sent to "@ + name + " ("@ + dec(pid as nat) + ")"@,
        KillOutcome::Failed(status) => "Failed to terminate PID "@ + dec(pid as nat) + " (exit "@ + status@
            + ")"@,
        KillOutcome::NotRun(err) => "Failed to run kill for PID "@ + dec(pid as nat) + ": "@ + err@,
    }
}

/// The interaction state of the panel together with its selection.
pub struct PanelView {
    pub ui: ProcessUi,
    pub selected_index: usize,
}

/// How an action changes the panel over the processes `procs` listed by
/// `by`: the interaction state, and the selection held within the rows.
pub open spec fn panel_step(procs: Seq<ProcessInfo>, by: ProcessSortBy, v: PanelView, action: Action) -> PanelView {
    let rows = rows_for(procs, by, v.ui);
    let ui = ui_next(v.ui, action, selected_of(rows, v.selected_index));
    PanelView {
        ui: ui,
        selected_index: clamped(moved_selection(v.ui, action, v.selected_index, rows.len()), rows_for(procs, by, ui).len()),
    }
}

/// The panel after the actions `actions`, in order.
pub open spec fn panel_run(procs: Seq<ProcessInfo>, by: ProcessSortBy, v: PanelView, actions: Seq<Action>) -> PanelView
    decreases actions.len(),
{
    if actions.len() == 0 {
        v
    } else {
        panel_step(procs, by, panel_run(procs, by, v, actions.drop_last()), actions.last())
    }
}

impl ProcessComponent {
    /// The interaction state and the selection, as values.
    pub open spec fn panel(&self) -> PanelView {
        PanelView { ui: self.ui(), selected_index: self.selected_index }
    }

    /// The interaction state, as values.
    pub open spec fn ui(&self) -> ProcessUi {
        ProcessUi {
            show_tree: self.show_tree,
            filter_query: self.filter_query@,
            search_mode: self.search_mode,
            search_input: self.search_input@,
            search_prev_filter: self.search_prev_filter@,
            kill_dialog: match self.kill_dialog {
                Some(d) => Some(d@),
                None => None,
            },
            status_message: match self.status_message {
                Some(s) => Some(s@),
                None => None,
            },
        }
    }

    /// The rows the panel shows.
    pub open spec fn rows(&self) -> Seq<RowView> {
        rows_for(self.processes@, self.process_sort_by, self.ui())
    }

    /// A process list small enough that tree depths can be counted.
    pub open spec fn fits(&self) -> bool {
        self.processes.len() < usize::MAX / 4
    }

    pub fn new(processes: Vec<ProcessInfo>, process_sort_by: ProcessSortBy, theme: Theme) -> (res: Self)
        ensures
            res.processes == processes,
            res.process_sort_by == process_sort_by,
            res.theme == theme,
            res.selected_index == 0,
            !res.show_tree,
            res.filter_query@ == Seq::<char>::empty(),
            !res.search_mode,
            res.search_input@ == Seq::<char>::empty(),
            res.search_prev_filter@ == Seq::<char>::empty(),
            res.kill_dialog is None,
            res.status_message is None,
    {
        Self {
            processes,
            process_sort_by,
            theme,
            selected_index: 0,
            show_tree: false,
            filter_query: String::new(),
            search_mode: false,
            search_input: String::new(),
            search_prev_filter: String::new(),
            kill_dialog: None,
            status_message: None,
        }
    }

    pub fn is_search_mode(&self) -> (res: bool)
        ensures
            res == self.search_mode,
    {
        self.search_mode
    }

    pub fn is_kill_confirm_active(&self) -> (res: bool)
        ensures
            res == (self.kill_dialog is Some),
    {
        self.kill_dialog.is_some()
    }

    /// The search text the list is matched against.
    fn normalized_filter(&self) -> (res: Option<Vec<char>>)
        ensures
            match res {
                Some(n) => needle_of(self.ui()) == Some(n@),
                None => needle_of(self.ui()) is None,
            },
    {
        let raw_src = if self.search_mode {
            chars_of(self.search_input.as_str())
        } else {
            chars_of(self.filter_query.as_str())
        };
        let raw = trim(&raw_src);
        if raw.len() == 0 {
            None
        } else {
            let s = string_of_chars(&raw);
            Some(lowercase_chars(s.as_str()))
        }
    }

    /// The rows the panel shows.
    pub fn get_process_rows(&self) -> (rows: Vec<ProcessRow>)
        requires
            self.fits(),
        ensures
            row_views(rows@) == self.rows(),
    {
        let needle = self.normalized_filter();
        let nref: Option<&Vec<char>> = match &needle {
            Some(n) => Some(n),
            None => None,
        };
        if self.show_tree {
            tree_view_rows(&self.processes, nref)
        } else {
            list_rows(&self.processes, self.process_sort_by, nref)
        }
    }

    /// The row under the selection.
    pub fn selected_row(&self) -> (res: Option<ProcessRow>)
        requires
            self.fits(),
        ensures
            match res {
                Some(r) => selected_of(self.rows(), self.selected_index) == Some(r@),
                None => selected_of(self.rows(), self.selected_index) is None,
            },
    {
        let mut rows = self.get_process_rows();
        if rows.len() == 0 {
            None
        } else {
            let last = rows.len() - 1;
            let idx = if self.selected_index < last { self.selected_index } else { last };
            let ghost views = row_views(rows@);
            let r = rows.swap_remove(idx);
            assert(r@ == views[idx as int]);
            Some(r)
        }
    }

    /// Holds the selection within the rows.
    fn clamp_selected_index(&mut self)
        requires
            old(self).fits(),
        ensures
            final(self).selected_index == clamped(old(self).selected_index, old(self).rows().len()),
            final(self).processes == old(self).processes,
            final(self).process_sort_by == old(self).process_sort_by,
            final(self).ui() == old(self).ui(),
            final(self).theme == old(self).theme,
            old(self).rows().len() <= usize::MAX,
    {
        let rows = self.get_process_rows();
        let count = rows.len();
        assert(row_views(rows@).len() == rows@.len());
        if count == 0 {
            self.selected_index = 0;
        } else if self.selected_index >= count {
            self.selected_index = count - 1;
        }
    }
}

impl ProcessComponent {
    /// Reacts to an action. Returns the process to terminate when the user
    /// confirms the dialog with `Yes`; the caller sends the signal and reports
    /// the outcome with [`ProcessComponent::kill_finished`].
    pub fn update(&mut self, action: Action) -> (res: Option<KillRequest>)
        requires
            old(self).fits(),
        ensures
            final(self).processes == old(self).processes,
            final(self).process_sort_by == old(self).process_sort_by,
            final(self).theme == old(self).theme,
            final(self).ui() == ui_next(
                old(self).ui(),
                action,
                selected_of(old(self).rows(), old(self).selected_index),
            ),
            final(self).selected_index == clamped(
                moved_selection(old(self).ui(), action, old(self).selected_index, old(self).rows().len()),
                final(self).rows().len(),
            ),
            match res {
                Some(k) => kill_request_of(old(self).ui(), action) == Some((k.pid, k.name@)),
                None => kill_request_of(old(self).ui(), action) is None,
            },
            final(self).rows().len() == 0 ==> final(self).selected_index == 0,
            final(self).rows().len() > 0 ==> final(self).selected_index < final(self).rows().len(),
            final(self).rows().len() <= usize::MAX,
            final(self).panel() == panel_step(old(self).processes@, old(self).process_sort_by, old(self).panel(), action),
            action is MoveDown && old(self).ui().kill_dialog is None && !old(self).ui().search_mode
                ==> old(self).rows().len() <= usize::MAX,
    {
        let ghost old_ui = self.ui();
        let ghost old_rows = self.rows();
        let ghost old_sel = selected_of(self.rows(), self.selected_index);
        let mut kill: Option<KillRequest> = None;
        match action {
            Action::MoveUp => {
                if self.kill_dialog.is_none() && !self.search_mode && self.selected_index > 0 {
                    self.selected_index = self.selected_index - 1;
                }
            },
            Action::MoveDown => {
                if self.kill_dialog.is_none() && !self.search_mode {
                    let rows = self.get_process_rows();
                    let process_count = rows.len();
                    assert(row_views(rows@).len() == rows@.len());
                    if process_count > 0 && self.selected_index < process_count - 1 {
                        self.selected_index = self.selected_index + 1;
                    }
                }
            },
            Action::ToggleProcessTree => {
                if self.kill_dialog.is_none() && !self.search_mode {
                    self.show_tree = !self.show_tree;
                    self.clamp_selected_index();
                }
            },
            Action::StartProcessSearch => {
                if self.kill_dialog.is_none() {
                    self.search_prev_filter = self.filter_query.clone();
                    self.search_input = self.filter_query.clone();
                    self.search_mode = true;
                    self.status_message = None;
                    self.clamp_selected_index();
                }
            },
            Action::UpdateProcessSearch(c) => {
                if self.search_mode {
                    push_char(&mut self.search_input, c);
                    self.selected_index = 0;
                    self.clamp_selected_index();
                }
            },
            Action::BackspaceProcessSearch => {
                if self.search_mode {
                    pop_char(&mut self.search_input);
                    self.selected_index = 0;
                    self.clamp_selected_index();
                }
            },
            Action::ConfirmProcessSearch => {
                if self.search_mode {
                    self.filter_query = string_of_chars(&trim(&chars_of(self.search_input.as_str())));
                    self.search_mode = false;
                    self.search_input = String::new();
                    self.search_prev_filter = String::new();
                    self.selected_index = 0;
                    self.status_message = None;
                    self.clamp_selected_index();
                }
            },
            Action::CancelProcessSearch => {
                if self.search_mode {
                    self.filter_query = self.search_prev_filter.clone();
                    self.search_mode = false;
                    self.search_input = String::new();
                    self.search_prev_filter = String::new();
                    self.selected_index = 0;
                    self.status_message = Some(String::from_str("Search canceled"));
                    self.clamp_selected_index();
                }
            },
            Action::RequestProcessKill => {
                if !self.search_mode {
                    match self.selected_row() {
                        Some(row) => {
                            self.kill_dialog = Some(
                                KillDialog { pid: row.pid, name: row.name, yes_selected: true },
                            );
                            self.status_message = None;
                        },
                        None => {
                            self.status_message = Some(String::from_str("No process selected"));
                        },
                    }
                }
            },
            Action::ToggleProcessKillChoice => {
                match self.kill_dialog.take() {
                    Some(d) => {
                        self.kill_dialog = Some(
                            KillDialog { pid: d.pid, name: d.name, yes_selected: !d.yes_selected },
                        );
                    },
                    None => {},
                }
            },
            Action::ConfirmProcessKill => {
                match self.kill_dialog.take() {
                    Some(d) => {
                        if d.yes_selected {
                            kill = Some(KillRequest { pid: d.pid, name: d.name });
                        } else {
                            self.status_message = Some(String::from_str("Termination canceled"));
                        }
                    },
                    None => {},
                }
            },
            Action::CancelProcessKill => {
                if self.kill_dialog.take().is_some() {
                    self.status_message = Some(String::from_str("Termination canceled"));
                }
            },
            _ => {},
        }
        assert(self.ui() =~= ui_next(old_ui, action, old_sel));
        self.clamp_selected_index();
        kill
    }

    /// Records how the termination of `pid` (named `name`) ended.
    pub fn kill_finished(&mut self, pid: u32, name: &str, outcome: KillOutcome)
        ensures
            final(self).status_message matches Some(s) && s@ == kill_outcome_text(pid, name@, outcome),
            final(self).processes == old(self).processes,
            final(self).process_sort_by == old(self).process_sort_by,
            final(self).theme == old(self).theme,
            final(self).selected_index == old(self).selected_index,
            final(self).show_tree == old(self).show_tree,
            final(self).filter_query == old(self).filter_query,
            final(self).search_mode == old(self).search_mode,
            final(self).search_input == old(self).search_input,
            final(self).search_prev_filter == old(self).search_prev_filter,
            final(self).kill_dialog == old(self).kill_dialog,
    {
        let mut msg: Vec<char> = Vec::new();
        let ghost expected = kill_outcome_text(pid, name@, outcome);
        match &outcome {
            KillOutcome::Sent => {
                crate::text::push_str(&mut msg, "SIGTERM sent to ");
                crate::text::push_str(&mut msg, name);
                crate::text::push_str(&mut msg, " (");
                push_dec(&mut msg, pid as u64);
                crate::text::push_str(&mut msg, ")");
            },
            KillOutcome::Failed(status) => {
                crate::text::push_str(&mut msg, "Failed to terminate PID ");
                push_dec(&mut msg, pid as u64);
                crate::text::push_str(&mut msg, " (exit ");
                crate::text::push_str(&mut msg, status.as_str());
                crate::text::push_str(&mut msg, ")");
            },
            KillOutcome::NotRun(err) => {
                crate::text::push_str(&mut msg, "Failed to run kill for PID ");
                push_dec(&mut msg, pid as u64);
                crate::text::push_str(&mut msg, ": ");
                crate::text::push_str(&mut msg, err.as_str());
            },
        }
        assert(msg@ =~= expected);
        self.status_message = Some(string_of_chars(&msg));
    }
}

// ---------------------------------------------------------------------------
// Laws of the interaction state
// ---------------------------------------------------------------------------

/// The search box and the termination dialog are never open together.
pub open spec fn modes_exclusive(ui: ProcessUi) -> bool {
    !(ui.search_mode && ui.kill_dialog is Some)
}

/// An editing action of the search box: typing a character or deleting one.
pub open spec fn is_search_edit(action: Action) -> bool {
    action is UpdateProcessSearch || action is BackspaceProcessSearch
}

/// The state after the editing actions `edits`, in order.
pub open spec fn after_edits(ui: ProcessUi, edits: Seq<Action>) -> ProcessUi
    decreases edits.len(),
{
    if edits.len() == 0 {
        ui
    } else {
        ui_next(after_edits(ui, edits.drop_last()), edits.last(), None)
    }
}

/// `edits` types the characters `cs`, one action per character.
pub open spec fn types_chars(edits: Seq<Action>, cs: Seq<char>) -> bool {
    &&& edits.len() == cs.len()
    &&& forall|i: int| 0 <= i < edits.len() ==> (#[trigger] edits[i] matches Action::UpdateProcessSearch(c) && c == cs[i])
}

/// Every action keeps the search box and the dialog from being open together.
pub proof fn lemma_modes_stay_exclusive(ui: ProcessUi, action: Action, selected: Option<RowView>)
    requires
        modes_exclusive(ui),
    ensures
        modes_exclusive(ui_next(ui, action, selected)),
{
}

proof fn lemma_edits_keep_search(ui: ProcessUi, edits: Seq<Action>)
    requires
        ui.search_mode,
        ui.kill_dialog is None,
        forall|i: int| 0 <= i < edits.len() ==> is_search_edit(#[trigger] edits[i]),
    ensures
        after_edits(ui, edits).search_mode,
        after_edits(ui, edits).kill_dialog is None,
        after_edits(ui, edits).filter_query == ui.filter_query,
        after_edits(ui, edits).search_prev_filter == ui.search_prev_filter,
    decreases edits.len(),
{
    if edits.len() > 0 {
        lemma_edits_keep_search(ui, edits.drop_last());
        assert(is_search_edit(edits[edits.len() - 1]));
    }
}

/// Starting a search, editing it in any way and cancelling it leaves the
/// filter as it was before the search began.
pub proof fn lemma_cancelled_search_restores_filter(
    ui: ProcessUi,
    edits: Seq<Action>,
    selected: Option<RowView>,
    selected_later: Option<RowView>,
)
    requires
        !ui.search_mode,
        ui.kill_dialog is None,
        forall|i: int| 0 <= i < edits.len() ==> is_search_edit(#[trigger] edits[i]),
    ensures
        ({
            let searching = after_edits(ui_next(ui, Action::StartProcessSearch, selected), edits);
            let done = ui_next(searching, Action::CancelProcessSearch, selected_later);
            &&& done.filter_query == ui.filter_query
            &&& !done.search_mode
            &&& done.search_input.len() == 0
            &&& done.status_message == Some(search_canceled_text())
        }),
{
    lemma_edits_keep_search(ui_next(ui, Action::StartProcessSearch, selected), edits);
}

/// The search looks at every field it names: a process whose PID, name, any
/// command-line part or executable path (the last three lower-cased)
/// contains the search text matches it; without a search text every process
/// matches; and a process matches only through one of these fields.
pub proof fn lemma_search_fields(p: ProcessInfo, n: Seq<char>)
    ensures
        process_matches(p, None),
        has_sub(dec(p.pid as nat), n) ==> process_matches(p, Some(n)),
        has_sub(lowercase(p.name@), n) ==> process_matches(p, Some(n)),
        forall|i: int| 0 <= i < p.cmd.len() && has_sub(lowercase((#[trigger] p.cmd@[i])@), n)
            ==> process_matches(p, Some(n)),
        (p.exe matches Some(e) && has_sub(lowercase(e@), n)) ==> process_matches(p, Some(n)),
        process_matches(p, Some(n)) ==> has_sub(dec(p.pid as nat), n) || has_sub(lowercase(p.name@), n)
            || (exists|i: int| 0 <= i < p.cmd.len() && has_sub(lowercase((#[trigger] p.cmd@[i])@), n))
            || (p.exe matches Some(e) && has_sub(lowercase(e@), n)),
{
}

/// The list view shows exactly the matching processes: each process that
/// matches the search has its row in the list, and each row of the list is
/// that of a matching process.
pub proof fn lemma_list_shows_matching_processes(procs: Seq<ProcessInfo>, by: ProcessSortBy, needle: Option<Seq<char>>)
    requires
        procs.len() <= usize::MAX,
    ensures
        forall|i: int| 0 <= i < procs.len() && process_matches(procs[i], needle)
            ==> flat_rows(procs, by, needle).contains(#[trigger] flat_row(procs[i])),
        forall|r: RowView| #[trigger] flat_rows(procs, by, needle).contains(r) ==> exists|i: int|
            0 <= i < procs.len() && process_matches(procs[i], needle) && r == flat_row(procs[i]),
{
    let cands = index_range(procs.len());
    let sorted = arranged(procs, order_of(by), cands);
    let pred = |i: usize| process_matches(procs[i as int], needle);
    let kept = sorted.filter(pred);
    let rows = kept.map_values(|i: usize| flat_row(procs[i as int]));
    assert(rows == flat_rows(procs, by, needle));
    lemma_arranged_same_members(procs, order_of(by), cands);
    sorted.filter_lemma(pred);
    assert forall|i: int| 0 <= i < procs.len() && process_matches(procs[i], needle)
        implies flat_rows(procs, by, needle).contains(#[trigger] flat_row(procs[i])) by {
        assert(cands[i] == i as usize);
        assert(cands.contains(i as usize));
        assert(sorted.contains(i as usize));
        let k = choose|k: int| 0 <= k < sorted.len() && sorted[k] == i as usize;
        assert((i as usize) as int == i);
        assert(pred(sorted[k]));
        assert(kept.contains(sorted[k]));
        let m = choose|m: int| 0 <= m < kept.len() && kept[m] == i as usize;
        assert(rows[m] == flat_row(procs[i]));
    }
    assert forall|r: RowView| #[trigger] flat_rows(procs, by, needle).contains(r) implies exists|i: int|
        0 <= i < procs.len() && process_matches(procs[i], needle) && r == flat_row(procs[i]) by {
        let m = choose|m: int| 0 <= m < rows.len() && rows[m] == r;
        let x = kept[m];
        assert(pred(x));
        assert(kept.contains(x));
        sorted.lemma_filter_contains_rev(pred, x);
        assert(cands.contains(x));
        let k = choose|k: int| 0 <= k < cands.len() && cands[k] == x;
        assert(r == flat_row(procs[x as int]));
    }
}

/// `chain` leads down from `root`: the first process's parent is `root`, and
/// each next process's parent is the one before it.
pub open spec fn parent_chain(procs: Seq<ProcessInfo>, root: u32, chain: Seq<usize>) -> bool {
    &&& chain.len() > 0
    &&& forall|k: int| 0 <= k < chain.len() ==> (#[trigger] chain[k]) < procs.len()
    &&& parent_key(procs[chain[0] as int]) == root
    &&& forall|k: int| 0 < k < chain.len() ==> parent_key(procs[(#[trigger] chain[k]) as int]) == procs[chain[k - 1] as int].pid
}

/// No index stands twice in `s`.
pub open spec fn no_repeats(s: Seq<usize>) -> bool {
    forall|j: int, k: int| 0 <= j < k < s.len() ==> s[j] != s[k]
}

proof fn lemma_concat_contains<A>(a: Seq<A>, b: Seq<A>, x: A)
    ensures
        a.contains(x) ==> (a + b).contains(x),
        b.contains(x) ==> (a + b).contains(x),
{
    if a.contains(x) {
        let i = choose|i: int| 0 <= i < a.len() && a[i] == x;
        assert((a + b)[i] == x);
    }
    if b.contains(x) {
        let i = choose|i: int| 0 <= i < b.len() && b[i] == x;
        assert((a + b)[a.len() + i] == x);
    }
}

proof fn lemma_distinct_indices_bound(s: Seq<usize>, n: nat)
    requires
        forall|k: int| 0 <= k < s.len() ==> (#[trigger] s[k]) < n,
        no_repeats(s),
    ensures
        s.len() <= n,
    decreases n,
{
    if n == 0 {
        if s.len() > 0 {
            assert(s[0] < n);
        }
    } else {
        let top = (n - 1) as usize;
        if exists|k: int| 0 <= k < s.len() && s[k] == top {
            let k = choose|k: int| 0 <= k < s.len() && s[k] == top;
            let t = s.subrange(0, k) + s.subrange(k + 1, s.len() as int);
            assert forall|m: int| 0 <= m < t.len() implies (#[trigger] t[m]) < (n - 1) as nat by {
                if m < k {
                    assert(t[m] == s[m]);
                    assert(s[m] != s[k]);
                } else {
                    assert(t[m] == s[m + 1]);
                    assert(s[k] != s[m + 1]);
                }
            }
            assert forall|a: int, b: int| 0 <= a < b < t.len() implies t[a] != t[b] by {
                let sa = if a < k { a } else { a + 1 };
                let sb = if b < k { b } else { b + 1 };
                assert(t[a] == s[sa] && t[b] == s[sb]);
            }
            lemma_distinct_indices_bound(t, (n - 1) as nat);
        } else {
            assert forall|m: int| 0 <= m < s.len() implies (#[trigger] s[m]) < (n - 1) as nat by {
                assert(s[m] != top);
            }
            lemma_distinct_indices_bound(s, (n - 1) as nat);
        }
    }
}

proof fn lemma_children_contain(procs: Seq<ProcessInfo>, parent: u32, i: usize)
    requires
        procs.len() <= usize::MAX,
        i < procs.len(),
        parent_key(procs[i as int]) == parent,
    ensures
        children(procs, parent).contains(i),
{
    let cands = index_range(procs.len());
    let pred = |x: usize| parent_key(procs[x as int]) == parent;
    assert(cands[i as int] == i);
    cands.filter_lemma(pred);
    assert(cands.filter(pred).contains(i));
    lemma_arranged_same_members(procs, ProcessOrder::Siblings, cands.filter(pred));
}

proof fn lemma_siblings_contain(
    procs: Seq<ProcessInfo>,
    kids: Seq<usize>,
    j: int,
    depth: nat,
    needle: Option<Seq<char>>,
    fuel: nat,
    r: RowView,
)
    requires
        0 <= j < kids.len(),
        (process_matches(procs[kids[j] as int], needle) && r == tree_row(procs[kids[j] as int], depth))
            || subtree_rows(procs, procs[kids[j] as int].pid, depth + 1, needle, fuel).contains(r),
    ensures
        sibling_rows(procs, kids, depth, needle, fuel).contains(r),
    decreases kids.len(),
{
    let p = procs[kids.last() as int];
    let own = if process_matches(p, needle) {
        seq![tree_row(p, depth)]
    } else {
        Seq::empty()
    };
    let before = sibling_rows(procs, kids.drop_last(), depth, needle, fuel);
    let sub = subtree_rows(procs, p.pid, depth + 1, needle, fuel);
    assert(sibling_rows(procs, kids, depth, needle, fuel) == before + own + sub);
    if j == kids.len() - 1 {
        if process_matches(p, needle) && r == tree_row(p, depth) {
            assert(own[0] == r);
            lemma_concat_contains(before, own, r);
            lemma_concat_contains(before + own, sub, r);
        } else {
            lemma_concat_contains(before + own, sub, r);
        }
    } else {
        assert(kids.drop_last()[j] == kids[j]);
        lemma_siblings_contain(procs, kids.drop_last(), j, depth, needle, fuel, r);
        lemma_concat_contains(before, own, r);
        lemma_concat_contains(before + own, sub, r);
    }
}

proof fn lemma_subtree_contains(
    procs: Seq<ProcessInfo>,
    parent: u32,
    depth: nat,
    needle: Option<Seq<char>>,
    fuel: nat,
    chain: Seq<usize>,
)
    requires
        procs.len() <= usize::MAX,
        parent_chain(procs, parent, chain),
        fuel >= chain.len(),
        process_matches(procs[chain.last() as int], needle),
    ensures
        subtree_rows(procs, parent, depth, needle, fuel).contains(
            tree_row(procs[chain.last() as int], (depth + chain.len() - 1) as nat),
        ),
    decreases chain.len(),
{
    let kids = children(procs, parent);
    assert(chain[0] < procs.len());
    lemma_children_contain(procs, parent, chain[0]);
    let j = choose|j: int| 0 <= j < kids.len() && kids[j] == chain[0];
    let target = tree_row(procs[chain.last() as int], (depth + chain.len() - 1) as nat);
    assert(subtree_rows(procs, parent, depth, needle, fuel) == sibling_rows(procs, kids, depth, needle, (fuel - 1) as nat));
    if chain.len() == 1 {
        assert(chain.last() == chain[0]);
        lemma_siblings_contain(procs, kids, j, depth, needle, (fuel - 1) as nat, target);
    } else {
        let rest = chain.drop_first();
        let below = procs[chain[0] as int].pid;
        assert forall|k: int| 0 <= k < rest.len() implies (#[trigger] rest[k]) < procs.len() by {
            assert(rest[k] == chain[k + 1]);
        }
        assert forall|k: int| 0 < k < rest.len() implies parent_key(procs[(#[trigger] rest[k]) as int])
            == procs[rest[k - 1] as int].pid by {
            assert(rest[k] == chain[k + 1]);
            assert(rest[k - 1] == chain[k]);
        }
        assert(rest[0] == chain[1]);
        assert(parent_key(procs[chain[1] as int]) == below);
        assert(rest.last() == chain.last());
        lemma_subtree_contains(procs, below, depth + 1, needle, (fuel - 1) as nat, rest);
        assert((depth + 1 + rest.len() - 1) as nat == (depth + chain.len() - 1) as nat);
        lemma_siblings_contain(procs, kids, j, depth, needle, (fuel - 1) as nat, target);
    }
}

/// The tree view shows every descendant of PID 0 and PID 1: a process
/// reached from one of them through a chain of parents in which no process
/// repeats stands in the rows, at the depth of the chain (the number of
/// processes above it), when it matches the search.
pub proof fn lemma_tree_shows_descendants(
    procs: Seq<ProcessInfo>,
    needle: Option<Seq<char>>,
    root: u32,
    chain: Seq<usize>,
)
    requires
        procs.len() <= usize::MAX,
        root == 0 || root == 1,
        parent_chain(procs, root, chain),
        no_repeats(chain),
        process_matches(procs[chain.last() as int], needle),
    ensures
        tree_rows(procs, needle).contains(tree_row(procs[chain.last() as int], (chain.len() - 1) as nat)),
{
    lemma_distinct_indices_bound(chain, procs.len());
    let fuel = procs.len() + 1;
    let row = tree_row(procs[chain.last() as int], (chain.len() - 1) as nat);
    lemma_subtree_contains(procs, root, 0, needle, fuel, chain);
    assert((0 + chain.len() - 1) as nat == (chain.len() - 1) as nat);
    lemma_concat_contains(subtree_rows(procs, 0, 0, needle, fuel), subtree_rows(procs, 1, 0, needle, fuel), row);
}

/// An action that may come while a search is typed: an edit of the search
/// text, or a move of the selection.
pub open spec fn is_search_step(action: Action) -> bool {
    is_search_edit(action) || action is MoveUp || action is MoveDown
}

proof fn lemma_run_prepend(procs: Seq<ProcessInfo>, by: ProcessSortBy, v: PanelView, a: Action, rest: Seq<Action>)
    ensures
        panel_run(procs, by, v, seq![a] + rest) == panel_run(procs, by, panel_step(procs, by, v, a), rest),
    decreases rest.len(),
{
    let all = seq![a] + rest;
    if rest.len() == 0 {
        assert(all.drop_last() =~= Seq::<Action>::empty());
        assert(all.last() == a);
        assert(panel_run(procs, by, v, all.drop_last()) == v);
        assert(panel_run(procs, by, panel_step(procs, by, v, a), rest) == panel_step(procs, by, v, a));
    } else {
        lemma_run_prepend(procs, by, v, a, rest.drop_last());
        assert(all.drop_last() =~= seq![a] + rest.drop_last());
        assert(all.last() == rest.last());
    }
}

proof fn lemma_search_steps_keep_search(procs: Seq<ProcessInfo>, by: ProcessSortBy, v: PanelView, steps: Seq<Action>)
    requires
        v.ui.search_mode,
        v.ui.kill_dialog is None,
        forall|i: int| 0 <= i < steps.len() ==> is_search_step(#[trigger] steps[i]),
    ensures
        panel_run(procs, by, v, steps).ui.search_mode,
        panel_run(procs, by, v, steps).ui.kill_dialog is None,
        panel_run(procs, by, v, steps).ui.filter_query == v.ui.filter_query,
        panel_run(procs, by, v, steps).ui.search_prev_filter == v.ui.search_prev_filter,
    decreases steps.len(),
{
    if steps.len() > 0 {
        lemma_search_steps_keep_search(procs, by, v, steps.drop_last());
        assert(is_search_step(steps[steps.len() - 1]));
    }
}

/// Starting a search, then editing it and moving the selection any number of
/// times, and cancelling it, leaves the filter as it was, closes the search
/// with its text cleared, reports `Search canceled` and selects the first row.
pub proof fn lemma_cancelled_search_restores_panel(
    procs: Seq<ProcessInfo>,
    by: ProcessSortBy,
    v: PanelView,
    steps: Seq<Action>,
)
    requires
        !v.ui.search_mode,
        v.ui.kill_dialog is None,
        forall|i: int| 0 <= i < steps.len() ==> is_search_step(#[trigger] steps[i]),
    ensures
        ({
            let done = panel_run(
                procs,
                by,
                v,
                seq![Action::StartProcessSearch] + steps + seq![Action::CancelProcessSearch],
            );
            &&& done.ui.filter_query == v.ui.filter_query
            &&& !done.ui.search_mode
            &&& done.ui.search_input.len() == 0
            &&& done.ui.status_message == Some(search_canceled_text())
            &&& done.selected_index == 0
        }),
{
    let all = seq![Action::StartProcessSearch] + steps + seq![Action::CancelProcessSearch];
    assert(all.drop_last() =~= seq![Action::StartProcessSearch] + steps);
    assert(all.last() == Action::CancelProcessSearch);
    lemma_run_prepend(procs, by, v, Action::StartProcessSearch, steps);
    let started = panel_step(procs, by, v, Action::StartProcessSearch);
    lemma_search_steps_keep_search(procs, by, started, steps);
}

proof fn lemma_typing_appends(ui: ProcessUi, edits: Seq<Action>, cs: Seq<char>)
    requires
        ui.search_mode,
        types_chars(edits, cs),
    ensures
        after_edits(ui, edits).search_mode,
        after_edits(ui, edits).search_input == ui.search_input + cs,
        after_edits(ui, edits).kill_dialog == ui.kill_dialog,
    decreases cs.len(),
{
    if cs.len() == 0 {
        assert(ui.search_input + cs =~= ui.search_input);
    } else {
        assert(types_chars(edits.drop_last(), cs.drop_last())) by {
            assert forall|i: int| 0 <= i < edits.drop_last().len() implies (#[trigger] edits.drop_last()[i] matches Action::UpdateProcessSearch(c) && c == cs.drop_last()[i]) by {
                assert(edits.drop_last()[i] == edits[i]);
            }
        }
        lemma_typing_appends(ui, edits.drop_last(), cs.drop_last());
        assert(edits.last() matches Action::UpdateProcessSearch(c) && c == cs.last()) by {
            assert(edits[edits.len() - 1] == edits.last());
        }
        assert(ui.search_input + cs =~= (ui.search_input + cs.drop_last()).push(cs.last()));
    }
}

/// Starting a search, typing `cs` and confirming filters by the previous
/// filter followed by `cs`, trimmed.
pub proof fn lemma_confirmed_search_applies_typed_text(
    ui: ProcessUi,
    edits: Seq<Action>,
    cs: Seq<char>,
    selected: Option<RowView>,
    selected_later: Option<RowView>,
)
    requires
        !ui.search_mode,
        ui.kill_dialog is None,
        types_chars(edits, cs),
    ensures
        ({
            let searching = after_edits(ui_next(ui, Action::StartProcessSearch, selected), edits);
            let done = ui_next(searching, Action::ConfirmProcessSearch, selected_later);
            &&& done.filter_query == trim_seq(ui.filter_query + cs)
            &&& !done.search_mode
            &&& done.status_message is None
        }),
{
    lemma_typing_appends(ui_next(ui, Action::StartProcessSearch, selected), edits, cs);
}

/// Asking to terminate opens the dialog on the selected process with `Yes`
/// preselected, unless a search is being typed; without a selection it only
/// reports that.
pub proof fn lemma_request_opens_dialog_with_yes(ui: ProcessUi, selected: Option<RowView>)
    requires
        !ui.search_mode,
    ensures
        match selected {
            Some(row) => ui_next(ui, Action::RequestProcessKill, selected).kill_dialog == Some(
                KillView { pid: row.pid, name: row.name, yes_selected: true },
            ),
            None => ui_next(ui, Action::RequestProcessKill, selected).status_message == Some(
                no_process_text(),
            ),
        },
{
}

/// A process is only terminated by confirming the open dialog with `Yes`,
/// and it is the process the dialog names.
pub proof fn lemma_kill_needs_confirmation(ui: ProcessUi, action: Action)
    ensures
        kill_request_of(ui, action) is Some ==> {
            &&& action is ConfirmProcessKill
            &&& ui.kill_dialog matches Some(d)
            &&& d.yes_selected
            &&& kill_request_of(ui, action) == Some((d.pid, d.name))
        },
{
}

/// Confirming or cancelling closes the dialog.
pub proof fn lemma_dialog_closes(ui: ProcessUi, selected: Option<RowView>)
    ensures
        ui_next(ui, Action::ConfirmProcessKill, selected).kill_dialog is None,
        ui_next(ui, Action::CancelProcessKill, selected).kill_dialog is None,
{
}

/// Toggling the dialog's choice twice restores it.
pub proof fn lemma_toggle_choice_twice(ui: ProcessUi, selected: Option<RowView>)
    ensures
        ui_next(ui_next(ui, Action::ToggleProcessKillChoice, selected), Action::ToggleProcessKillChoice, selected)
            == ui,
{
    match ui.kill_dialog {
        Some(d) => {
            let once = ui_next(ui, Action::ToggleProcessKillChoice, selected);
            assert(once.kill_dialog == Some(KillView { yes_selected: !d.yes_selected, ..d }));
        },
        None => {},
    }
}

/// While the dialog is open or a search is typed, the selection does not move.
pub proof fn lemma_modal_freezes_selection(ui: ProcessUi, index: usize, count: nat)
    requires
        ui.search_mode || ui.kill_dialog is Some,
    ensures
        moved_selection(ui, Action::MoveUp, index, count) == index,
        moved_selection(ui, Action::MoveDown, index, count) == index,
{
}

/// Moving down and then up returns to the same row when there is a row below.
pub proof fn lemma_down_then_up(ui: ProcessUi, index: usize, count: nat)
    requires
        ui.kill_dialog is None,
        !ui.search_mode,
        index + 1 < count,
        index < usize::MAX,
    ensures
        moved_selection(ui, Action::MoveUp, moved_selection(ui, Action::MoveDown, index, count), count)
            == index,
{
}

// ---------------------------------------------------------------------------
// What the panel draws
// ---------------------------------------------------------------------------

/// The part of the rows the panel shows in `visible_rows` lines, keeping the
/// selection in view: the selected row (held to the last row), and the
/// first and one-past-last shown rows.
pub open spec fn window_of(row_count: nat, selected_index: nat, visible_rows: nat) -> (nat, nat, nat) {
    let selected = if row_count == 0 {
        0
    } else if selected_index < row_count {
        selected_index
    } else {
        (row_count - 1) as nat
    };
    let start = if visible_rows > 0 && selected >= visible_rows {
        (selected + 1 - visible_rows) as nat
    } else {
        0
    };
    let end = if visible_rows == 0 {
        0
    } else if start + visible_rows < row_count {
        start + visible_rows
    } else {
        row_count
    };
    (selected, start, end)
}

/// Computes [`window_of`].
pub fn visible_window(row_count: usize, selected_index: usize, visible_rows: usize) -> (res: (usize, usize, usize))
    ensures
        (res.0 as nat, res.1 as nat, res.2 as nat) == window_of(row_count as nat, selected_index as nat, visible_rows as nat),
{
    let selected = if row_count == 0 {
        0
    } else if selected_index < row_count {
        selected_index
    } else {
        row_count - 1
    };
    let window_start = if visible_rows > 0 && selected >= visible_rows {
        selected + 1 - visible_rows
    } else {
        0
    };
    let window_end = if visible_rows == 0 {
        0
    } else if visible_rows < row_count - window_start {
        window_start + visible_rows
    } else {
        row_count
    };
    (selected, window_start, window_end)
}

/// The shown rows always include the selected one, and never more rows than fit.
pub proof fn lemma_window_shows_selection(row_count: nat, selected_index: nat, visible_rows: nat)
    requires
        row_count > 0,
        visible_rows > 0,
    ensures
        ({
            let (selected, start, end) = window_of(row_count, selected_index, visible_rows);
            &&& start <= selected < end <= row_count
            &&& end - start <= visible_rows
        }),
{
}

/// The label of a sort setting.
pub open spec fn sort_label(by: ProcessSortBy) -> Seq<char> {
    match by {
        ProcessSortBy::CpuUsage => "CPU"@,
        ProcessSortBy::Memory => "MEM"@,
        ProcessSortBy::Pid => "PID"@,
        ProcessSortBy::Name => "NAME"@,
    }
}

/// The panel title: view mode, sort setting and the applied filter, if any.
pub open spec fn title_of(show_tree: bool, by: ProcessSortBy, filter_query: Seq<char>) -> Seq<char> {
    " Processes \u{b7} "@ + (if show_tree {
        "tree"@
    } else {
        "list"@
    }) + " \u{b7} sort:"@ + sort_label(by) + (if trim_seq(filter_query).len() == 0 {
        Seq::empty()
    } else {
        " \u{b7} filter:"@ + filter_query
    }) + " "@
}

/// The line above the rows: the search box while searching, a count in the
/// tree view, column headings in the list view; then the status message.
pub open spec fn header_of(ui: ProcessUi, row_count: nat, selected: nat) -> Seq<char> {
    let position = if row_count == 0 {
        0
    } else {
        selected + 1
    };
    let base = if ui.search_mode {
        " search: "@ + ui.search_input + "_  [enter] apply [esc] cancel"@
    } else if ui.show_tree {
        " tree entries: "@ + dec(row_count) + "  selected: "@ + dec(position) + "/"@ + dec(row_count)
    } else {
        " "@ + pad_left("PID"@, 7) + " "@ + pad_left("MEM"@, 8) + " "@ + pad_left("CPU%"@, 6) + " "@
            + pad_left("WRITE"@, 9) + "  "@ + "NAME"@ + "   ["@ + dec(position) + "/"@ + dec(row_count)
            + "]"@
    };
    match ui.status_message {
        Some(msg) => base + "  \u{b7}  "@ + msg,
        None => base,
    }
}

impl ProcessComponent {
    /// The panel title.
    pub fn title(&self) -> (res: String)
        ensures
            res@ == title_of(self.show_tree, self.process_sort_by, self.filter_query@),
    {
        let mut out: Vec<char> = Vec::new();
        crate::text::push_str(&mut out, " Processes \u{b7} ");
        if self.show_tree {
            crate::text::push_str(&mut out, "tree");
        } else {
            crate::text::push_str(&mut out, "list");
        }
        crate::text::push_str(&mut out, " \u{b7} sort:");
        match self.process_sort_by {
            ProcessSortBy::CpuUsage => crate::text::push_str(&mut out, "CPU"),
            ProcessSortBy::Memory => crate::text::push_str(&mut out, "MEM"),
            ProcessSortBy::Pid => crate::text::push_str(&mut out, "PID"),
            ProcessSortBy::Name => crate::text::push_str(&mut out, "NAME"),
        }
        let filter = chars_of(self.filter_query.as_str());
        if trim(&filter).len() != 0 {
            crate::text::push_str(&mut out, " \u{b7} filter:");
            push_chars(&mut out, &filter);
        }
        crate::text::push_str(&mut out, " ");
        assert(out@ =~= title_of(self.show_tree, self.process_sort_by, self.filter_query@));
        string_of_chars(&out)
    }

    /// The line above the rows, for `row_count` rows of which `selected` is selected.
    pub fn header_line(&self, row_count: usize, selected: usize) -> (res: String)
        requires
            selected < usize::MAX,
        ensures
            res@ == header_of(self.ui(), row_count as nat, selected as nat),
    {
        let position: usize = if row_count == 0 { 0 } else { selected + 1 };
        let mut out: Vec<char> = Vec::new();
        if self.search_mode {
            crate::text::push_str(&mut out, " search: ");
            crate::text::push_str(&mut out, self.search_input.as_str());
            crate::text::push_str(&mut out, "_  [enter] apply [esc] cancel");
        } else if self.show_tree {
            crate::text::push_str(&mut out, " tree entries: ");
            push_dec(&mut out, row_count as u64);
            crate::text::push_str(&mut out, "  selected: ");
            push_dec(&mut out, position as u64);
            crate::text::push_str(&mut out, "/");
            push_dec(&mut out, row_count as u64);
        } else {
            crate::text::push_str(&mut out, " ");
            push_padded(&mut out, &chars_of("PID"), 7);
            crate::text::push_str(&mut out, " ");
            push_padded(&mut out, &chars_of("MEM"), 8);
            crate::text::push_str(&mut out, " ");
            push_padded(&mut out, &chars_of("CPU%"), 6);
            crate::text::push_str(&mut out, " ");
            push_padded(&mut out, &chars_of("WRITE"), 9);
            crate::text::push_str(&mut out, "  ");
            crate::text::push_str(&mut out, "NAME");
            crate::text::push_str(&mut out, "   [");
            push_dec(&mut out, position as u64);
            crate::text::push_str(&mut out, "/");
            push_dec(&mut out, row_count as u64);
            crate::text::push_str(&mut out, "]");
        }
        match &self.status_message {
            Some(msg) => {
                crate::text::push_str(&mut out, "  \u{b7}  ");
                crate::text::push_str(&mut out, msg.as_str());
            },
            None => {},
        }
        assert(out@ =~= header_of(self.ui(), row_count as nat, selected as nat));
        string_of_chars(&out)
    }
}

/// The question the termination dialog asks.
pub open spec fn kill_question_text(name: Seq<char>, pid: u32) -> Seq<char> {
    "Terminate '"@ + name + "' (PID "@ + dec(pid as nat) + ")?"@
}

impl ProcessComponent {
    /// The question of the open termination dialog, if one is open.
    pub fn kill_question(&self) -> (res: Option<String>)
        ensures
            match self.kill_dialog {
                Some(d) => res is Some && res->0@ == kill_question_text(d.name@, d.pid),
                None => res is None,
            },
    {
        match &self.kill_dialog {
            Some(d) => {
                let mut out: Vec<char> = Vec::new();
                crate::text::push_str(&mut out, "Terminate '");
                crate::text::push_str(&mut out, d.name.as_str());
                crate::text::push_str(&mut out, "' (PID ");
                push_dec(&mut out, d.pid as u64);
                crate::text::push_str(&mut out, ")?");
                Some(string_of_chars(&out))
            },
            None => None,
        }
    }
}

} // verus!
