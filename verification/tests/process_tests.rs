use rtop::action::Action;
use rtop::process::{visible_window, KillOutcome, ProcessComponent};
use rtop::snapshot::{ColorScheme, ProcessInfo, ProcessSortBy};
use rtop::theme::Theme;

fn process(pid: u32, name: &str, memory: u64, cpu_centi: u32, parent: Option<u32>) -> ProcessInfo {
    with_cpu(pid, name, memory, cpu_centi as f32 / 100.0, parent)
}

fn with_cpu(pid: u32, name: &str, memory: u64, cpu: f32, parent: Option<u32>) -> ProcessInfo {
    ProcessInfo {
        pid,
        name: name.to_string(),
        memory,
        cpu_usage_bits: cpu.to_bits(),
        disk_usage: 0,
        parent_pid: parent,
        cmd: vec![format!("/usr/bin/{}", name)],
        exe: Some(format!("/usr/bin/{}", name)),
        root: None,
        cwd: None,
        status: "Run".to_string(),
    }
}

fn sample() -> Vec<ProcessInfo> {
    vec![
        process(10, "bash", 4096, 150, Some(1)),
        process(1, "init", 8192, 0, Some(0)),
        process(20, "Firefox", 1 << 30, 2500, Some(1)),
        process(30, "vim", 2048, 150, Some(10)),
    ]
}

fn panel(by: ProcessSortBy) -> ProcessComponent {
    ProcessComponent::new(sample(), by, Theme::new(ColorScheme::Default))
}

fn pids(c: &ProcessComponent) -> Vec<u32> {
    c.get_process_rows().iter().map(|r| r.pid).collect()
}

#[test]
fn sorts_by_cpu_then_memory_then_pid() {
    assert_eq!(pids(&panel(ProcessSortBy::CpuUsage)), vec![20, 10, 30, 1]);
}

#[test]
fn sorts_by_memory_pid_and_name() {
    assert_eq!(pids(&panel(ProcessSortBy::Memory)), vec![20, 1, 10, 30]);
    assert_eq!(pids(&panel(ProcessSortBy::Pid)), vec![30, 20, 10, 1]);
    // Names compare by code point: upper case sorts first.
    assert_eq!(pids(&panel(ProcessSortBy::Name)), vec![20, 10, 1, 30]);
}

#[test]
fn flat_rows_show_aligned_columns() {
    let c = panel(ProcessSortBy::Pid);
    let rows = c.get_process_rows();
    assert_eq!(rows[0].line, "     30    2.0KB   1.50%      0.0B vim");
    assert_eq!(rows[1].line, "     20    1.0GB  25.00%      0.0B Firefox");
}

#[test]
fn tree_rows_nest_children_under_parents() {
    let mut c = panel(ProcessSortBy::CpuUsage);
    c.update(Action::ToggleProcessTree);
    let rows = c.get_process_rows();
    let lines: Vec<String> = rows.iter().map(|r| r.line.clone()).collect();
    assert_eq!(
        lines,
        vec![
            "init [1] 0.00% 8.0KB".to_string(),
            "  Firefox [20] 25.00% 1.0GB".to_string(),
            "  bash [10] 1.50% 4.0KB".to_string(),
            "    vim [30] 1.50% 2.0KB".to_string(),
            "Firefox [20] 25.00% 1.0GB".to_string(),
            "bash [10] 1.50% 4.0KB".to_string(),
            "  vim [30] 1.50% 2.0KB".to_string(),
        ]
    );
}

#[test]
fn search_filters_and_confirm_keeps_the_filter() {
    let mut c = panel(ProcessSortBy::Pid);
    c.update(Action::StartProcessSearch);
    assert!(c.is_search_mode());
    c.update(Action::UpdateProcessSearch('F'));
    c.update(Action::UpdateProcessSearch('I'));
    assert_eq!(pids(&c), vec![20]);
    c.update(Action::ConfirmProcessSearch);
    assert!(!c.is_search_mode());
    assert_eq!(c.filter_query, "FI");
    assert_eq!(pids(&c), vec![20]);
}

#[test]
fn search_matches_pid_and_command() {
    let mut c = panel(ProcessSortBy::Pid);
    c.update(Action::StartProcessSearch);
    c.update(Action::UpdateProcessSearch('3'));
    assert_eq!(pids(&c), vec![30]);
    c.update(Action::BackspaceProcessSearch);
    c.update(Action::UpdateProcessSearch('/'));
    c.update(Action::UpdateProcessSearch('u'));
    c.update(Action::UpdateProcessSearch('s'));
    assert_eq!(pids(&c), vec![30, 20, 10, 1]);
}

#[test]
fn cancelled_search_restores_the_previous_filter() {
    let mut c = panel(ProcessSortBy::Pid);
    c.update(Action::StartProcessSearch);
    c.update(Action::UpdateProcessSearch('v'));
    c.update(Action::ConfirmProcessSearch);
    c.update(Action::StartProcessSearch);
    c.update(Action::UpdateProcessSearch('x'));
    c.update(Action::CancelProcessSearch);
    assert_eq!(c.filter_query, "v");
    assert_eq!(c.status_message.as_deref(), Some("Search canceled"));
    assert_eq!(pids(&c), vec![30]);
}

#[test]
fn confirmed_kill_asks_the_caller_to_terminate() {
    let mut c = panel(ProcessSortBy::Pid);
    c.update(Action::MoveDown);
    assert_eq!(c.selected_index, 1);
    assert!(c.update(Action::RequestProcessKill).is_none());
    assert!(c.is_kill_confirm_active());
    let req = c.update(Action::ConfirmProcessKill).expect("the dialog defaults to Yes");
    assert_eq!(req.pid, 20);
    assert_eq!(req.name, "Firefox");
    assert!(!c.is_kill_confirm_active());
    c.kill_finished(req.pid, &req.name, KillOutcome::Sent);
    assert_eq!(c.status_message.as_deref(), Some("SIGTERM sent to Firefox (20)"));
}

#[test]
fn kill_outcomes_are_reported() {
    let mut c = panel(ProcessSortBy::Pid);
    c.kill_finished(7, "x", KillOutcome::Failed("exit status: 1".to_string()));
    assert_eq!(c.status_message.as_deref(), Some("Failed to terminate PID 7 (exit exit status: 1)"));
    c.kill_finished(7, "x", KillOutcome::NotRun("not found".to_string()));
    assert_eq!(c.status_message.as_deref(), Some("Failed to run kill for PID 7: not found"));
}

#[test]
fn declined_kill_is_cancelled() {
    let mut c = panel(ProcessSortBy::Pid);
    c.update(Action::RequestProcessKill);
    c.update(Action::ToggleProcessKillChoice);
    assert!(c.update(Action::ConfirmProcessKill).is_none());
    assert_eq!(c.status_message.as_deref(), Some("Termination canceled"));
    c.update(Action::RequestProcessKill);
    c.update(Action::CancelProcessKill);
    assert!(!c.is_kill_confirm_active());
    assert_eq!(c.status_message.as_deref(), Some("Termination canceled"));
}

#[test]
fn kill_without_rows_reports_no_selection() {
    let mut c = ProcessComponent::new(Vec::new(), ProcessSortBy::Pid, Theme::new(ColorScheme::Default));
    c.update(Action::RequestProcessKill);
    assert!(!c.is_kill_confirm_active());
    assert_eq!(c.status_message.as_deref(), Some("No process selected"));
}

#[test]
fn selection_stays_within_the_rows() {
    let mut c = panel(ProcessSortBy::Pid);
    for _ in 0..10 {
        c.update(Action::MoveDown);
    }
    assert_eq!(c.selected_index, 3);
    c.update(Action::MoveUp);
    assert_eq!(c.selected_index, 2);
    c.update(Action::StartProcessSearch);
    c.update(Action::UpdateProcessSearch('i'));
    c.update(Action::UpdateProcessSearch('n'));
    c.update(Action::UpdateProcessSearch('i'));
    c.update(Action::UpdateProcessSearch('t'));
    assert_eq!(c.selected_index, 0);
    assert_eq!(pids(&c), vec![1]);
}

#[test]
fn moves_are_ignored_while_a_dialog_is_open() {
    let mut c = panel(ProcessSortBy::Pid);
    c.update(Action::RequestProcessKill);
    c.update(Action::MoveDown);
    assert_eq!(c.selected_index, 0);
    c.update(Action::CancelProcessKill);
    c.update(Action::StartProcessSearch);
    c.update(Action::MoveDown);
    assert_eq!(c.selected_index, 0);
}

#[test]
fn down_then_up_returns_to_the_same_row() {
    let mut c = panel(ProcessSortBy::Pid);
    c.update(Action::MoveDown);
    c.update(Action::MoveDown);
    c.update(Action::MoveUp);
    assert_eq!(c.selected_index, 1);
}

#[test]
fn window_keeps_the_selection_visible() {
    assert_eq!(visible_window(0, 0, 5), (0, 0, 0));
    let (sel, start, end) = visible_window(100, 50, 10);
    assert_eq!(sel, 50);
    assert!(start <= sel && sel < end);
    assert!(end - start <= 10);
}

#[test]
fn dialog_asks_about_the_selected_process() {
    let mut c = panel(ProcessSortBy::Pid);
    assert_eq!(c.kill_question(), None);
    c.update(Action::RequestProcessKill);
    assert_eq!(c.kill_question().as_deref(), Some("Terminate 'vim' (PID 30)?"));
}

#[test]
fn titles_and_headers() {
    let mut c = panel(ProcessSortBy::Memory);
    assert_eq!(c.title(), " Processes · list · sort:MEM ");
    assert_eq!(c.header_line(4, 0), "     PID      MEM   CPU%     WRITE  NAME   [1/4]");
    c.update(Action::ToggleProcessTree);
    assert_eq!(c.header_line(7, 2), " tree entries: 7  selected: 3/7");
    c.update(Action::StartProcessSearch);
    c.update(Action::UpdateProcessSearch('v'));
    assert_eq!(c.header_line(1, 0), " search: v_  [enter] apply [esc] cancel");
    c.update(Action::ConfirmProcessSearch);
    assert_eq!(c.title(), " Processes · tree · sort:MEM · filter:v ");
}

#[test]
fn close_cpu_shares_are_not_a_tie() {
    // 1.001% and 1.004% show alike, yet the larger comes first despite less memory.
    let procs = vec![with_cpu(5, "a", 1 << 20, 1.001, Some(1)), with_cpu(6, "b", 1, 1.004, Some(1))];
    let c = ProcessComponent::new(procs, ProcessSortBy::CpuUsage, Theme::new(ColorScheme::Default));
    assert_eq!(pids(&c), vec![6, 5]);
    // Equal shares fall back to memory, and the two zeros are equal.
    let procs = vec![with_cpu(5, "a", 1, -0.0, Some(1)), with_cpu(6, "b", 2, 0.0, Some(1))];
    let c = ProcessComponent::new(procs, ProcessSortBy::CpuUsage, Theme::new(ColorScheme::Default));
    assert_eq!(pids(&c), vec![6, 5]);
}
