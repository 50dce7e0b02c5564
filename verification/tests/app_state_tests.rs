use rtop::action::Action;
use rtop::app_state::{cycle_network_interface, switch_process_sort, switch_theme, theme_name, Followup, UiState};
use rtop::keys::{handle_key_events, Key, KeyInput};
use rtop::snapshot::{ColorScheme, ProcessSortBy};
use rtop::theme::Theme;

fn names(v: &[&str]) -> Vec<String> {
    v.iter().map(|s| s.to_string()).collect()
}

fn state() -> UiState {
    UiState {
        should_quit: false,
        auto_update: true,
        theme: Theme::new(ColorScheme::Default),
        process_sort_by: ProcessSortBy::CpuUsage,
        selected_network_interface: None,
    }
}

fn key(code: Key) -> KeyInput {
    KeyInput { code, ctrl: false, alt: false, shift: false }
}

#[test]
fn interfaces_cycle_in_sorted_order_then_back_to_all() {
    let list = names(&["wlan0", "eth0", "lo", "eth0"]);
    let mut cur: Option<String> = None;
    let mut seen = Vec::new();
    for _ in 0..4 {
        cur = cycle_network_interface(&list, &cur);
        seen.push(cur.clone());
    }
    assert_eq!(
        seen,
        vec![Some("eth0".to_string()), Some("lo".to_string()), Some("wlan0".to_string()), None]
    );
}

#[test]
fn unknown_or_missing_interfaces() {
    assert_eq!(cycle_network_interface(&names(&["b", "a"]), &Some("zz".to_string())), Some("a".to_string()));
    assert_eq!(cycle_network_interface(&Vec::new(), &Some("a".to_string())), None);
}

#[test]
fn sort_order_cycles_through_four_keys() {
    assert_eq!(switch_process_sort(ProcessSortBy::CpuUsage), ProcessSortBy::Memory);
    assert_eq!(switch_process_sort(ProcessSortBy::Memory), ProcessSortBy::Pid);
    assert_eq!(switch_process_sort(ProcessSortBy::Pid), ProcessSortBy::Name);
    assert_eq!(switch_process_sort(ProcessSortBy::Name), ProcessSortBy::CpuUsage);
}

#[test]
fn themes_cycle_and_have_names() {
    let mut s = ColorScheme::Default;
    let mut shown = Vec::new();
    for _ in 0..6 {
        shown.push(theme_name(s));
        s = switch_theme(s);
    }
    assert_eq!(s, ColorScheme::Default);
    assert_eq!(shown, vec!["Graphite", "Midnight", "Nord", "Solarized", "Gruvbox", "Neon"]);
    assert_eq!(switch_theme(ColorScheme::Light), ColorScheme::Dark);
    assert_eq!(theme_name(ColorScheme::Monochrome), "Midnight");
}

#[test]
fn actions_update_the_interface_state() {
    let mut st = state();
    let nets = names(&["eth0"]);
    assert!(matches!(st.handle_action(Action::ToggleAutoUpdate, &nets), Followup::Done));
    assert!(!st.auto_update);
    assert!(matches!(st.handle_action(Action::SwitchProcessSort, &nets), Followup::Done));
    assert_eq!(st.process_sort_by, ProcessSortBy::Memory);
    assert!(matches!(st.handle_action(Action::CycleNetworkInterface, &nets), Followup::Done));
    assert_eq!(st.selected_network_interface.as_deref(), Some("eth0"));
    assert!(matches!(st.handle_action(Action::SwitchTheme, &nets), Followup::SaveTheme));
    assert_eq!(st.theme.color_scheme, ColorScheme::Dark);
    assert!(matches!(st.handle_action(Action::SaveConfig, &nets), Followup::SaveTheme));
    assert!(matches!(st.handle_action(Action::MoveDown, &nets), Followup::Process(Action::MoveDown)));
    assert!(matches!(st.handle_action(Action::NextTab, &nets), Followup::Done));
    assert!(!st.should_quit);
    st.handle_action(Action::Quit, &nets);
    assert!(st.should_quit);
}

#[test]
fn global_key_bindings() {
    assert!(matches!(handle_key_events(key(Key::Char('q')), false, false), Some(Action::Quit)));
    assert!(matches!(handle_key_events(key(Key::Esc), false, false), Some(Action::Quit)));
    assert!(matches!(handle_key_events(key(Key::Char('s')), false, false), Some(Action::SwitchProcessSort)));
    let shifted = KeyInput { code: Key::Char('s'), ctrl: false, alt: false, shift: true };
    assert!(matches!(handle_key_events(shifted, false, false), Some(Action::StartProcessSearch)));
    assert!(matches!(handle_key_events(key(Key::Char('S')), false, false), Some(Action::StartProcessSearch)));
    assert!(matches!(handle_key_events(key(Key::Char('K')), false, false), Some(Action::RequestProcessKill)));
    assert!(matches!(handle_key_events(key(Key::Char('T')), false, false), Some(Action::ToggleProcessTree)));
    assert!(matches!(handle_key_events(key(Key::Char('i')), false, false), Some(Action::CycleNetworkInterface)));
    assert!(matches!(handle_key_events(key(Key::Char('w')), false, false), Some(Action::SaveConfig)));
    assert!(matches!(handle_key_events(key(Key::Up), false, false), Some(Action::MoveUp)));
    assert!(handle_key_events(key(Key::Char('z')), false, false).is_none());
}

#[test]
fn search_mode_keys_edit_the_search() {
    assert!(matches!(handle_key_events(key(Key::Char('q')), false, true), Some(Action::UpdateProcessSearch('q'))));
    assert!(matches!(handle_key_events(key(Key::Esc), false, true), Some(Action::CancelProcessSearch)));
    assert!(matches!(handle_key_events(key(Key::Enter), false, true), Some(Action::ConfirmProcessSearch)));
    assert!(matches!(handle_key_events(key(Key::Backspace), false, true), Some(Action::BackspaceProcessSearch)));
    let ctrl = KeyInput { code: Key::Char('c'), ctrl: true, alt: false, shift: false };
    assert!(handle_key_events(ctrl, false, true).is_none());
    assert!(handle_key_events(key(Key::Up), false, true).is_none());
}

#[test]
fn dialog_keys_take_precedence() {
    assert!(matches!(handle_key_events(key(Key::Tab), true, true), Some(Action::ToggleProcessKillChoice)));
    assert!(matches!(handle_key_events(key(Key::Enter), true, false), Some(Action::ConfirmProcessKill)));
    assert!(matches!(handle_key_events(key(Key::Esc), true, false), Some(Action::CancelProcessKill)));
    assert!(handle_key_events(key(Key::Char('q')), true, false).is_none());
}
