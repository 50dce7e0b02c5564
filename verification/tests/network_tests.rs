use rtop::action::Action;
use rtop::network::{traffic_summary, InterfaceCounters, NetworkComponent, NetworkRates};
use rtop::snapshot::{ColorScheme, NetworkInfo};
use rtop::theme::Theme;

fn counters(name: &str, rx: u64, tx: u64) -> InterfaceCounters {
    InterfaceCounters { name: name.to_string(), received: rx, transmitted: tx }
}

fn net(name: &str, rx_rate: u64, tx_rate: u64, rx: u64, tx: u64) -> NetworkInfo {
    NetworkInfo {
        name: name.to_string(),
        total_received: rx,
        total_transmitted: tx,
        received_per_sec: rx_rate,
        transmitted_per_sec: tx_rate,
    }
}

#[test]
fn growth_is_measured_against_the_previous_sample() {
    let mut r = NetworkRates::new();
    let first = r.update(&vec![counters("eth0", 100, 50)]);
    assert_eq!(first, vec![None]);
    let second = r.update(&vec![counters("eth0", 300, 40), counters("wlan0", 1, 1)]);
    assert_eq!(second, vec![Some((200, 0)), None]);
    let third = r.update(&vec![counters("wlan0", 5, 9)]);
    assert_eq!(third, vec![Some((4, 8))]);
    let again = r.update(&vec![counters("eth0", 1, 1)]);
    assert_eq!(again, vec![None]);
}

#[test]
fn an_unchanged_sample_shows_no_growth() {
    let mut r = NetworkRates::new();
    let s = vec![counters("a", 10, 20), counters("b", 30, 40)];
    r.update(&s);
    assert_eq!(r.update(&s), vec![Some((0, 0)), Some((0, 0))]);
}

#[test]
fn totals_for_all_or_the_selected_interface() {
    let nets = vec![net("eth0", 10, 20, 1000, 2000), net("lo", 1, 2, 3, 4)];
    assert_eq!(traffic_summary(&nets, &None), (11, 22, 1003, 2004));
    assert_eq!(traffic_summary(&nets, &Some("lo".to_string())), (1, 2, 3, 4));
    assert_eq!(traffic_summary(&nets, &Some("gone".to_string())), (0, 0, 0, 0));
}

#[test]
fn summary_parts_and_graph_toggle() {
    let nets = vec![net("eth0", 2048, 1024, 1024 * 1024, 0)];
    let mut c = NetworkComponent::new(nets, None, Theme::new(ColorScheme::Nord));
    assert_eq!(
        c.summary_parts(),
        vec!["2.0KB/s".to_string(), "1.0KB/s".to_string(), "All".to_string(), "1.0MB / 0.0B".to_string()]
    );
    assert!(c.show_graphs);
    c.update(Action::ToggleGraphs);
    assert!(!c.show_graphs);
    c.update(Action::MoveDown);
    assert!(!c.show_graphs);
    c.selected_interface = Some("eth0".to_string());
    c.selected_interface = Some("my  eth".to_string());
    assert_eq!(c.summary_parts()[2], "my  eth");
}
