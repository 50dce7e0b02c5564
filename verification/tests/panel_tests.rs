use rtop::gauge::{
    bar_width_for_area, cpu_temp_priority, cpu_temperature_sensor, cpu_title, fractional_block, frequency_color,
    gauge_cells, stacked_cells, GaugeCell, StackCell,
};
use rtop::chart::window_sums;
use rtop::gauge::gpu_memory_text;
use rtop::sampling::{command_head, cpu_name, exe_if_short};
use rtop::snapshot::ColorScheme;
use rtop::status_bar::{keybinds_line, status_line};
use rtop::theme::{get_default_color, Color, Theme};

#[test]
fn bar_width_fits_after_the_label() {
    assert_eq!(bar_width_for_area(80, 12, 48), 48);
    assert_eq!(bar_width_for_area(30, 12, 48), 18);
    assert_eq!(bar_width_for_area(10, 12, 48), 0);
}

#[test]
fn eighth_blocks() {
    assert_eq!(fractional_block(1), '▏');
    assert_eq!(fractional_block(4), '▌');
    assert_eq!(fractional_block(7), '▉');
    assert_eq!(fractional_block(0), '░');
    assert_eq!(fractional_block(8), '░');
}

#[test]
fn bar_cells_fill_from_the_left() {
    let cells = gauge_cells(4, 13);
    assert_eq!(cells, vec![GaugeCell::Filled, GaugeCell::Partial('▋'), GaugeCell::Track, GaugeCell::Track]);
    assert_eq!(gauge_cells(2, 0), vec![GaugeCell::Track, GaugeCell::Track]);
    assert_eq!(gauge_cells(2, 100), vec![GaugeCell::Filled, GaugeCell::Filled]);
    assert!(gauge_cells(0, 5).is_empty());
}

#[test]
fn memory_bar_shows_used_then_cached() {
    let cells = stacked_cells(5, 10, 20);
    assert_eq!(
        cells,
        vec![
            StackCell::Used,
            StackCell::UsedPartial('▎'),
            StackCell::Cached,
            StackCell::CachedPartial('▊'),
            StackCell::Track,
        ]
    );
    assert_eq!(stacked_cells(2, 0, 3), vec![StackCell::CachedPartial('▍'), StackCell::Track]);
}

#[test]
fn processor_sensor_priorities() {
    assert_eq!(cpu_temp_priority(""), Some(1));
    assert_eq!(cpu_temp_priority("Package id 0"), Some(7));
    assert_eq!(cpu_temp_priority("Tctl"), Some(6));
    assert_eq!(cpu_temp_priority("cpu_thermal"), Some(5));
    assert_eq!(cpu_temp_priority("Core 0"), Some(4));
    assert_eq!(cpu_temp_priority("soc_thermal"), Some(3));
    assert_eq!(cpu_temp_priority("nvme"), None);
}

#[test]
fn the_last_of_the_best_sensors_is_shown() {
    let labels: Vec<String> = ["Core 0", "Package id 0", "acpitz", "Package id 1", "Core 1"]
        .iter()
        .map(|s| s.to_string())
        .collect();
    assert_eq!(cpu_temperature_sensor(&labels), Some(3));
    assert_eq!(cpu_temperature_sensor(&vec!["nvme".to_string()]), None);
}

#[test]
fn frequency_colours() {
    assert_eq!(frequency_color(800), Color::Rgb(98, 114, 164));
    assert_eq!(frequency_color(1000), Color::Rgb(139, 233, 253));
    assert_eq!(frequency_color(3000), Color::Rgb(139, 233, 253));
    assert_eq!(frequency_color(3001), Color::Rgb(189, 147, 249));
}

#[test]
fn cpu_titles() {
    assert_eq!(cpu_title("Ryzen 7"), " CPU · Ryzen 7 ");
    assert_eq!(cpu_title(""), " CPU ");
}

#[test]
fn status_and_key_lines() {
    let theme = Theme::new(ColorScheme::Default);
    let s = status_line(&theme, "box", "1d 2h 3m", "0.1 0.2 0.3", "12:00:00", ColorScheme::Default);
    let texts: Vec<&str> = s.iter().map(|x| x.text.as_str()).collect();
    assert_eq!(
        texts,
        vec![" RTOP ", "  host:box  ", "uptime:1d 2h 3m  ", "load:0.1 0.2 0.3  ", "time:12:00:00 ", " theme:Graphite "]
    );
    assert_eq!(s[0].bg, Some(Color::Rgb(94, 213, 221)));
    assert_eq!(s[1].bg, Some(Color::Rgb(29, 41, 58)));
    assert!(s[5].bold);
    let k = keybinds_line(&theme, ColorScheme::Nord);
    assert_eq!(k.len(), 10);
    assert_eq!(k[0].text, " [q] quit ");
    assert_eq!(k[9].text, "  active:Nord ");
    assert_eq!(k[0].fg, Color::Rgb(241, 126, 126));
}

#[test]
fn themes_map_named_colours() {
    let t = Theme::new(ColorScheme::Light);
    assert_eq!(t.color_scheme, ColorScheme::Default);
    assert_eq!(t.get_color(Color::White), Color::Rgb(228, 236, 245));
    assert_eq!(t.get_color(Color::Reset), Color::Reset);
    assert_eq!(Theme::cycle().len(), 6);
    assert_eq!(Theme::canonicalize_color_scheme(ColorScheme::SolarizedLight), ColorScheme::SolarizedDark);
    assert_eq!(get_default_color(Color::Cyan, Color::Red, Color::Red, Color::Red), Color::Cyan);
    assert_eq!(get_default_color(Color::Black, Color::Blue, Color::Red, Color::Red), Color::Blue);
    assert_eq!(get_default_color(Color::Black, Color::Red, Color::Red, Color::Red), Color::White);
}

#[test]
fn samples_keep_short_process_fields() {
    let cmd: Vec<String> = ["a", "b", "c", "d"].iter().map(|s| s.to_string()).collect();
    assert_eq!(command_head(&cmd), vec!["a".to_string(), "b".to_string(), "c".to_string()]);
    assert_eq!(command_head(&cmd[..1].to_vec()), vec!["a".to_string()]);
    assert_eq!(exe_if_short("/usr/bin/x"), Some("/usr/bin/x".to_string()));
    assert_eq!(exe_if_short(&"x".repeat(200)), None);
    assert_eq!(exe_if_short(&"x".repeat(199)), Some("x".repeat(199)));
    assert_eq!(cpu_name(Some("Ryzen")), "Ryzen");
    assert_eq!(cpu_name(None), "Unknown CPU");
}

#[test]
fn graph_windows_average_neighbours() {
    let data = vec![10u64, 20, 30, 40, 50];
    assert_eq!(window_sums(&data, 1), vec![(30, 2), (60, 3), (90, 3), (120, 3), (90, 2)]);
    assert_eq!(window_sums(&data, 0), vec![(10, 1), (20, 1), (30, 1), (40, 1), (50, 1)]);
    assert_eq!(window_sums(&data, 8), vec![(150, 5); 5]);
    assert!(window_sums(&Vec::new(), 2).is_empty());
}

#[test]
fn gpu_memory_fields() {
    assert_eq!(gpu_memory_text(Some(1024), Some(2048)), ("M:1.0KB/2.0KB".to_string(), false));
    assert_eq!(gpu_memory_text(Some(1024), None), ("M:1.0KB".to_string(), false));
    assert_eq!(gpu_memory_text(None, Some(2048)), ("M:--/2.0KB".to_string(), true));
    assert_eq!(gpu_memory_text(None, None), ("M:--".to_string(), true));
}
