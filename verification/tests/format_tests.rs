use rtop::utils::{bytes_to_human_readable, format_duration};
use rtop::procfs::format_uptime;
use rtop::gauge::ram_label;

/// The float computation that byte counts are shown with: divide by 1024
/// while at least 1024 (up to petabytes), then one decimal.
fn float_reference(bytes: u64) -> String {
    let units = ["B", "KB", "MB", "GB", "TB", "PB"];
    let mut size = bytes as f64;
    let mut idx = 0;
    while size >= 1024.0 && idx < units.len() - 1 {
        size /= 1024.0;
        idx += 1;
    }
    format!("{:.1}{}", size, units[idx])
}

#[test]
fn human_readable_small_values() {
    assert_eq!(bytes_to_human_readable(0), "0.0B");
    assert_eq!(bytes_to_human_readable(1), "1.0B");
    assert_eq!(bytes_to_human_readable(1023), "1023.0B");
    assert_eq!(bytes_to_human_readable(1024), "1.0KB");
    assert_eq!(bytes_to_human_readable(1536), "1.5KB");
}

#[test]
fn human_readable_rounds_half_to_even() {
    // 1280 bytes are exactly 1.25 KB; 1.25 lies halfway and goes to the even digit.
    assert_eq!(bytes_to_human_readable(1280), "1.2KB");
    // 1.75 KB goes up to the even digit.
    assert_eq!(bytes_to_human_readable(1792), "1.8KB");
    assert_eq!(bytes_to_human_readable(1280), float_reference(1280));
}

#[test]
fn human_readable_large_values() {
    assert_eq!(bytes_to_human_readable(1024 * 1024), "1.0MB");
    assert_eq!(bytes_to_human_readable(5 * 1024 * 1024 * 1024), "5.0GB");
    assert_eq!(bytes_to_human_readable(u64::MAX), float_reference(u64::MAX));
    assert_eq!(bytes_to_human_readable(u64::MAX), "16384.0PB");
}

#[test]
fn human_readable_matches_float_formatting() {
    let mut v: u64 = 1;
    for _ in 0..2000 {
        assert_eq!(bytes_to_human_readable(v), float_reference(v), "value {}", v);
        assert_eq!(bytes_to_human_readable(v - 1), float_reference(v - 1), "value {}", v - 1);
        v = v.wrapping_mul(3).wrapping_add(7) % (u64::MAX / 2) + 1;
    }
    for k in 0..64u32 {
        let p = 1u64 << k;
        assert_eq!(bytes_to_human_readable(p), float_reference(p));
        assert_eq!(bytes_to_human_readable(p + p / 2), float_reference(p + p / 2));
        assert_eq!(bytes_to_human_readable(p + p / 4 + p / 8), float_reference(p + p / 4 + p / 8));
    }
}

#[test]
fn durations_pick_their_largest_unit() {
    assert_eq!(format_duration(0), "0s");
    assert_eq!(format_duration(59), "59s");
    assert_eq!(format_duration(60), "1m 0s");
    assert_eq!(format_duration(3600), "1h 0m 0s");
    assert_eq!(format_duration(3661), "1h 1m 1s");
    assert_eq!(format_duration(86400), "1d 0h 0m 0s");
    assert_eq!(format_duration(90061), "1d 1h 1m 1s");
}

#[test]
fn uptime_shows_days_hours_minutes() {
    assert_eq!(format_uptime(0), "0d 0h 0m");
    assert_eq!(format_uptime(59), "0d 0h 0m");
    assert_eq!(format_uptime(3 * 86400 + 5 * 3600 + 7 * 60 + 9), "3d 5h 7m");
}

#[test]
fn ram_label_leaves_out_the_cache() {
    assert_eq!(ram_label(3 * 1024, 1024, 8 * 1024), "RAM: 2.0KB/1.0KB/8.0KB");
    assert_eq!(ram_label(512, 1024, 2048), "RAM: 0.0B/1.0KB/2.0KB");
}
