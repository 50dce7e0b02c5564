use rtop::intel::{
    card_index, is_card_name, is_gpu_power_zone, is_intel_vendor, package_sensor, prefer_tile_paths, sorted_distinct_paths,
    zone_matches,
};

fn strings(v: &[&str]) -> Vec<String> {
    v.iter().map(|s| s.to_string()).collect()
}

#[test]
fn paths_are_sorted_once_each() {
    assert_eq!(
        sorted_distinct_paths(&strings(&["/b/x", "/a/y", "/b/x", "/a/y", "/A"])),
        strings(&["/A", "/a/y", "/b/x"])
    );
    assert!(sorted_distinct_paths(&Vec::new()).is_empty());
}

#[test]
fn tile_counters_win_over_the_card_counter() {
    let both = strings(&["/card0/power/rc6_residency_ms", "/card0/gt/gt0/rc6_residency_ms", "/card0/gt/gt1/rc6_residency_ms"]);
    assert_eq!(
        prefer_tile_paths(&both),
        strings(&["/card0/gt/gt0/rc6_residency_ms", "/card0/gt/gt1/rc6_residency_ms"])
    );
    let card_only = strings(&["/card0/power/rc6_residency_ms"]);
    assert_eq!(prefer_tile_paths(&card_only), card_only);
}

#[test]
fn the_package_sensor_stands_in() {
    assert_eq!(package_sensor(&strings(&["acpitz", "Package id 0", "x86_pkg_temp"])), Some(1));
    assert_eq!(package_sensor(&strings(&["acpitz"])), None);
}

#[test]
fn thermal_zone_types() {
    let cands = strings(&["x86_pkg_temp", "CPU"]);
    assert!(zone_matches("  X86_PKG_TEMP\n", &cands));
    assert!(zone_matches("cpu-thermal", &cands));
    assert!(!zone_matches("acpitz", &cands));
}

#[test]
fn drm_cards() {
    assert!(is_intel_vendor("0x8086\n"));
    assert!(!is_intel_vendor("0x10de"));
    assert!(is_card_name("card0"));
    assert!(!is_card_name("card0-HDMI-A-1"));
    assert!(!is_card_name("renderD128"));
    assert_eq!(card_index("card12"), Some("12".to_string()));
    assert_eq!(card_index("renderD128"), None);
}

#[test]
fn graphics_power_zones_are_recognised() {
    assert!(is_gpu_power_zone("gfx\n"));
    assert!(is_gpu_power_zone("  Uncore "));
    assert!(is_gpu_power_zone("PSYS"));
    assert!(is_gpu_power_zone("igpu-domain"));
    assert!(!is_gpu_power_zone("package-0\n"));
    assert!(!is_gpu_power_zone("core"));
    assert!(!is_gpu_power_zone(""));
}
