use rtop::procfs::{
    battery_status_name, cached_memory_bytes, cached_memory_kb, cpu_mhz_fields, fill_cpu_frequencies, frequency_from_sysfs,
    has_cpu_sensor, intel_gt_key_from_path, intel_shared_memory_total, meminfo_key_bytes, no_battery_chassis,
    parse_i915_gem_objects_bytes, parse_unsigned, pmset_battery_line, pmset_percent_in_order, pmset_percent_text,
    pmset_status, split_words,
};

fn chars(s: &str) -> Vec<char> {
    s.chars().collect()
}

const MEMINFO: &str = "MemTotal:       32229848 kB\nMemFree:         1234567 kB\nMemAvailable:   20000000 kB\nBuffers:          100 kB\nCached:          5242880 kB\nSwapCached:            0 kB\n";

#[test]
fn numbers_parse_like_str_parse() {
    assert_eq!(parse_unsigned(&chars("42"), u64::MAX), Some(42));
    assert_eq!(parse_unsigned(&chars("+7"), u64::MAX), Some(7));
    assert_eq!(parse_unsigned(&chars("18446744073709551615"), u64::MAX), Some(u64::MAX));
    assert_eq!(parse_unsigned(&chars("18446744073709551616"), u64::MAX), None);
    assert_eq!(parse_unsigned(&chars("4294967296"), u32::MAX as u64), None);
    assert_eq!(parse_unsigned(&chars(""), u64::MAX), None);
    assert_eq!(parse_unsigned(&chars("+"), u64::MAX), None);
    assert_eq!(parse_unsigned(&chars("-1"), u64::MAX), None);
    assert_eq!(parse_unsigned(&chars("1 2"), u64::MAX), None);
    for n in [0u64, 9, 10, 99, 12345, 4294967295] {
        assert_eq!(parse_unsigned(&chars(&n.to_string()), u64::MAX), Some(n));
        assert_eq!(parse_unsigned(&chars(&n.to_string()), u64::MAX), n.to_string().parse::<u64>().ok());
    }
}

#[test]
fn words_split_on_white_space() {
    let w = split_words(&chars("  MemTotal:\t 32 kB \n"));
    let got: Vec<String> = w.iter().map(|x| x.iter().collect()).collect();
    assert_eq!(got, vec!["MemTotal:".to_string(), "32".to_string(), "kB".to_string()]);
    assert!(split_words(&chars("   ")).is_empty());
}

#[test]
fn meminfo_values_in_bytes() {
    assert_eq!(meminfo_key_bytes(MEMINFO, "MemTotal"), Some(32229848 * 1024));
    assert_eq!(meminfo_key_bytes(MEMINFO, "MemAvailable"), Some(20000000 * 1024));
    assert_eq!(meminfo_key_bytes(MEMINFO, "Nothing"), None);
    assert_eq!(meminfo_key_bytes("Pages: 12\n", "Pages"), Some(12 * 1024));
    assert_eq!(meminfo_key_bytes("Pages: 12 pages\n", "Pages"), Some(12));
    assert_eq!(meminfo_key_bytes("Big: 18446744073709551615 kB\n", "Big"), Some(u64::MAX));
    assert_eq!(meminfo_key_bytes("Bad: x kB\nBad: 5 kB\n", "Bad"), None);
}

#[test]
fn cached_memory_from_meminfo() {
    assert_eq!(cached_memory_kb(MEMINFO), Some(5242880));
    assert_eq!(cached_memory_bytes(MEMINFO), 5242880 * 1024);
    assert_eq!(cached_memory_bytes("Cached: x\nCached: 3 kB\n"), 3072);
    assert_eq!(cached_memory_bytes("MemTotal: 1 kB\n"), 0);
}

#[test]
fn gem_objects_give_the_largest_byte_count() {
    let text = "1234 shrinkable [0 free] objects, 5,120,000 bytes\nsystem: 4096 objects, 2,000 bytes\nnothing here\n";
    assert_eq!(parse_i915_gem_objects_bytes(text), Some(5120000));
    assert_eq!(parse_i915_gem_objects_bytes("no counts\n"), None);
    assert_eq!(parse_i915_gem_objects_bytes("abc Bytes\n"), None);
}

#[test]
fn tile_keys_from_sysfs_paths() {
    assert_eq!(intel_gt_key_from_path("/sys/class/drm/card0/gt/gt1/rps_cur_freq_mhz"), "gt1");
    assert_eq!(intel_gt_key_from_path("/sys/class/drm/card0/gt/other/x"), "card");
    assert_eq!(intel_gt_key_from_path("/sys/class/drm/card0/gt_cur_freq_mhz"), "card");
    assert_eq!(intel_gt_key_from_path("/x/gt/gt0"), "gt0");
}

#[test]
fn shared_graphics_memory_bounds() {
    assert_eq!(intel_shared_memory_total(Some(100), Some(1000), Some(50), 0), Some(150));
    assert_eq!(intel_shared_memory_total(Some(900), Some(1000), Some(200), 0), Some(1000));
    assert_eq!(intel_shared_memory_total(Some(10), Some(5), Some(8), 0), Some(8));
    assert_eq!(intel_shared_memory_total(Some(100), Some(50), None, 0), Some(50));
    assert_eq!(intel_shared_memory_total(Some(u64::MAX), None, Some(1), 0), Some(u64::MAX));
    assert_eq!(intel_shared_memory_total(Some(7), None, None, 0), Some(7));
    assert_eq!(intel_shared_memory_total(None, Some(64), Some(1), 0), Some(64));
    assert_eq!(intel_shared_memory_total(None, None, None, 32), Some(32));
    assert_eq!(intel_shared_memory_total(None, None, Some(3), 0), None);
}

#[test]
fn cpufreq_values_in_mhz() {
    assert_eq!(frequency_from_sysfs("2400000\n"), Some(2400));
    assert_eq!(frequency_from_sysfs("99999"), Some(99999));
    assert_eq!(frequency_from_sysfs("0\n"), None);
    assert_eq!(frequency_from_sysfs("n/a"), None);
}

#[test]
fn missing_frequencies_are_filled_in() {
    let reported = vec![0u64, 3000];
    let sysfs = vec![None, Some(1), None];
    let cpuinfo = vec![Some(1800), Some(2), Some(2200)];
    assert_eq!(fill_cpu_frequencies(&reported, 3, &sysfs, &cpuinfo), vec![1800, 3000, 2200]);
    assert_eq!(fill_cpu_frequencies(&vec![5, 6], 1, &vec![], &vec![]), vec![5, 6]);
    assert_eq!(fill_cpu_frequencies(&vec![], 2, &vec![], &vec![]), vec![0, 0]);
}

#[test]
fn processor_sensors_are_recognised() {
    assert!(has_cpu_sensor(&vec!["acpitz".to_string(), "x86_PKG_TEMP".to_string()]));
    assert!(!has_cpu_sensor(&vec!["acpitz".to_string(), "nvme".to_string()]));
    assert!(!has_cpu_sensor(&Vec::new()));
}

#[test]
fn chassis_types_without_a_battery() {
    assert!(!no_battery_chassis("3\n"));
    assert!(!no_battery_chassis("9"));
    assert!(no_battery_chassis("17\n"));
    assert!(no_battery_chassis("garbage"));
}

#[test]
fn windows_battery_states() {
    assert_eq!(battery_status_name("2\r\n"), "AC attached");
    assert_eq!(battery_status_name("6"), "Charging");
    assert_eq!(battery_status_name("9"), "Unknown");
}

#[test]
fn cpuinfo_values_carry_their_processor_number() {
    let content = "cpu MHz\t\t: 999.0\nprocessor\t: 0\nmodel name\t: Some CPU\ncpu MHz\t\t: 2400.123\n\nprocessor\t: 1\ncpu MHz\t\t: 3100.5\r\nprocessor\t: x\ncpu MHz\t\t: 800.0\n";
    let fields = cpu_mhz_fields(content);
    assert_eq!(
        fields,
        vec![(0usize, "2400.123".to_string()), (1usize, "3100.5".to_string())]
    );
    assert!(cpu_mhz_fields("").is_empty());
    assert_eq!(cpu_mhz_fields("processor : 3\ncpu MHz:1.5"), vec![(3usize, "1.5".to_string())]);
}

const PMSET: &str = "Now drawing from 'Battery Power'\n -InternalBattery-0 (id=1234567)\t87%; discharging; 4:12 remaining present: true\n";

#[test]
fn pmset_battery_line_is_found_and_read() {
    let line = pmset_battery_line(PMSET).unwrap();
    assert_eq!(line, " -InternalBattery-0 (id=1234567)\t87%; discharging; 4:12 remaining present: true");
    assert!(pmset_percent_in_order(&line));
    assert_eq!(pmset_percent_text(&line), Some("id=1234567)\t87".to_string()));
    assert_eq!(pmset_status(&line), Some("Battery-0 (id=1234567)\t87%".to_string()));
    assert_eq!(pmset_battery_line("Now drawing from 'AC Power'\n"), None);
    assert_eq!(pmset_percent_text("no level here"), None);
    assert_eq!(pmset_status("Battery without end"), None);
    assert_eq!(pmset_status("nothing"), None);
    assert!(!pmset_percent_in_order("50% (x"));
    assert!(pmset_percent_in_order("50% only"));
}
