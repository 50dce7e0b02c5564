use rtop::action::Action;
use rtop::disks::{collect_disks, deduplicate_disks, disk_totals, merge_volumes, DiskComponent, MountEntry};
use rtop::snapshot::{ColorScheme, DiskInfo};
use rtop::theme::Theme;

fn mount(name: &str, fs: &str, total: u64, available: u64) -> MountEntry {
    MountEntry { name: name.to_string(), file_system: fs.to_string(), total_space: total, available_space: available }
}

fn disk(name: &str, total: u64, available: u64) -> DiskInfo {
    DiskInfo { name: name.to_string(), total_space: total, available_space: available }
}

fn summary(d: &[DiskInfo]) -> Vec<(String, u64, u64)> {
    d.iter().map(|x| (x.name.clone(), x.total_space, x.available_space)).collect()
}

#[test]
fn collector_merges_mounts_of_one_volume() {
    // A btrfs volume mounted twice, an empty pseudo file system, and two disks.
    let entries = vec![
        mount("/dev/sda2", "btrfs", 500, 200),
        mount("proc", "proc", 0, 0),
        mount("/dev/sda2", "btrfs", 500, 150),
        mount("/dev/nvme0", "ext4", 1000, 900),
        mount("/dev/sda2", "vfat", 500, 400),
    ];
    let disks = collect_disks(&entries);
    assert_eq!(summary(&disks)[0], ("/dev/nvme0".to_string(), 1000, 900));
    assert_eq!(disks.len(), 3);
    // The btrfs mounts merge and keep the least available space; vfat stays apart.
    let mut sda: Vec<u64> = disks.iter().filter(|d| d.name == "/dev/sda2").map(|d| d.available_space).collect();
    sda.sort();
    assert_eq!(sda, vec![150, 400]);
}

#[test]
fn dedup_merges_by_name_and_size_and_orders_larger_first() {
    let disks = vec![disk("b", 10, 5), disk("a", 10, 7), disk("b", 20, 1), disk("a", 10, 3)];
    assert_eq!(
        summary(&deduplicate_disks(&disks)),
        vec![("a".to_string(), 10, 3), ("b".to_string(), 20, 1), ("b".to_string(), 10, 5)]
    );
}

#[test]
fn dedup_of_nothing_is_nothing() {
    assert!(deduplicate_disks(&Vec::new()).is_empty());
}

#[test]
fn dedup_twice_changes_nothing() {
    let disks = vec![disk("x", 3, 1), disk("x", 3, 2), disk("w", 9, 9)];
    let once = deduplicate_disks(&disks);
    let twice = deduplicate_disks(&once);
    assert_eq!(summary(&once), summary(&twice));
}

#[test]
fn merge_keeps_file_systems_apart_when_asked() {
    let entries = vec![mount("d", "ext4", 5, 4), mount("d", "xfs", 5, 1)];
    assert_eq!(merge_volumes(&entries, true).len(), 2);
    let merged = merge_volumes(&entries, false);
    assert_eq!(merged.len(), 1);
    assert_eq!(merged[0].available_space, 1);
}

#[test]
fn totals_add_used_and_size() {
    let disks = vec![disk("a", 100, 40), disk("b", 50, 50)];
    assert_eq!(disk_totals(&disks), (60, 150));
    assert_eq!(disk_totals(&Vec::new()), (0, 0));
}

#[test]
fn disk_selection_moves_within_merged_volumes() {
    let disks = vec![disk("a", 1, 1), disk("a", 1, 0), disk("b", 2, 1)];
    let mut c = DiskComponent::new(disks, Theme::new(ColorScheme::Default));
    c.update(Action::MoveUp);
    assert_eq!(c.selected_index, 0);
    c.update(Action::MoveDown);
    assert_eq!(c.selected_index, 1);
    c.update(Action::MoveDown);
    assert_eq!(c.selected_index, 1);
    c.update(Action::MoveUp);
    assert_eq!(c.selected_index, 0);
}
