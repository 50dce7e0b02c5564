use std::collections::VecDeque;
use rtop::history::{push_history_point, record_cpu_samples, update_disk_history, Histories, HISTORY_LEN};
use rtop::snapshot::{DiskInfo, NetworkInfo};

#[test]
fn history_keeps_the_latest_samples() {
    let mut q: VecDeque<u32> = VecDeque::new();
    for i in 0..(HISTORY_LEN as u32 + 30) {
        push_history_point(&mut q, i);
        assert!(q.len() <= HISTORY_LEN);
        assert_eq!(*q.back().unwrap(), i);
    }
    assert_eq!(q.len(), 120);
    assert_eq!(*q.front().unwrap(), 30);
}

#[test]
fn history_grows_until_full() {
    let mut q: VecDeque<(u64, u64)> = VecDeque::new();
    push_history_point(&mut q, (1, 2));
    push_history_point(&mut q, (3, 4));
    assert_eq!(q.iter().cloned().collect::<Vec<_>>(), vec![(1, 2), (3, 4)]);
}

#[test]
fn cpu_histories_restart_when_the_count_changes() {
    let mut h: Vec<VecDeque<f32>> = Vec::new();
    record_cpu_samples(&mut h, &vec![1.0f32, 2.0]);
    record_cpu_samples(&mut h, &vec![3.0f32, 4.0]);
    assert_eq!(h.len(), 2);
    assert_eq!(h[0].iter().cloned().collect::<Vec<_>>(), vec![1.0, 3.0]);
    record_cpu_samples(&mut h, &vec![5.0f32, 6.0, 7.0]);
    assert_eq!(h.len(), 3);
    assert_eq!(h[0].iter().cloned().collect::<Vec<_>>(), vec![5.0]);
    assert_eq!(h[2].iter().cloned().collect::<Vec<_>>(), vec![7.0]);
}

#[test]
fn disk_histories_follow_the_volumes() {
    let mut h: Vec<VecDeque<(u64, u64)>> = Vec::new();
    let two = vec![
        DiskInfo { name: "a".to_string(), total_space: 10, available_space: 4 },
        DiskInfo { name: "b".to_string(), total_space: 20, available_space: 5 },
    ];
    update_disk_history(&mut h, &two);
    update_disk_history(&mut h, &two);
    assert_eq!(h.len(), 2);
    assert_eq!(h[1].iter().cloned().collect::<Vec<_>>(), vec![(5, 20), (5, 20)]);
    let one = vec![DiskInfo { name: "c".to_string(), total_space: 7, available_space: 1 }];
    update_disk_history(&mut h, &one);
    assert_eq!(h.len(), 1);
    assert_eq!(h[0].iter().cloned().collect::<Vec<_>>(), vec![(4, 10), (4, 10), (1, 7)]);
}

#[test]
fn a_run_of_records_stays_bounded_and_current() {
    let mut h: Histories<f32> = Histories::new();
    let nets = vec![
        NetworkInfo {
            name: "eth0".to_string(),
            total_received: u64::MAX,
            total_transmitted: u64::MAX,
            received_per_sec: 300,
            transmitted_per_sec: 7,
        },
        NetworkInfo {
            name: "lo".to_string(),
            total_received: u64::MAX,
            total_transmitted: 1,
            received_per_sec: 5,
            transmitted_per_sec: 11,
        },
    ];
    let disks = vec![DiskInfo { name: "a".to_string(), total_space: 10, available_space: 4 }];
    for i in 0..(HISTORY_LEN as u64 + 5) {
        let cores = if i % 50 == 0 { vec![1.0, 2.0] } else { vec![1.0, 2.0, 3.0] };
        h.record(&cores, (i, 100), (0, 50), &nets, &disks);
        assert_eq!(h.cpu.len(), cores.len());
        assert!(h.cpu.iter().all(|q| q.len() <= HISTORY_LEN));
        assert!(h.memory.len() <= HISTORY_LEN && h.swap.len() <= HISTORY_LEN && h.network.len() <= HISTORY_LEN);
        assert_eq!(h.memory.back(), Some(&(i, 100)));
        assert_eq!(h.network.back(), Some(&(305, 18)));
        assert_eq!(h.disk.len(), 1);
    }
    assert_eq!(h.memory.len(), HISTORY_LEN);
    assert_eq!(*h.memory.front().unwrap(), (5, 100));
    assert_eq!(h.cpu[0].len(), 24);
}
