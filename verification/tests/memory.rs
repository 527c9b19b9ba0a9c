use g_mesh::memory::{process_tree_rss_mb, process_tree_sample, ProcessRecord, ProcessTreeSample};

fn process(pid: u32, parent: Option<u32>, memory: u64) -> ProcessRecord {
    ProcessRecord { pid, parent, memory }
}

#[test]
fn a_samples_megabytes_are_its_bytes_rounded_down_to_whole_mebibytes() {
    let sample_of = |bytes: u64| ProcessTreeSample { members: vec![(1, bytes)], total_bytes: bytes };

    assert_eq!(sample_of(0).rss_mb(), 0);
    assert_eq!(sample_of(1024 * 1024 - 1).rss_mb(), 0, "a hair under 1MiB is not yet 1MB");
    assert_eq!(sample_of(1024 * 1024).rss_mb(), 1);
    assert_eq!(sample_of(100 * 1024 * 1024).rss_mb(), 100, "mebibytes, not megabytes");
    assert_eq!(sample_of(600 * 1024 * 1024 + 12_345).rss_mb(), 600, "rounds down, never up");
}

#[test]
fn a_sample_answers_about_each_member_it_walked() {
    let sample = ProcessTreeSample {
        members: vec![(11, 3 * 1024 * 1024), (22, 1024 * 1024), (33, 0)],
        total_bytes: 4 * 1024 * 1024,
    };

    assert!(sample.contains(11) && sample.contains(22));
    assert!(sample.contains(33), "a member with no measurable RSS is still a member");
    assert!(!sample.contains(44));
    assert_eq!(sample.rss_bytes_of(22), Some(1024 * 1024));
    assert_eq!(sample.rss_bytes_of(44), None);
    assert_eq!(sample.rss_mb(), 4);
    assert_eq!(sample.members().len(), 3);
}

#[test]
fn a_pid_that_is_not_in_the_snapshot_reads_as_none() {
    let snapshot = vec![process(1, None, 10)];
    assert_eq!(process_tree_sample(&snapshot, 2), None);
    assert_eq!(process_tree_rss_mb(&snapshot, 2), None);
}

#[test]
fn descendants_of_every_generation_are_part_of_the_tree_and_others_are_not() {
    let snapshot = vec![
        process(4, Some(3), 1 << 20),
        process(1, None, 7 << 20),
        process(2, Some(1), 2 << 20),
        process(3, Some(2), 4 << 20),
        process(5, Some(1), 8 << 20),
    ];
    let sample = process_tree_sample(&snapshot, 2).unwrap();
    assert_eq!(sample.members()[0], (2, 2 << 20), "the root comes first");
    assert_eq!(sample.rss_bytes(), 7 << 20);
    assert_eq!(sample.rss_mb(), 7);
    assert!(sample.contains(2) && sample.contains(3) && sample.contains(4));
    assert!(!sample.contains(1) && !sample.contains(5));
    assert_eq!(process_tree_rss_mb(&snapshot, 1), Some(22));
}

#[test]
fn a_cycle_of_parents_does_not_trap_the_walk() {
    let snapshot = vec![process(1, Some(2), 3), process(2, Some(1), 4)];
    let sample = process_tree_sample(&snapshot, 1).unwrap();
    assert_eq!(sample.rss_bytes(), 7);
    assert_eq!(sample.members().len(), 2);
}

#[test]
fn a_total_that_does_not_fit_stops_at_the_largest_that_does() {
    let snapshot = vec![process(1, None, u64::MAX), process(2, Some(1), 1)];
    assert_eq!(process_tree_sample(&snapshot, 1).unwrap().rss_bytes(), u64::MAX);
}
