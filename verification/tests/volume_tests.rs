use file_finder::volume::get_volumes;
use file_finder::volume::monitor_step;
use file_finder::volume::snapshot_from_stats;
use file_finder::volume::same_mounts_check;
use file_finder::volume::volume_from_stats;
use file_finder::volume::DiskStats;
use file_finder::volume::Volume;

fn vol(mountpoint: &str, total_gb: u16) -> Volume {
    Volume {
        is_removable: false,
        kind: "SSD".to_string(),
        mountpoint: mountpoint.to_string(),
        available_gb: 0,
        used_gb: 0,
        total_gb,
    }
}

#[test]
fn gigabytes_are_truncated_independently() {
    let v = volume_from_stats(DiskStats {
        mountpoint: "/".to_string(),
        kind: "SSD".to_string(),
        is_removable: false,
        total_bytes: 10_500_000_000,
        available_bytes: 2_999_999_999,
    });
    assert_eq!(v.total_gb, 10);
    assert_eq!(v.available_gb, 2);
    // used bytes are 7_500_000_001, truncated on their own
    assert_eq!(v.used_gb, 7);
    // the three figures need not sum up: 7 + 2 != 10
    assert!(v.used_gb + v.available_gb != v.total_gb);
}

#[test]
fn gigabytes_exact_boundaries() {
    let v = volume_from_stats(DiskStats {
        mountpoint: "/".to_string(),
        kind: "HDD".to_string(),
        is_removable: true,
        total_bytes: 2_000_000_000,
        available_bytes: 999_999_999,
    });
    assert_eq!(v.total_gb, 2);
    assert_eq!(v.available_gb, 0);
    assert_eq!(v.used_gb, 1);
    assert!(v.is_removable);
    assert_eq!(v.kind, "HDD");
    assert_eq!(v.mountpoint, "/");
}

#[test]
fn racy_reading_yields_zero_used() {
    let v = volume_from_stats(DiskStats {
        mountpoint: "/".to_string(),
        kind: "SSD".to_string(),
        is_removable: false,
        total_bytes: 1_000_000_000,
        available_bytes: 3_000_000_000,
    });
    assert_eq!(v.used_gb, 0);
    assert_eq!(v.available_gb, 3);
}

#[test]
fn unmount_is_published_once() {
    let a = vec![vol("/mnt1", 10), vol("/mnt2", 20)];
    let b = vec![vol("/mnt1", 10)];

    let step = monitor_step(&a, &b);
    let removed = step.expect("a changed mountpoint set must be reported");
    assert_eq!(removed.len(), 1);
    assert_eq!(removed[0].mountpoint, "/mnt2");
    assert_eq!(removed[0].total_gb, 20);

    // the new snapshot becomes the held one; the transition is over
    assert!(monitor_step(&b, &b).is_none());
}

#[test]
fn capacity_drift_is_never_published() {
    let a = vec![vol("/mnt1", 10), vol("/mnt2", 20)];
    let mut b = vec![vol("/mnt1", 10), vol("/mnt2", 20)];
    b[0].available_gb = 7;
    b[1].used_gb = 13;
    assert!(same_mounts_check(&a, &b));
    assert!(monitor_step(&a, &b).is_none());
}

#[test]
fn attach_without_detach_reports_empty_removed_set() {
    let a = vec![vol("/mnt1", 10)];
    let b = vec![vol("/mnt1", 10), vol("/mnt2", 20)];
    let removed = monitor_step(&a, &b).expect("an attach changes the mountpoint set");
    assert!(removed.is_empty());
}

fn stats(mountpoint: &str, total_bytes: u64, available_bytes: u64) -> DiskStats {
    DiskStats {
        mountpoint: mountpoint.to_string(),
        kind: "SSD".to_string(),
        is_removable: false,
        total_bytes,
        available_bytes,
    }
}

#[test]
fn snapshot_converts_every_reading() {
    let snap = snapshot_from_stats(vec![
        stats("/", 10_500_000_000, 2_999_999_999),
        stats("/mnt1", 2_000_000_000, 999_999_999),
    ]);
    assert_eq!(snap.len(), 2);
    let root = snap.iter().find(|v| v.mountpoint == "/").unwrap();
    assert_eq!((root.total_gb, root.available_gb, root.used_gb), (10, 2, 7));
    let mnt = snap.iter().find(|v| v.mountpoint == "/mnt1").unwrap();
    assert_eq!((mnt.total_gb, mnt.available_gb, mnt.used_gb), (2, 0, 1));
}

#[test]
fn snapshot_drops_duplicate_mountpoints() {
    let snap = snapshot_from_stats(vec![
        stats("/", 10_000_000_000, 5_000_000_000),
        stats("/", 9_000_000_000, 1_000_000_000),
        stats("/mnt1", 2_000_000_000, 999_999_999),
    ]);
    assert_eq!(snap.len(), 2);
    assert!(snap.iter().any(|v| v.mountpoint == "/"));
    assert!(snap.iter().any(|v| v.mountpoint == "/mnt1"));
}

#[test]
fn live_snapshot_has_distinct_mountpoints() {
    let snap = get_volumes();
    for i in 0..snap.len() {
        for j in 0..snap.len() {
            if i != j {
                assert_ne!(snap[i].mountpoint, snap[j].mountpoint);
            }
        }
    }
    // a snapshot taken twice in a row covers the same mountpoints
    assert!(monitor_step(&snap, &get_volumes()).is_none());
}

#[test]
fn swap_reports_only_the_departed_volume() {
    let a = vec![vol("/mnt1", 10), vol("/mnt2", 20)];
    let b = vec![vol("/mnt2", 20), vol("/mnt3", 30)];
    let removed = monitor_step(&a, &b).unwrap();
    assert_eq!(removed.len(), 1);
    assert_eq!(removed[0].mountpoint, "/mnt1");
}
