//! Snapshots: where they are kept, how they are loaded, and the lock.

use irene::snapshot::{
    default_version, load_snapshot, lock_after_open, lock_after_request, lock_path, snapshot_path,
    temp_file_name, ColumnSnapshot, FontPoints, FontSnapshot, LockStep, SnapshotLoad, SnapshotRead,
    WorkspaceSnapshot,
};

fn sample() -> WorkspaceSnapshot {
    WorkspaceSnapshot {
        version: 1,
        workspace_id: 138,
        output_name: Some("DP-1".to_string()),
        monitor_width: Some(2560),
        monitor_height: Some(1440),
        timestamp: Some(1725748000.0f64.to_bits()),
        active_window_id: Some(1001),
        columns: vec![
            ColumnSnapshot {
                column_index: 1,
                lead_window_id: 1000,
                original_pixel_width: 840,
                window_ids: vec![1000, 1001],
                window_heights: vec![705, 705],
            },
            ColumnSnapshot {
                column_index: 2,
                lead_window_id: 1002,
                original_pixel_width: 840,
                window_ids: vec![1002],
                window_heights: vec![1420],
            },
        ],
        font: Some(FontSnapshot {
            original_config_local: Some("test-config".to_string()),
            target_pids: vec![1234, 5678],
            applied_font_size: FontPoints::Tenths(115),
        }),
        original_widths: Some(vec![840, 840, 840]),
        compressed_widths: Some(vec![500, 500, 500]),
        font_size_original: Some(FontPoints::Tenths(120)),
        font_size_compressed: Some(FontPoints::Tenths(85)),
        is_compressed: Some(true),
        timestamp_utc: Some("2026-09-08T00:55:00Z".to_string()),
    }
}

#[test]
fn test_snapshot_helpers_and_paths() {
    let ws_id = 99999;
    let path_str = snapshot_path(ws_id);
    assert_eq!(path_str, "/tmp/niri-compress-99999.json");

    let lock_str = lock_path(ws_id);
    assert_eq!(lock_str, "/tmp/niri-compress-99999.lock");

    assert!(matches!(load_snapshot(SnapshotRead::Missing), SnapshotLoad::Absent));
}

#[test]
fn a_snapshot_that_parses_is_found_as_it_is() {
    let read = SnapshotRead::Text {
        data: "{\"workspace_id\": 138}".to_string(),
        parsed: Some(sample()),
    };
    match load_snapshot(read) {
        SnapshotLoad::Found(loaded) => {
            assert_eq!(loaded, sample());
            assert_eq!(loaded.clone(), loaded);
        }
        _ => panic!("failed to load snapshot"),
    }
}

#[test]
fn test_snapshot_corrupted_payload_self_healing() {
    let empty = SnapshotRead::Text { data: String::new(), parsed: None };
    assert!(
        matches!(load_snapshot(empty), SnapshotLoad::Corrupt),
        "Corrupted empty file should have been unlinked"
    );

    let truncated = SnapshotRead::Text {
        data: "{\"version\": 1, \"workspace_id\": ".to_string(),
        parsed: None,
    };
    assert!(
        matches!(load_snapshot(truncated), SnapshotLoad::Corrupt),
        "Corrupted truncated JSON should have been unlinked"
    );

    let schema = SnapshotRead::Text {
        data: "{\"version\": \"not_a_number\"}".to_string(),
        parsed: None,
    };
    assert!(
        matches!(load_snapshot(schema), SnapshotLoad::Corrupt),
        "Corrupted schema JSON should have been unlinked"
    );
}

#[test]
fn blank_files_are_corrupt_whatever_they_parse_to() {
    let blank = SnapshotRead::Text { data: " \n\t ".to_string(), parsed: Some(sample()) };
    assert!(matches!(load_snapshot(blank), SnapshotLoad::Corrupt));
}

#[test]
fn unreadable_files_are_left_alone() {
    assert!(matches!(load_snapshot(SnapshotRead::Unreadable), SnapshotLoad::Absent));
}

#[test]
fn a_lock_is_asked_for_held_and_released_once() {
    let fd = match lock_after_open(7) {
        LockStep::Request(fd) => fd,
        _ => panic!("the lock should be asked for"),
    };
    assert_eq!(fd, 7);
    let mut lock1 = match lock_after_request(fd, 0) {
        LockStep::Hold(lock) => lock,
        _ => panic!("First lock acquisition should succeed"),
    };
    assert!(
        matches!(lock_after_request(8, -1), LockStep::CloseAndGiveUp(8)),
        "Second lock acquisition should fail while lock1 is held"
    );
    assert_eq!(lock1.release(), Some(7));
    assert_eq!(lock1.release(), None);
    assert!(
        matches!(lock_after_request(9, 0), LockStep::Hold(_)),
        "Lock acquisition should succeed after previous lock is dropped"
    );
}

#[test]
fn a_lock_file_that_does_not_open_gives_no_lock() {
    assert!(matches!(lock_after_open(-1), LockStep::GiveUp));
    assert!(matches!(lock_after_open(0), LockStep::Request(0)));
}

#[test]
fn temporary_names() {
    assert_eq!(temp_file_name(Some("a.json"), 42), ".a.json.42.tmp");
    assert_eq!(temp_file_name(None, 7), ".snapshot.7.tmp");
    assert_eq!(temp_file_name(Some("config.local"), 0), ".config.local.0.tmp");
}

#[test]
fn paths_of_different_workspaces_differ() {
    assert_eq!(snapshot_path(0), "/tmp/niri-compress-0.json");
    assert_eq!(snapshot_path(u64::MAX), "/tmp/niri-compress-18446744073709551615.json");
    assert_ne!(snapshot_path(1), snapshot_path(11));
    assert_ne!(snapshot_path(1), lock_path(1));
}

#[test]
fn snapshots_without_a_version_are_of_the_first() {
    assert_eq!(default_version(), 1);
}
