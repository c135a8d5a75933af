//! Font sizes, terminal processes and the terminal's configuration.

use irene::font::{
    calculate_font_size, get_font_size_floor, get_ghostty_pids, get_ghostty_pids_for_workspace,
    is_ghostty, signal_ghostty_pids,
};
use irene::ghostty_config::{get_base_font_size, local_config_path};
use irene::model::Window;

#[allow(clippy::too_many_arguments)]
fn make_test_window(
    id: u64,
    workspace_id: u64,
    col: usize,
    row: usize,
    width: f64,
    height: f64,
    app_id: Option<&str>,
    pid: Option<i32>,
) -> Window {
    Window {
        id,
        app_id: app_id.map(String::from),
        pid,
        workspace_id: Some(workspace_id),
        is_focused: false,
        is_floating: false,
        pos_in_scrolling_layout: Some((col, row)),
        tile_size: (width.round() as i32, height.round() as i32),
    }
}

/// A size in points as tenths.
fn tenths(points: f64) -> u32 {
    (points * 10.0).round() as u32
}

/// Tenths as a size in points.
fn points(tenths: u32) -> f64 {
    f64::from(tenths) / 10.0
}

fn calculate_font_size_with_base(base: f64, num_cols: usize, max_rows: usize) -> f64 {
    points(irene::font::calculate_font_size_with_base(tenths(base), num_cols, max_rows))
}

fn detect_ghostty_config_baseline(content: &str) -> f64 {
    points(irene::ghostty_config::detect_ghostty_config_baseline(content))
}

fn apply_ghostty_font_size(content: &str, font_size: f64) -> String {
    irene::ghostty_config::apply_ghostty_font_size(content, tenths(font_size))
}

fn restore_ghostty_font_size(original: Option<&str>, present: Option<&str>) -> Option<String> {
    irene::ghostty_config::restore_ghostty_font_size(original, present)
}

#[test]
fn test_font_scaling_bounds() {
    for c in 1..=10 {
        for r in 1..=10 {
            let size = calculate_font_size_with_base(12.0, c, r);
            assert!(
                size >= 8.5,
                "Font size below 8.5 floor for C={c}, R={r}: {size}"
            );
            assert!(
                size <= 12.0,
                "Font size above 12.0 cap for C={c}, R={r}: {size}"
            );
        }
    }
}

#[test]
fn test_font_scaling_5x5_floor() {
    let size = calculate_font_size_with_base(12.0, 5, 5);
    assert_eq!(size, 8.5);
}

#[test]
fn test_font_scaling_monotonicity() {
    for r in 1..=5 {
        let mut prev = 13.0;
        for c in 1..=5 {
            let size = calculate_font_size_with_base(12.0, c, r);
            assert!(size <= prev);
            prev = size;
        }
    }

    for c in 1..=5 {
        let mut prev = 13.0;
        for r in 1..=5 {
            let size = calculate_font_size_with_base(12.0, c, r);
            assert!(size <= prev);
            prev = size;
        }
    }
}

#[test]
fn test_ghostty_pid_extraction() {
    let windows = vec![
        make_test_window(
            1,
            10,
            1,
            1,
            800.0,
            600.0,
            Some("com.mitchellh.ghostty"),
            Some(1234),
        ),
        make_test_window(2, 10, 1, 2, 800.0, 600.0, Some("ghostty"), Some(5678)),
        make_test_window(3, 10, 2, 1, 800.0, 600.0, Some("firefox"), Some(9999)),
        make_test_window(4, 20, 1, 1, 800.0, 600.0, Some("ghostty"), Some(7777)),
    ];

    let pids_all = get_ghostty_pids(&windows);
    assert_eq!(pids_all.len(), 3);
    assert!(pids_all.contains(&1234));
    assert!(pids_all.contains(&5678));
    assert!(pids_all.contains(&7777));
    assert!(!pids_all.contains(&9999));

    let pids_ws10 = get_ghostty_pids_for_workspace(&windows, 10);
    assert_eq!(pids_ws10.len(), 2);
    assert!(pids_ws10.contains(&1234));
    assert!(pids_ws10.contains(&5678));
    assert!(!pids_ws10.contains(&7777));
}

#[test]
fn test_detect_ghostty_config_baseline() {
    let terminess_cfg = r#"
# Ghostty config
font-family = Terminess Nerd Font Mono
background-opacity = 0.85
"#;
    assert_eq!(detect_ghostty_config_baseline(terminess_cfg), 17.0);

    let explicit_cfg = r#"
font-family = Terminess Nerd Font Mono
font-size = 14.5
"#;
    assert_eq!(detect_ghostty_config_baseline(explicit_cfg), 14.5);

    let other_cfg = r#"
font-family = Maple Mono NF CN
font-size = 11.0
"#;
    assert_eq!(detect_ghostty_config_baseline(other_cfg), 11.0);

    let plain_cfg = r#"
# No font settings
background-blur = true
"#;
    assert_eq!(detect_ghostty_config_baseline(plain_cfg), 12.0);
}

#[test]
fn test_font_config_local_apply_and_restore() {
    let content = apply_ghostty_font_size("", 10.5);
    assert!(content.contains("font-size = 10.5"));

    let content2 = apply_ghostty_font_size(&content, 8.5);
    assert!(content2.contains("font-size = 8.5"));
    assert_eq!(content2.matches("font-size").count(), 1);

    let content3 = apply_ghostty_font_size(&content2, 8.5);
    assert_eq!(content2, content3);

    let restored = restore_ghostty_font_size(Some("font-family = Terminess\n"), Some(&content3));
    assert_eq!(restored.unwrap(), "font-family = Terminess\n");
}

#[test]
fn sizes_for_small_grids() {
    assert_eq!(calculate_font_size(1, 1), 120);
    assert_eq!(calculate_font_size(0, 0), 120);
    assert_eq!(calculate_font_size(2, 2), 120);
    assert_eq!(calculate_font_size(3, 2), 113);
    assert_eq!(calculate_font_size(3, 3), 108);
    assert_eq!(calculate_font_size(4, 4), 96);
    assert_eq!(calculate_font_size(usize::MAX, usize::MAX), 85);
    assert_eq!(get_font_size_floor(), 85);
    assert_eq!(calculate_font_size_with_base(17.0, 3, 1), 16.3);
}

#[test]
fn terminals_are_recognised() {
    assert!(is_ghostty("com.mitchellh.ghostty"));
    assert!(is_ghostty("COM.MITCHELLH.GHOSTTY"));
    assert!(is_ghostty("my-Ghostty-fork"));
    assert!(!is_ghostty("ghost"));
    assert!(!is_ghostty(""));
}

#[test]
fn pids_are_positive_and_listed_once() {
    let windows = vec![
        make_test_window(1, 1, 1, 1, 1.0, 1.0, Some("ghostty"), Some(7)),
        make_test_window(2, 1, 1, 2, 1.0, 1.0, Some("ghostty"), Some(7)),
        make_test_window(3, 1, 1, 3, 1.0, 1.0, Some("ghostty"), Some(0)),
        make_test_window(4, 1, 1, 4, 1.0, 1.0, Some("ghostty"), Some(-4)),
        make_test_window(5, 1, 1, 5, 1.0, 1.0, Some("ghostty"), None),
        make_test_window(6, 1, 1, 6, 1.0, 1.0, None, Some(8)),
        make_test_window(7, 1, 1, 7, 1.0, 1.0, Some("Ghostty"), Some(3)),
    ];
    assert_eq!(get_ghostty_pids(&windows), vec![7, 3]);
    let mut floating = windows;
    floating[0].is_floating = true;
    floating[1].is_floating = true;
    assert_eq!(get_ghostty_pids(&floating), vec![7, 3]);
    assert_eq!(get_ghostty_pids_for_workspace(&floating, 1), vec![3]);
}

#[test]
fn only_positive_pids_are_signalled() {
    assert_eq!(signal_ghostty_pids(&[5, 0, -1, 5, 9]), vec![5, 5, 9]);
}

#[test]
fn other_lines_survive_a_new_size() {
    let before = "a = 1\n  font-size = 9\nb = 2";
    let after = apply_ghostty_font_size(before, 11.0);
    assert_eq!(after, "a = 1\nb = 2\nfont-size = 11.0\n");
    assert_eq!(detect_ghostty_config_baseline(&after), 11.0);
}

#[test]
fn a_carriage_return_before_a_line_feed_is_dropped() {
    assert_eq!(apply_ghostty_font_size("a\r\n", 12.0), "a\nfont-size = 12.0\n");
    assert_eq!(apply_ghostty_font_size("a\r\r\n", 12.0), "a\r\nfont-size = 12.0\n");
}

#[test]
fn setting_the_same_size_again_changes_nothing() {
    for before in ["", "a = 1", "a\r\nb", "font-size = 9\r", "a\nfont-size = 9\r\r\nb\n"] {
        let once = apply_ghostty_font_size(before, 8.5);
        assert_eq!(apply_ghostty_font_size(&once, 8.5), once, "{before:?}");
        assert_eq!(
            restore_ghostty_font_size(None, Some(&once)),
            restore_ghostty_font_size(None, Some(before)),
            "{before:?}"
        );
    }
}

#[test]
fn a_kept_carriage_return_is_lost_the_second_time() {
    for before in ["a\r", "a\r\r\nb"] {
        let once = apply_ghostty_font_size(before, 8.5);
        assert_ne!(apply_ghostty_font_size(&once, 8.5), once, "{before:?}");
    }
}

#[test]
fn restoring_without_a_saved_configuration_removes_the_size() {
    let set = apply_ghostty_font_size("a = 1\n", 9.0);
    assert_eq!(restore_ghostty_font_size(None, Some(&set)).unwrap(), "a = 1\n");
    assert_eq!(restore_ghostty_font_size(None, Some("font-size = 9\n")).unwrap(), "");
    assert!(restore_ghostty_font_size(None, None).is_none());
    assert_eq!(restore_ghostty_font_size(Some("x"), None).unwrap(), "x");
}

#[test]
fn the_base_size_without_a_configuration() {
    assert_eq!(get_base_font_size(None), 120);
    assert_eq!(get_base_font_size(Some("font-size = 10\nfont-size = 13.5\n")), 135);
    assert_eq!(get_base_font_size(Some("font-size = huge\n")), 120);
}

#[test]
fn the_local_configuration_lies_under_home() {
    assert_eq!(local_config_path("/home/me"), "/home/me/.config/ghostty/config.local");
}
