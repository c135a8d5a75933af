//! Usable areas, equal shares, and the columns of a workspace.

use irene::font::get_ghostty_pids_for_workspace;
use irene::layout::{
    calculate_equal_column_widths, calculate_equal_row_heights, calculate_usable_height,
    calculate_usable_width, check_shares_fit, check_struts_fit, is_window_excluded,
    parse_workspace_columns, parse_workspace_columns_with_exclusions, LayoutConfig, DEFAULT_GAP,
    DEFAULT_STRUT_BOTTOM, DEFAULT_STRUT_LEFT, DEFAULT_STRUT_RIGHT, DEFAULT_STRUT_TOP,
};
use irene::model::Window;

#[allow(clippy::too_many_arguments)]
fn make_test_window(
    id: u64,
    workspace_id: u64,
    col: usize,
    row: usize,
    width: f64,
    height: f64,
    app_id: Option<&str>,
    pid: Option<i32>,
) -> Window {
    Window {
        id,
        app_id: app_id.map(String::from),
        pid,
        workspace_id: Some(workspace_id),
        is_focused: false,
        is_floating: false,
        pos_in_scrolling_layout: Some((col, row)),
        tile_size: (width.round() as i32, height.round() as i32),
    }
}

#[test]
fn test_widths_exact_sum_and_delta_across_all_n() {
    let usable_width = 2560;
    let gap = 10;
    for n in 1..=25 {
        let widths = calculate_equal_column_widths(usable_width, gap, n);
        assert_eq!(widths.len(), n);

        let total_consumed: i32 = widths.iter().sum::<i32>() + (n as i32 + 1) * gap;
        assert_eq!(total_consumed, usable_width);

        let max_w = *widths.iter().max().unwrap();
        let min_w = *widths.iter().min().unwrap();
        assert!(
            max_w - min_w <= 1,
            "Delta exceeded 1 for n={n}: {max_w} vs {min_w}"
        );

        for &w in &widths {
            assert!(w > 0);
        }
    }
}

#[test]
fn test_standard_dp1_counts() {
    let widths_3 = calculate_equal_column_widths(2560, 10, 3);
    assert_eq!(widths_3, vec![840, 840, 840]);

    let widths_5 = calculate_equal_column_widths(2560, 10, 5);
    assert_eq!(widths_5, vec![500, 500, 500, 500, 500]);

    let widths_4 = calculate_equal_column_widths(2560, 10, 4);
    assert_eq!(widths_4, vec![628, 628, 627, 627]);

    let widths_8 = calculate_equal_column_widths(2560, 10, 8);
    assert_eq!(widths_8.len(), 8);
    for &w in &widths_8 {
        assert!(w == 308 || w == 309);
    }

    let widths_12 = calculate_equal_column_widths(2560, 10, 12);
    assert_eq!(widths_12.len(), 12);
    for &w in &widths_12 {
        assert!(w == 202 || w == 203);
    }
}

#[test]
fn test_strut_offset_waybar() {
    let usable_width = 2532;
    let gap = 10;

    let widths_3 = calculate_equal_column_widths(usable_width, gap, 3);
    assert_eq!(widths_3, vec![831, 831, 830]);
    assert_eq!(widths_3.iter().sum::<i32>() + 40, 2532);

    let widths_5 = calculate_equal_column_widths(usable_width, gap, 5);
    assert_eq!(widths_5, vec![495, 495, 494, 494, 494]);
    assert_eq!(widths_5.iter().sum::<i32>() + 60, 2532);

    for n in 1..=25 {
        let widths = calculate_equal_column_widths(usable_width, gap, n);
        assert_eq!(widths.len(), n);
        let total = widths.iter().sum::<i32>() + (n as i32 + 1) * gap;
        assert_eq!(total, 2532);
        let max_w = *widths.iter().max().unwrap();
        let min_w = *widths.iter().min().unwrap();
        assert!(max_w - min_w <= 1);
    }
}

#[test]
fn test_zero_and_edge_cases() {
    assert_eq!(
        calculate_equal_column_widths(2560, 10, 0),
        Vec::<i32>::new()
    );
    assert_eq!(
        calculate_equal_column_widths(2560, 0, 4),
        vec![640, 640, 640, 640]
    );
    assert_eq!(calculate_equal_column_widths(10, 50, 2), vec![1, 1]);
}

#[test]
fn test_arbitrary_monitor_resolutions() {
    let resolutions = [(1920, 1080), (2560, 1440), (3840, 2160), (5120, 1440)];
    let gap = 10;
    for &(w_mon, _) in &resolutions {
        for n in 1..=20 {
            let widths = calculate_equal_column_widths(w_mon, gap, n);
            assert_eq!(widths.len(), n);
            let total = widths.iter().sum::<i32>() + (n as i32 + 1) * gap;
            assert!(total <= w_mon);
            let max_w = *widths.iter().max().unwrap();
            let min_w = *widths.iter().min().unwrap();
            assert!(max_w - min_w <= 1);
        }
    }
}

#[test]
fn test_column_parsing_and_5x5_grid_preservation() {
    let mut windows = Vec::new();
    let mut id = 1000;
    for col in 1..=5 {
        for row in 1..=5 {
            windows.push(make_test_window(
                id,
                138,
                col,
                row,
                500.0,
                276.0,
                Some("com.mitchellh.ghostty"),
                Some(id as i32),
            ));
            id += 1;
        }
    }

    let cols = parse_workspace_columns(&windows, 138);
    assert_eq!(cols.len(), 5);

    for (idx, col) in cols.iter().enumerate() {
        assert_eq!(col.column_index, idx + 1);
        assert_eq!(col.window_ids.len(), 5);
        assert_eq!(col.lead_window_id, 1000 + (idx as u64) * 5);
        assert_eq!(col.original_pixel_width, 500);
        assert_eq!(col.window_heights, vec![276, 276, 276, 276, 276]);
    }

    let pids = get_ghostty_pids_for_workspace(&windows, 138);
    assert_eq!(pids.len(), 25);
}

#[test]
fn test_usable_width_and_struts() {
    assert_eq!(calculate_usable_width(2560, 0, 0), 2560);
    assert_eq!(
        calculate_usable_width(2560, DEFAULT_STRUT_LEFT, DEFAULT_STRUT_RIGHT),
        2532
    );
    assert_eq!(calculate_usable_width(2560, 26, 0), 2534);
    assert_eq!(calculate_usable_width(2560, 3000, 0), 0);
}

#[test]
fn test_equal_row_heights_math() {
    let usable_h = 1440;
    let gap = DEFAULT_GAP;

    let h1 = calculate_equal_row_heights(usable_h, gap, 1);
    assert_eq!(h1, vec![1420]);

    let h2 = calculate_equal_row_heights(usable_h, gap, 2);
    assert_eq!(h2, vec![705, 705]);

    let h3 = calculate_equal_row_heights(usable_h, gap, 3);
    assert_eq!(h3, vec![467, 467, 466]);
    assert_eq!(h3.iter().sum::<i32>() + 4 * gap, usable_h);

    let h5 = calculate_equal_row_heights(usable_h, gap, 5);
    assert_eq!(h5, vec![276, 276, 276, 276, 276]);
    assert_eq!(h5.iter().sum::<i32>() + 6 * gap, usable_h);

    assert_eq!(calculate_equal_row_heights(1440, 10, 0), Vec::<i32>::new());
    assert_eq!(calculate_equal_row_heights(10, 50, 2), vec![1, 1]);
}

#[test]
fn test_usable_height_and_struts() {
    assert_eq!(calculate_usable_height(1440, 0, 0), 1440);
    assert_eq!(calculate_usable_height(1440, 30, 0), 1410);
    assert_eq!(calculate_usable_height(1440, 0, 40), 1400);
    assert_eq!(calculate_usable_height(1440, 20, 30), 1390);
    assert_eq!(calculate_usable_height(1440, 2000, 0), 0);
}

#[test]
fn test_layout_config_defaults() {
    let cfg = LayoutConfig::default();
    assert_eq!(cfg.gap, DEFAULT_GAP);
    assert_eq!(cfg.strut_left, DEFAULT_STRUT_LEFT);
    assert_eq!(cfg.strut_right, DEFAULT_STRUT_RIGHT);
    assert_eq!(cfg.strut_top, DEFAULT_STRUT_TOP);
    assert_eq!(cfg.strut_bottom, DEFAULT_STRUT_BOTTOM);
}

#[test]
fn test_equal_row_heights_exact_sum() {
    let usable_h = 1440;
    let gap = 10;
    for m in 1..=10 {
        let heights = calculate_equal_row_heights(usable_h, gap, m);
        assert_eq!(heights.len(), m);
        let total: i32 = heights.iter().sum::<i32>() + (m as i32 + 1) * gap;
        assert_eq!(total, usable_h);
        let max_h = *heights.iter().max().unwrap();
        let min_h = *heights.iter().min().unwrap();
        assert!(max_h - min_h <= 1);
    }
}

#[test]
fn test_is_window_excluded() {
    let floating_win = Window {
        id: 1,
        app_id: Some("ghostty".to_string()),
        pid: Some(1234),
        workspace_id: Some(1),
        is_focused: false,
        is_floating: true,
        pos_in_scrolling_layout: None,
        tile_size: (500, 500),
    };
    assert!(is_window_excluded(&floating_win, &[]));

    let tiled_mpv = Window {
        id: 2,
        app_id: Some("mpv".to_string()),
        pid: Some(2345),
        workspace_id: Some(1),
        is_focused: false,
        is_floating: false,
        pos_in_scrolling_layout: Some((0, 0)),
        tile_size: (800, 600),
    };
    assert!(!is_window_excluded(&tiled_mpv, &[]));
    assert!(is_window_excluded(&tiled_mpv, &["mpv".to_string()]));
    assert!(is_window_excluded(&tiled_mpv, &["MPV".to_string()]));
    assert!(!is_window_excluded(&tiled_mpv, &["steam".to_string()]));
}

/// A window that is not tiled yet.
fn unplaced(id: u64, workspace_id: u64) -> Window {
    let mut window = make_test_window(id, workspace_id, 1, 1, 100.0, 100.0, None, None);
    window.pos_in_scrolling_layout = None;
    window
}

#[test]
fn shares_fill_the_usable_extent() {
    // 2560 less eleven gaps of ten leaves 2450.
    assert_eq!(calculate_equal_column_widths(2560, 10, 10), vec![245; 10]);
    // 1440 less five gaps of seven leaves 1405: the topmost row gets the odd pixel.
    assert_eq!(calculate_equal_row_heights(1440, 7, 4), vec![352, 351, 351, 351]);
    // A negative gap widens the shares.
    assert_eq!(calculate_equal_column_widths(100, -10, 1), vec![120]);
}

#[test]
fn too_little_space_still_gives_a_pixel() {
    assert_eq!(calculate_equal_column_widths(0, 0, 3), vec![1, 1, 1]);
    assert_eq!(calculate_equal_column_widths(-5, 3, 2), vec![1, 1]);
}

#[test]
fn fits_are_recognised() {
    assert!(check_shares_fit(2560, 10, 25));
    assert!(check_shares_fit(i32::MAX, i32::MAX, 0));
    assert!(!check_shares_fit(2560, i32::MAX, 1));
    assert!(!check_shares_fit(i32::MIN, 10, 1));
    assert!(check_struts_fit(2560, 28, 0));
    assert!(!check_struts_fit(i32::MIN, 1, 0));
    assert!(!check_struts_fit(i32::MAX, 0, -1));
}

#[test]
fn struts_may_be_negative() {
    assert_eq!(calculate_usable_width(1000, -10, -20), 1030);
    assert_eq!(calculate_usable_height(-50, 0, 0), 0);
}

#[test]
fn columns_are_sorted_and_rows_run_downwards() {
    let windows = vec![
        make_test_window(5, 1, 3, 1, 400.4, 300.5, None, None),
        make_test_window(2, 1, 1, 2, 250.0, 310.0, None, None),
        make_test_window(1, 1, 1, 1, 251.0, 320.0, None, None),
        make_test_window(9, 2, 1, 1, 1.0, 1.0, None, None),
        unplaced(7, 1),
    ];
    let columns = parse_workspace_columns(&windows, 1);
    assert_eq!(columns.len(), 2);
    assert_eq!(columns[0].column_index, 1);
    assert_eq!(columns[0].lead_window_id, 1);
    assert_eq!(columns[0].window_ids, vec![1, 2]);
    assert_eq!(columns[0].original_pixel_width, 251);
    assert_eq!(columns[0].window_heights, vec![320, 310]);
    assert_eq!(columns[1].column_index, 3);
    assert_eq!(columns[1].original_pixel_width, 400);
    assert_eq!(columns[1].window_heights, vec![301]);
    assert!(parse_workspace_columns(&windows, 3).is_empty());
}

#[test]
fn excluded_and_floating_windows_stand_in_no_column() {
    let mut floating = make_test_window(1, 1, 1, 1, 10.0, 10.0, Some("foot"), None);
    floating.is_floating = true;
    let windows = vec![
        floating,
        make_test_window(2, 1, 1, 2, 10.0, 10.0, Some("mpv"), None),
        make_test_window(3, 1, 2, 1, 10.0, 10.0, None, None),
    ];
    let columns = parse_workspace_columns_with_exclusions(&windows, 1, &["MPV".to_string()]);
    assert_eq!(columns.len(), 1);
    assert_eq!(columns[0].window_ids, vec![3]);
    assert_eq!(parse_workspace_columns(&windows, 1).len(), 2);
}
