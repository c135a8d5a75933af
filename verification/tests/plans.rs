//! Grids, the master stack, and what a refresh plans.

use irene::delivery::{grid_step, plan_step, settle_grid, DeliveryStep};
use irene::grid::{
    check_grid_fits, check_rows_fit, layout_equal_grid, layout_equal_grid_2d, GridPlan,
};
use irene::layout::LayoutConfig;
use irene::master_stack::{layout_workspace, WorkspacePlan};
use irene::model::{Action, LogicalSize, Output, SizeChange, Window, Workspace};
use irene::order::{sort_by_order, TileOrder};
use irene::outputs::{output_dimensions, output_scale};
use irene::refresh::{
    check_plan_fits, plan_workspace, refresh_all_workspaces, refresh_focused_workspace,
};

fn window(id: u64, workspace_id: u64, col: usize, row: usize) -> Window {
    Window {
        id,
        app_id: Some("ghostty".to_string()),
        pid: Some(id as i32),
        workspace_id: Some(workspace_id),
        is_focused: false,
        is_floating: false,
        pos_in_scrolling_layout: Some((col, row)),
        tile_size: (100, 50),
    }
}

fn workspace(id: u64, output: Option<&str>, is_focused: bool) -> Workspace {
    Workspace {
        id,
        name: None,
        output: output.map(String::from),
        is_focused,
        is_active: true,
        active_window_id: None,
    }
}

fn output(name: &str, width: u32, height: u32) -> Output {
    Output {
        name: name.to_string(),
        logical: Some(LogicalSize { width, height, scale: 1.5f64.to_bits() }),
    }
}

fn fixed_width(id: u64, width: i32) -> Action {
    Action::SetWindowWidth { id, change: SizeChange::SetFixed(width) }
}

fn fixed_height(id: u64, height: i32) -> Action {
    Action::SetWindowHeight { id, change: SizeChange::SetFixed(height) }
}

fn percent(id: u64, percent: u32) -> Action {
    Action::SetWindowWidth { id, change: SizeChange::SetProportion(percent) }
}

fn reset(id: u64) -> Action {
    Action::ResetWindowHeight { id }
}

fn left(id: u64) -> Action {
    Action::ConsumeOrExpelWindowLeft { id }
}

fn right(id: u64) -> Action {
    Action::ConsumeOrExpelWindowRight { id }
}

fn focus(id: u64) -> Action {
    Action::FocusWindow { id }
}

fn stack(windows: &[Window]) -> Vec<Action> {
    match layout_workspace(windows, 1, false) {
        WorkspacePlan::MasterStack(actions) => actions,
        WorkspacePlan::EqualGrid(_) => panic!("the workspace is not compressed"),
    }
}

fn grid(plan: WorkspacePlan) -> Option<GridPlan> {
    match plan {
        WorkspacePlan::EqualGrid(plan) => plan,
        WorkspacePlan::MasterStack(_) => panic!("a grid is asked for"),
    }
}

#[test]
fn an_equal_grid() {
    let windows = vec![window(1, 1, 1, 1), window(2, 1, 2, 1), window(3, 1, 2, 2)];
    let plan = layout_equal_grid(&windows, 1, 2560, 10).unwrap();
    assert_eq!(plan.widths, vec![1265, 1265]);
    assert_eq!(
        plan.actions,
        vec![fixed_width(1, 1265), reset(1), fixed_width(2, 1265), reset(2), reset(3)]
    );
    assert_eq!(plan.font_size, 120);
    assert_eq!(plan.pids, vec![1, 2, 3]);
    assert_eq!(plan.columns.len(), 2);
    assert_eq!(settle_grid(&plan, None).font_size, Some(120));
}

#[test]
fn a_lone_column_takes_what_the_gaps_leave() {
    let windows = vec![window(1, 1, 4, 1)];
    let plan = layout_equal_grid(&windows, 1, 2532, 10).unwrap();
    assert_eq!(plan.widths, vec![2512]);
    let narrow = layout_equal_grid(&windows, 1, 15, 10).unwrap();
    assert_eq!(narrow.widths, vec![1]);
}

#[test]
fn an_empty_workspace_needs_no_grid() {
    let windows = vec![window(1, 2, 1, 1)];
    assert!(layout_equal_grid(&windows, 1, 2560, 10).is_none());
    assert!(layout_equal_grid_2d(&windows, 1, 2560, 1440, 10).is_none());
}

#[test]
fn a_grid_that_is_equal_both_ways() {
    let windows = vec![window(1, 1, 1, 1), window(2, 1, 2, 1), window(3, 1, 2, 2)];
    let plan = layout_equal_grid_2d(&windows, 1, 2560, 1440, 10).unwrap();
    assert_eq!(
        plan.actions,
        vec![
            fixed_width(1, 1265),
            fixed_height(1, 1420),
            fixed_width(2, 1265),
            fixed_height(2, 705),
            fixed_height(3, 705),
        ]
    );
}

#[test]
fn a_grid_without_terminals_sets_no_font() {
    let mut windows = vec![window(1, 1, 1, 1)];
    windows[0].app_id = Some("firefox".to_string());
    let plan = layout_equal_grid(&windows, 1, 2560, 10).unwrap();
    let settlement = settle_grid(&plan, None);
    assert_eq!(settlement.font_size, None);
    assert!(settlement.snapshot.is_none());
}

#[test]
fn grids_that_do_not_fit_are_recognised() {
    let windows = vec![window(1, 1, 1, 1)];
    assert!(check_grid_fits(&windows, 1, 2560, 10));
    assert!(!check_grid_fits(&windows, 1, 2560, i32::MAX));
    assert!(check_grid_fits(&windows, 2, 2560, i32::MAX));
    assert!(check_rows_fit(&windows, 1, 1440, 10));
    assert!(!check_rows_fit(&windows, 1, i32::MIN, 10));
}

#[test]
fn one_window_takes_the_whole_width() {
    assert_eq!(stack(&[window(1, 1, 1, 1)]), vec![percent(1, 100), reset(1)]);
    assert!(stack(&[]).is_empty());
}

#[test]
fn two_windows_share_the_width() {
    assert_eq!(
        stack(&[window(2, 1, 2, 1), window(1, 1, 1, 1)]),
        vec![percent(1, 50), reset(1), percent(2, 50), reset(2)]
    );
}

#[test]
fn stacked_windows_are_taken_apart_first() {
    assert_eq!(
        stack(&[window(1, 1, 1, 1), window(2, 1, 1, 2)]),
        vec![right(2), percent(1, 50), reset(1), percent(2, 50), reset(2)]
    );
}

#[test]
fn the_lowest_of_a_column_leaves_first() {
    let actions = stack(&[window(1, 1, 1, 1), window(2, 1, 1, 2), window(3, 1, 1, 3)]);
    assert_eq!(actions[..2], [right(3), right(2)]);
}

#[test]
fn three_windows_make_a_master_and_a_stack() {
    assert_eq!(
        stack(&[window(1, 1, 1, 1), window(2, 1, 2, 1), window(3, 1, 3, 1)]),
        vec![percent(1, 50), reset(1), percent(2, 50), left(3), reset(2), reset(3)]
    );
}

#[test]
fn four_windows_make_two_columns() {
    assert_eq!(
        stack(&[window(1, 1, 1, 1), window(2, 1, 2, 1), window(3, 1, 3, 1), window(4, 1, 4, 1)]),
        vec![
            percent(1, 50),
            left(2),
            reset(1),
            reset(2),
            percent(3, 50),
            left(4),
            reset(3),
            reset(4),
        ]
    );
}

#[test]
fn five_windows_come_in_groups_of_three() {
    let mut windows: Vec<Window> = (1..=5).map(|i| window(i, 1, i as usize, 1)).collect();
    let groups =
        vec![percent(1, 50), percent(2, 50), left(3), reset(2), reset(3), percent(4, 50), percent(5, 50)];
    assert_eq!(stack(&windows), groups);

    windows[2].is_focused = true;
    let mut focused = groups.clone();
    focused.extend([focus(1), focus(2), focus(3)]);
    assert_eq!(stack(&windows), focused);

    windows[2].is_focused = false;
    windows[3].is_focused = true;
    let mut leader = groups.clone();
    leader.extend([focus(4), focus(5), focus(4)]);
    assert_eq!(stack(&windows), leader);

    windows[3].is_focused = false;
    windows[4].is_focused = true;
    let mut second = groups;
    second.extend([focus(4), focus(5)]);
    assert_eq!(stack(&windows), second);
}

#[test]
fn a_compressed_workspace_stays_a_grid() {
    let windows = vec![window(1, 1, 1, 1), window(2, 1, 2, 1)];
    let plan = grid(layout_workspace(&windows, 1, true)).unwrap();
    assert_eq!(plan.widths, vec![1265, 1265]);
}

#[test]
fn tiles_are_sorted_stably() {
    let mut tiles = Vec::new();
    for (id, column, row) in [(1, 2, 1), (2, 1, 2), (3, 1, 1), (4, 1, 2)] {
        tiles.push(irene::model::Tile { id, column, row, width: 0, height: 0 });
    }
    let ids = |order: TileOrder| -> Vec<u64> {
        sort_by_order(order, &tiles).iter().map(|t| t.id).collect()
    };
    assert_eq!(ids(TileOrder::Position), vec![3, 2, 4, 1]);
    assert_eq!(ids(TileOrder::Row), vec![1, 3, 2, 4]);
    assert_eq!(ids(TileOrder::Unstack), vec![2, 4, 3, 1]);
}

#[test]
fn outputs_are_found_by_name() {
    let outputs = vec![
        output("DP-1", 3840, 2160),
        Output { name: "HDMI-A-1".to_string(), logical: None },
        output("big", 4294967295, 2147483648),
    ];
    assert_eq!(output_dimensions(&outputs, Some("DP-1")), (3840, 2160));
    assert_eq!(output_dimensions(&outputs, Some("HDMI-A-1")), (2560, 1440));
    assert_eq!(output_dimensions(&outputs, Some("eDP-1")), (2560, 1440));
    assert_eq!(output_dimensions(&outputs, None), (2560, 1440));
    assert_eq!(output_dimensions(&outputs, Some("big")), (-1, i32::MIN));
    assert_eq!(f64::from_bits(output_scale(&outputs, Some("DP-1"))), 1.5);
    assert_eq!(f64::from_bits(output_scale(&outputs, Some("HDMI-A-1"))), 1.0);
    assert_eq!(f64::from_bits(output_scale(&outputs, None)), 1.0);
}

#[test]
fn a_refresh_uses_the_output_of_the_workspace() {
    let windows = vec![window(1, 1, 1, 1)];
    let outputs = vec![output("DP-1", 1920, 1080)];
    let config = LayoutConfig { strut_top: 30, ..LayoutConfig::default() };
    let plan = grid(plan_workspace(&windows, &outputs, 1, Some("DP-1"), &config, true, false));
    assert_eq!(plan.unwrap().actions, vec![fixed_width(1, 1872), fixed_height(1, 1030)]);
    let other = grid(plan_workspace(&windows, &outputs, 1, None, &config, false, true));
    assert_eq!(other.unwrap().actions, vec![fixed_width(1, 2512), fixed_height(1, 1390)]);
    match plan_workspace(&windows, &outputs, 1, None, &config, false, false) {
        WorkspacePlan::MasterStack(actions) => {
            assert_eq!(actions, vec![percent(1, 100), reset(1)]);
        }
        WorkspacePlan::EqualGrid(_) => panic!("neither mode nor snapshot asks for a grid"),
    }
}

#[test]
fn plans_that_do_not_fit_are_recognised() {
    let windows = vec![window(1, 1, 1, 1)];
    let outputs = vec![output("low", 2147483648, 1)];
    let config = LayoutConfig::default();
    assert!(check_plan_fits(&windows, &outputs, 1, None, &config, true));
    assert!(!check_plan_fits(&windows, &outputs, 1, Some("low"), &config, false));
    let wide = LayoutConfig { gap: i32::MAX, ..config };
    assert!(!check_plan_fits(&windows, &outputs, 1, None, &wide, true));
    assert!(check_plan_fits(&windows, &outputs, 1, None, &wide, false));
}

#[test]
fn every_workspace_is_refreshed() {
    let windows = vec![window(1, 1, 1, 1), window(2, 2, 1, 1)];
    let workspaces = vec![workspace(1, None, false), workspace(2, None, true)];
    let config = LayoutConfig::default();
    let refreshes =
        refresh_all_workspaces(&workspaces, &windows, &[], &config, false, &[true, false]);
    assert_eq!(refreshes.len(), 2);
    assert_eq!(refreshes[0].workspace_id, 1);
    assert!(matches!(refreshes[0].plan, WorkspacePlan::EqualGrid(Some(_))));
    assert_eq!(refreshes[1].workspace_id, 2);
    assert!(matches!(refreshes[1].plan, WorkspacePlan::MasterStack(_)));
}

#[test]
fn the_focused_workspace_is_refreshed() {
    let windows = vec![window(1, 1, 1, 1), window(2, 2, 1, 1)];
    let workspaces = vec![workspace(1, None, false), workspace(2, None, true)];
    let config = LayoutConfig::default();
    let refresh =
        refresh_focused_workspace(&workspaces, &windows, &[], &config, true, false).unwrap();
    assert_eq!(refresh.workspace_id, 2);
    assert!(matches!(refresh.plan, WorkspacePlan::EqualGrid(Some(_))));
    assert!(
        refresh_focused_workspace(&workspaces[..1], &windows, &[], &config, true, false).is_none()
    );
}

#[test]
fn plans_ignore_the_sizes_that_windows_have() {
    let windows = || vec![window(1, 1, 1, 1), window(2, 1, 2, 1), window(3, 1, 2, 2)];
    let mut resized = windows();
    for (at, window) in resized.iter_mut().enumerate() {
        window.tile_size = (at as i32, 1265);
    }
    let before = layout_equal_grid_2d(&windows(), 1, 2560, 1440, 10).unwrap();
    let after = layout_equal_grid_2d(&resized, 1, 2560, 1440, 10).unwrap();
    assert_eq!(before.actions, after.actions);
    assert_eq!(before.widths, after.widths);
    assert_eq!(before.font_size, after.font_size);
    assert_eq!(stack(&windows()), stack(&resized));
}

#[test]
fn a_grid_is_sent_request_by_request_and_then_settled() {
    let plan = layout_equal_grid(&[window(1, 1, 1, 1)], 1, 2560, 10).unwrap();
    assert_eq!(grid_step(&plan, 0, false), DeliveryStep::Send(fixed_width(1, 2540)));
    assert_eq!(grid_step(&plan, 1, false), DeliveryStep::Send(reset(1)));
    assert_eq!(grid_step(&plan, 2, false), DeliveryStep::Settle);
    assert_eq!(grid_step(&plan, 3, false), DeliveryStep::Done);
    assert_eq!(grid_step(&plan, 1, true), DeliveryStep::Stop);
    assert_eq!(grid_step(&plan, 2, true), DeliveryStep::Stop);
    let plan = WorkspacePlan::EqualGrid(Some(plan));
    assert_eq!(plan_step(&plan, 2, false), DeliveryStep::Settle);
    assert_eq!(plan_step(&WorkspacePlan::EqualGrid(None), 0, false), DeliveryStep::Done);
}

#[test]
fn a_master_stack_has_nothing_to_settle() {
    let plan = layout_workspace(&[window(1, 1, 1, 1)], 1, false);
    assert_eq!(plan_step(&plan, 0, false), DeliveryStep::Send(percent(1, 100)));
    assert_eq!(plan_step(&plan, 1, false), DeliveryStep::Send(reset(1)));
    assert_eq!(plan_step(&plan, 1, true), DeliveryStep::Stop);
    assert_eq!(plan_step(&plan, 2, true), DeliveryStep::Stop);
    assert_eq!(plan_step(&plan, 2, false), DeliveryStep::Done);
}

#[test]
fn plans_ignore_the_turn_and_windows_elsewhere() {
    let mut windows: Vec<Window> = (1..=6).map(|i| window(i, 1, i as usize, 1)).collect();
    windows[4].is_focused = true;
    let expected = stack(&windows);
    let grid = layout_equal_grid(&windows, 1, 2560, 10).unwrap().actions;
    windows.reverse();
    windows.swap(0, 3);
    assert_eq!(stack(&windows), expected);
    assert_eq!(layout_equal_grid(&windows, 1, 2560, 10).unwrap().actions, grid);
    windows.insert(2, window(9, 2, 1, 1));
    let mut floating = window(8, 1, 1, 1);
    floating.is_floating = true;
    windows.push(floating);
    assert_eq!(stack(&windows), expected);
    assert_eq!(layout_equal_grid(&windows, 1, 2560, 10).unwrap().actions, grid);
}
