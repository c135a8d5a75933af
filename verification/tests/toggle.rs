//! Compressing a workspace and restoring it.

use irene::compression::{
    begin_toggle, select_workspace, toggle_compression, Toggle, ToggleCommand, ToggleEvent,
};
use irene::delivery::{
    closing_request, command_step, settle_grid, toggle_outcome, DeliveryStep,
};
use irene::grid::layout_equal_grid;
use irene::model::{Action, SizeChange, Window, Workspace};
use irene::snapshot::{refresh_snapshot, FontPoints, WorkspaceSnapshot};

fn window(id: u64, workspace_id: u64, col: usize, row: usize, width: i32) -> Window {
    Window {
        id,
        app_id: Some("ghostty".to_string()),
        pid: Some(id as i32),
        workspace_id: Some(workspace_id),
        is_focused: false,
        is_floating: false,
        pos_in_scrolling_layout: Some((col, row)),
        tile_size: (width, 1420),
    }
}

fn workspace(id: u64, is_focused: bool) -> Workspace {
    Workspace {
        id,
        name: None,
        output: Some("DP-1".to_string()),
        is_focused,
        is_active: is_focused,
        active_window_id: Some(11),
    }
}

fn windows() -> Vec<Window> {
    vec![window(11, 7, 1, 1, 700), window(12, 7, 2, 1, 900), window(13, 7, 2, 2, 900)]
}

fn fixed_width(id: u64, width: i32) -> Action {
    Action::SetWindowWidth { id, change: SizeChange::SetFixed(width) }
}

fn reset(id: u64) -> Action {
    Action::ResetWindowHeight { id }
}

/// Runs a toggle of workspace 7 up to the point where it hears about the snapshot.
fn probing() -> Toggle {
    let toggle = begin_toggle(None, 2532, 10);
    let (toggle, command) = toggle_compression(
        toggle,
        ToggleEvent::Workspaces(vec![workspace(3, false), workspace(7, true)]),
    );
    assert!(matches!(command, ToggleCommand::ProbeSnapshot(7)));
    toggle
}

fn compress() -> (WorkspaceSnapshot, Vec<Action>) {
    let (toggle, command) = toggle_compression(probing(), ToggleEvent::Compressed(false));
    assert!(matches!(command, ToggleCommand::FetchWindows));
    let (toggle, command) = toggle_compression(toggle, ToggleEvent::Windows(windows()));
    assert!(matches!(command, ToggleCommand::ReadSurroundings));
    let (_, command) = toggle_compression(
        toggle,
        ToggleEvent::Surroundings {
            config: Some("a = 1\n".to_string()),
            timestamp: 5.0f64.to_bits(),
        },
    );
    match command {
        ToggleCommand::Compress { snapshot, plan } => (snapshot, plan.actions),
        _ => panic!("the workspace is to be compressed"),
    }
}

#[test]
fn workspaces_are_chosen_by_id_or_focus() {
    let list = vec![workspace(3, false), workspace(7, true), workspace(3, true)];
    assert_eq!(select_workspace(&list, Some(3)), Some(0));
    assert_eq!(select_workspace(&list, None), Some(1));
    assert_eq!(select_workspace(&list, Some(4)), None);
    assert_eq!(select_workspace(&[], None), None);
}

#[test]
fn a_missing_workspace_ends_the_toggle() {
    let toggle = begin_toggle(Some(9), 2532, 10);
    let (_, command) =
        toggle_compression(toggle, ToggleEvent::Workspaces(vec![workspace(3, true)]));
    assert!(matches!(command, ToggleCommand::NoSuchWorkspace));
}

#[test]
fn an_empty_workspace_is_not_compressed() {
    let (toggle, _) = toggle_compression(probing(), ToggleEvent::Compressed(false));
    let (_, command) =
        toggle_compression(toggle, ToggleEvent::Windows(vec![window(1, 3, 1, 1, 10)]));
    assert!(matches!(command, ToggleCommand::NothingToDo));
}

#[test]
fn compressing_takes_a_snapshot() {
    let (snapshot, actions) = compress();
    assert_eq!(
        actions,
        vec![fixed_width(11, 1251), reset(11), fixed_width(12, 1251), reset(12), reset(13)]
    );
    assert_eq!(snapshot.version, 1);
    assert_eq!(snapshot.workspace_id, 7);
    assert_eq!(snapshot.output_name, Some("DP-1".to_string()));
    assert_eq!(snapshot.monitor_width, Some(2532));
    assert_eq!(snapshot.monitor_height, Some(1440));
    assert_eq!(snapshot.timestamp.map(f64::from_bits), Some(5.0));
    assert_eq!(snapshot.active_window_id, Some(11));
    assert_eq!(snapshot.columns.len(), 2);
    assert_eq!(snapshot.columns[1].window_ids, vec![12, 13]);
    assert_eq!(snapshot.original_widths, Some(vec![700, 900]));
    assert_eq!(snapshot.compressed_widths, Some(vec![1251, 1251]));
    assert_eq!(snapshot.font_size_original, None);
    assert_eq!(snapshot.font_size_compressed, Some(FontPoints::Tenths(120)));
    assert_eq!(snapshot.is_compressed, Some(true));
    assert_eq!(snapshot.timestamp_utc, None);
    let font = snapshot.font.unwrap();
    assert_eq!(font.original_config_local, Some("a = 1\n".to_string()));
    assert_eq!(font.target_pids, vec![11, 12, 13]);
    assert_eq!(font.applied_font_size, FontPoints::Tenths(120));
}

#[test]
fn restoring_brings_the_widths_back() {
    let (snapshot, _) = compress();
    let (toggle, command) = toggle_compression(probing(), ToggleEvent::Compressed(true));
    assert!(matches!(command, ToggleCommand::LoadSnapshot(7)));
    let (_, command) = toggle_compression(toggle, ToggleEvent::Snapshot(Some(snapshot)));
    match command {
        ToggleCommand::Restore { actions, font, workspace_id } => {
            assert_eq!(workspace_id, 7);
            assert_eq!(
                actions,
                vec![fixed_width(11, 700), reset(11), fixed_width(12, 900), reset(12), reset(13)]
            );
            let font = font.unwrap();
            assert_eq!(font.original_config, Some("a = 1\n".to_string()));
            assert_eq!(font.pids, vec![11, 12, 13]);
        }
        _ => panic!("the workspace is to be restored"),
    }
}

#[test]
fn a_snapshot_that_is_gone_is_only_removed() {
    let (toggle, _) = toggle_compression(probing(), ToggleEvent::Compressed(true));
    let (_, command) = toggle_compression(toggle, ToggleEvent::Snapshot(None));
    match command {
        ToggleCommand::Restore { actions, font, workspace_id } => {
            assert!(actions.is_empty());
            assert!(font.is_none());
            assert_eq!(workspace_id, 7);
        }
        _ => panic!("the workspace is to be restored"),
    }
}

#[test]
fn a_fresh_snapshot_is_up_to_date() {
    let (snapshot, _) = compress();
    let plan = layout_equal_grid(&windows(), 7, 2532, 10).unwrap();
    let (again, _) = compress();
    assert_eq!(refresh_snapshot(snapshot, &plan), again);
}

#[test]
fn a_refresh_follows_the_windows() {
    let (snapshot, _) = compress();
    let later = vec![window(11, 7, 1, 1, 1251)];
    let plan = layout_equal_grid(&later, 7, 2532, 10).unwrap();
    let new = refresh_snapshot(snapshot, &plan);
    assert_eq!(new.columns.len(), 1);
    assert_eq!(new.columns[0].original_pixel_width, 1251);
    assert_eq!(new.compressed_widths, Some(vec![2512]));
    assert_eq!(new.original_widths, Some(vec![700, 900]));
    assert_eq!(new.font_size_compressed, Some(FontPoints::Tenths(120)));
    let font = new.font.unwrap();
    assert_eq!(font.original_config_local, Some("a = 1\n".to_string()));
    assert_eq!(font.target_pids, vec![11]);
}

/// Carries a command out; the listed steps fail.
fn carry_out(command: &ToggleCommand, failing: &[usize]) -> (Vec<Action>, Vec<DeliveryStep>) {
    let mut sent = Vec::new();
    let mut steps = Vec::new();
    for taken in 0..20 {
        let failed = taken > 0 && failing.contains(&(taken - 1));
        let step = command_step(command, taken, failed);
        steps.push(step);
        match step {
            DeliveryStep::Send(action) => sent.push(action),
            DeliveryStep::Stop | DeliveryStep::Done => break,
            _ => {}
        }
    }
    (sent, steps)
}

fn compress_command() -> ToggleCommand {
    let (toggle, _) = toggle_compression(probing(), ToggleEvent::Compressed(false));
    let (toggle, _) = toggle_compression(toggle, ToggleEvent::Windows(windows()));
    let (_, command) =
        toggle_compression(toggle, ToggleEvent::Surroundings { config: None, timestamp: 0 });
    command
}

#[test]
fn a_compression_is_carried_out_in_order() {
    let command = compress_command();
    assert_eq!(closing_request(&command), Some(Action::CenterVisibleColumns));
    let (sent, steps) = carry_out(&command, &[]);
    assert_eq!(steps[0], DeliveryStep::Save);
    assert_eq!(sent.len(), 6);
    assert_eq!(sent[0], fixed_width(11, 1251));
    assert_eq!(sent[5], Action::CenterVisibleColumns);
    assert_eq!(steps[6], DeliveryStep::Settle);
    assert_eq!(steps[8], DeliveryStep::Done);
    assert_eq!(toggle_outcome(&command), Ok(true));
}

#[test]
fn a_refusal_ends_a_compression() {
    let command = compress_command();
    let (sent, steps) = carry_out(&command, &[0]);
    assert!(sent.is_empty());
    assert_eq!(steps, vec![DeliveryStep::Save, DeliveryStep::Stop]);
    let (sent, steps) = carry_out(&command, &[2]);
    assert_eq!(sent, vec![fixed_width(11, 1251), reset(11)]);
    assert_eq!(steps.last(), Some(&DeliveryStep::Stop));
    let (sent, steps) = carry_out(&command, &[5]);
    assert_eq!(sent.len(), 5);
    assert_eq!(steps.last(), Some(&DeliveryStep::Stop));
    // Whether the closing request is refused does not matter.
    let (sent, steps) = carry_out(&command, &[7]);
    assert_eq!(sent.len(), 6);
    assert_eq!(steps.last(), Some(&DeliveryStep::Done));
}

#[test]
fn a_second_toggle_plays_the_first_back_whatever_is_refused() {
    let (snapshot, _) = compress();
    let plan = layout_equal_grid(&windows(), 7, 2532, 10).unwrap();
    let settled = settle_grid(&plan, Some(snapshot)).snapshot.unwrap();
    let (toggle, _) = toggle_compression(probing(), ToggleEvent::Compressed(true));
    let (_, command) = toggle_compression(toggle, ToggleEvent::Snapshot(Some(settled)));
    assert_eq!(closing_request(&command), Some(Action::CenterVisibleColumns));
    let expected = vec![
        fixed_width(11, 700),
        reset(11),
        fixed_width(12, 900),
        reset(12),
        reset(13),
        Action::CenterVisibleColumns,
    ];
    for failing in [&[][..], &[0], &[0, 1, 2, 3, 4, 5, 6]] {
        let (sent, steps) = carry_out(&command, failing);
        assert_eq!(sent, expected);
        assert_eq!(steps[5], DeliveryStep::Settle);
        assert_eq!(steps[7], DeliveryStep::Done);
    }
    assert_eq!(toggle_outcome(&command), Ok(false));
}

#[test]
fn commands_without_requests() {
    assert_eq!(closing_request(&ToggleCommand::NothingToDo), None);
    assert_eq!(closing_request(&ToggleCommand::FetchWindows), None);
    assert_eq!(command_step(&ToggleCommand::NothingToDo, 0, false), DeliveryStep::Done);
    assert_eq!(toggle_outcome(&ToggleCommand::NothingToDo), Ok(false));
    assert_eq!(
        toggle_outcome(&ToggleCommand::NoSuchWorkspace),
        Err("no matching workspace found".to_string())
    );
}
