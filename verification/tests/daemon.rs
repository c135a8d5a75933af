//! What the daemon remembers and what it lays out anew.

use irene::daemon::{DaemonState, Event};
use irene::model::{membership, Window, Workspace};

fn window(id: u64, workspace_id: Option<u64>, is_floating: bool) -> Window {
    Window {
        id,
        app_id: None,
        pid: None,
        workspace_id,
        is_focused: false,
        is_floating,
        pos_in_scrolling_layout: None,
        tile_size: (0, 0),
    }
}

fn workspace(id: u64, output: Option<&str>) -> Workspace {
    Workspace {
        id,
        name: None,
        output: output.map(String::from),
        is_focused: false,
        is_active: false,
        active_window_id: None,
    }
}

fn opened(id: u64, workspace_id: Option<u64>, is_floating: bool) -> Event {
    Event::WindowOpenedOrChanged { window: window(id, workspace_id, is_floating) }
}

#[test]
fn a_membership_is_workspace_and_floating() {
    assert_eq!(membership(&window(1, Some(4), true)), (Some(4), true));
    assert_eq!(membership(&window(1, None, false)), (None, false));
}

#[test]
fn opening_moving_and_closing_a_window() {
    let mut state = DaemonState::new();
    assert_eq!(state.handle_event(opened(1, Some(5), false)), vec![5]);
    assert!(state.handle_event(opened(1, Some(5), false)).is_empty());
    assert_eq!(state.handle_event(opened(1, Some(3), false)), vec![3, 5]);
    assert_eq!(state.handle_event(opened(1, Some(3), true)), vec![3]);
    assert_eq!(state.handle_event(opened(1, Some(3), false)), vec![3]);
    assert_eq!(state.handle_event(Event::WindowClosed { id: 1 }), vec![3]);
    assert!(state.handle_event(Event::WindowClosed { id: 1 }).is_empty());
}

#[test]
fn floating_and_homeless_windows_do_not_matter() {
    let mut state = DaemonState::new();
    assert!(state.handle_event(opened(1, Some(5), true)).is_empty());
    assert!(state.handle_event(opened(2, None, false)).is_empty());
    assert!(state.handle_event(Event::WindowClosed { id: 1 }).is_empty());
    assert!(state.handle_event(Event::WindowClosed { id: 2 }).is_empty());
}

#[test]
fn a_new_list_of_windows_is_compared_with_the_old_one() {
    let mut state = DaemonState::new();
    let first = vec![
        window(1, Some(9), false),
        window(2, Some(4), false),
        window(3, Some(4), false),
        window(4, Some(6), true),
    ];
    assert_eq!(state.handle_event(Event::WindowsChanged { windows: first }), vec![4, 9]);
    let second = vec![
        window(1, Some(9), false),
        window(2, Some(2), false),
        window(4, Some(6), false),
    ];
    assert_eq!(state.handle_event(Event::WindowsChanged { windows: second }), vec![2, 4, 6]);
    assert_eq!(
        state.handle_event(Event::WindowsChanged { windows: Vec::new() }),
        vec![2, 6, 9]
    );
}

#[test]
fn of_two_windows_with_one_id_the_later_counts() {
    let mut state = DaemonState::new();
    let windows = vec![window(1, Some(8), false), window(1, Some(2), false)];
    assert_eq!(state.handle_event(Event::WindowsChanged { windows }), vec![2]);
}

#[test]
fn workspaces_that_change_outputs() {
    let mut state = DaemonState::new();
    let list = vec![workspace(2, Some("DP-1")), workspace(1, None)];
    assert_eq!(state.handle_event(Event::WorkspacesChanged { workspaces: list }), vec![1, 2]);
    assert_eq!(state.output_of(2), Some("DP-1"));
    assert_eq!(state.output_of(1), None);
    assert_eq!(state.output_of(3), None);
    let list = vec![workspace(2, Some("DP-1")), workspace(1, Some("DP-2"))];
    assert_eq!(state.handle_event(Event::WorkspacesChanged { workspaces: list }), vec![1]);
    let list = vec![workspace(1, Some("DP-2"))];
    assert!(state.handle_event(Event::WorkspacesChanged { workspaces: list }).is_empty());
    assert_eq!(state.output_of(2), None);
}

#[test]
fn activation_counts_with_the_focus() {
    let mut state = DaemonState::new();
    assert_eq!(state.handle_event(Event::WorkspaceActivated { id: 4, focused: true }), vec![4]);
    assert!(state.handle_event(Event::WorkspaceActivated { id: 4, focused: false }).is_empty());
    assert!(state.handle_event(Event::Other).is_empty());
}

#[test]
fn the_overview_holds_everything_back() {
    let mut state = DaemonState::new();
    assert!(state.handle_event(Event::OverviewOpenedOrClosed { is_open: true }).is_empty());
    assert!(state.handle_event(opened(1, Some(5), false)).is_empty());
    assert!(state.handle_event(opened(2, Some(5), false)).is_empty());
    assert!(state.handle_event(opened(3, Some(1), false)).is_empty());
    assert!(state.handle_event(opened(4, Some(8), true)).is_empty());
    assert!(state.handle_event(Event::WorkspaceActivated { id: 4, focused: true }).is_empty());
    assert!(state.handle_event(Event::ConfigLoaded).is_empty());
    assert_eq!(
        state.handle_event(Event::OverviewOpenedOrClosed { is_open: false }),
        vec![1, 5]
    );
}

#[test]
fn a_new_configuration_concerns_every_tiled_workspace() {
    let mut state = DaemonState::new();
    state.handle_event(opened(1, Some(5), false));
    state.handle_event(opened(2, Some(5), false));
    state.handle_event(opened(3, Some(2), false));
    state.handle_event(opened(4, Some(1), true));
    assert_eq!(state.handle_event(Event::ConfigLoaded), vec![2, 5]);
}
