//! Compressing a workspace into an equal grid and restoring it: the decisions
//! of the toggle, one step at a time.

use vstd::prelude::*;

use crate::grid::{layout_equal_grid, push_resets, GridPlan};
use crate::model::{Action, SizeChange, Window, Workspace};
use crate::snapshot::{capture_snapshot, ColumnSnapshot, WorkspaceSnapshot};

verus! {

use crate::grid::{
    fix_width,
    grid_actions,
    grid_plan,
    reset_heights,
    workspace_columns,
    GridView,
};
use crate::layout::{
    column_indices,
    listed_columns_have_tiles,
    members,
    shares_fit,
    takes_part,
    tile_of,
    tiles_come_from_windows,
    tiles_of,
    ColumnView,
};
use crate::model::Tile;
use crate::order::{sort_tiles, sorting_keeps_members, sorting_permutes, TileOrder};
use crate::snapshot::{
    captured,
    playback,
    present_widths,
    refreshed,
    saved_columns,
    SnapshotView,
};
use crate::text::opt_text;

// ---------------------------------------------------------------------------
// Choosing the workspace
// ---------------------------------------------------------------------------

/// A workspace is meant: by its id, or, where none is named, by its focus.
pub open spec fn is_meant(workspace: Workspace, wanted: Option<u64>) -> bool {
    match wanted {
        Some(id) => workspace.id == id,
        None => workspace.is_focused,
    }
}

/// `at` is where the first workspace that is meant stands.
pub open spec fn first_meant(workspaces: Seq<Workspace>, wanted: Option<u64>, at: int) -> bool {
    &&& 0 <= at < workspaces.len()
    &&& is_meant(workspaces[at], wanted)
    &&& forall|k: int| 0 <= k < at ==> !is_meant(#[trigger] workspaces[k], wanted)
}

/// No workspace is meant.
pub open spec fn none_meant(workspaces: Seq<Workspace>, wanted: Option<u64>) -> bool {
    forall|k: int| 0 <= k < workspaces.len() ==> !is_meant(#[trigger] workspaces[k], wanted)
}

/// Finds the first workspace that is meant.
pub fn select_workspace(workspaces: &[Workspace], wanted: Option<u64>) -> (found: Option<usize>)
    ensures
        match found {
            Some(at) => first_meant(workspaces@, wanted, at as int),
            None => none_meant(workspaces@, wanted),
        },
{
    let mut i: usize = 0;
    while i < workspaces.len()
        invariant
            i <= workspaces.len(),
            forall|k: int| 0 <= k < i ==> !is_meant(#[trigger] workspaces@[k], wanted),
        decreases workspaces.len() - i,
    {
        let meant: bool = match wanted {
            Some(id) => workspaces[i].id == id,
            None => workspaces[i].is_focused,
        };
        if meant {
            return Some(i);
        }
        i = i + 1;
    }
    None
}

// ---------------------------------------------------------------------------
// The toggle
// ---------------------------------------------------------------------------

/// How far a toggle has come.
pub enum ToggleStage {
    /// Waits for the list of workspaces.
    Selecting,
    /// Waits to hear whether the workspace has a snapshot.
    Probing(Workspace),
    /// Waits for the snapshot of the workspace.
    Loading(u64),
    /// Waits for the list of windows.
    Capturing(Workspace),
    /// Waits for the terminal's configuration and the time.
    Measuring(Workspace, GridPlan),
    Finished,
}

/// One run of the toggle.
pub struct Toggle {
    pub wanted: Option<u64>,
    pub usable_width: i32,
    pub gap: i32,
    pub stage: ToggleStage,
}

/// What a toggle waits for.
pub enum ToggleEvent {
    Workspaces(Vec<Workspace>),
    /// Whether a snapshot of the workspace exists.
    Compressed(bool),
    Snapshot(Option<WorkspaceSnapshot>),
    Windows(Vec<Window>),
    /// The terminal's local configuration, if it can be read, and the time.
    Surroundings { config: Option<String>, timestamp: u64 },
}

/// How to bring the terminal font back.
pub struct FontRestore {
    pub original_config: Option<String>,
    pub pids: Vec<i32>,
}

/// What to do next.
pub enum ToggleCommand {
    /// Find out whether the workspace has a snapshot.
    ProbeSnapshot(u64),
    LoadSnapshot(u64),
    FetchWindows,
    /// Read the terminal's local configuration and the time.
    ReadSurroundings,
    /// Play the workspace back. It is then not compressed.
    Restore { actions: Vec<Action>, font: Option<FontRestore>, workspace_id: u64 },
    /// Save the snapshot and carry the plan out. The workspace is then compressed.
    Compress { snapshot: WorkspaceSnapshot, plan: GridPlan },
    /// There is nothing to compress; the workspace stays as it is.
    NothingToDo,
    /// No workspace is meant.
    NoSuchWorkspace,
}

/// The event is one that the stage waits for.
pub open spec fn awaits(stage: ToggleStage, event: ToggleEvent) -> bool {
    match stage {
        ToggleStage::Selecting => event is Workspaces,
        ToggleStage::Probing(_) => event is Compressed,
        ToggleStage::Loading(_) => event is Snapshot,
        ToggleStage::Capturing(_) => event is Windows,
        ToggleStage::Measuring(..) => event is Surroundings,
        ToggleStage::Finished => false,
    }
}

/// How many steps a toggle may still take.
pub open spec fn steps_left(stage: ToggleStage) -> nat {
    match stage {
        ToggleStage::Selecting => 4,
        ToggleStage::Probing(_) => 3,
        ToggleStage::Loading(_) => 2,
        ToggleStage::Capturing(_) => 2,
        ToggleStage::Measuring(..) => 1,
        ToggleStage::Finished => 0,
    }
}

/// The command ends the toggle: it asks for nothing to be handed back.
pub open spec fn is_final(command: ToggleCommand) -> bool {
    command is Restore || command is Compress || command is NothingToDo
        || command is NoSuchWorkspace
}

/// The arithmetic that the event leads to stays within an `i32`.
pub open spec fn step_fits(toggle: Toggle, event: ToggleEvent) -> bool {
    match (toggle.stage, event) {
        (ToggleStage::Capturing(workspace), ToggleEvent::Windows(windows)) => shares_fit(
            toggle.usable_width as int,
            toggle.gap as int,
            workspace_columns(windows@, workspace.id).len(),
        ),
        _ => true,
    }
}

/// What a snapshot says about the font.
pub open spec fn font_to_restore(snapshot: SnapshotView) -> Option<(Option<Seq<char>>, Seq<i32>)> {
    match snapshot.font {
        Some(font) => Some((font.original_config_local, font.target_pids)),
        None => None,
    }
}

/// The contents of a font restore.
pub open spec fn font_restore_view(font: Option<FontRestore>) -> Option<
    (Option<Seq<char>>, Seq<i32>),
> {
    match font {
        Some(f) => Some((opt_text(f.original_config), f.pids@)),
        None => None,
    }
}

/// What follows on the list of workspaces.
pub open spec fn selected(
    toggle: Toggle,
    workspaces: Seq<Workspace>,
    stage: ToggleStage,
    command: ToggleCommand,
) -> bool {
    match command {
        ToggleCommand::ProbeSnapshot(id) => exists|at: int| #[trigger]
            first_meant(workspaces, toggle.wanted, at) && stage == ToggleStage::Probing(
                workspaces[at],
            ) && id == workspaces[at].id,
        ToggleCommand::NoSuchWorkspace => none_meant(workspaces, toggle.wanted) && stage
            == ToggleStage::Finished,
        _ => false,
    }
}

/// What follows on hearing whether there is a snapshot.
pub open spec fn probed(
    workspace: Workspace,
    compressed: bool,
    stage: ToggleStage,
    command: ToggleCommand,
) -> bool {
    if compressed {
        stage == ToggleStage::Loading(workspace.id) && command == ToggleCommand::LoadSnapshot(
            workspace.id,
        )
    } else {
        stage == ToggleStage::Capturing(workspace) && command == ToggleCommand::FetchWindows
    }
}

/// What follows on the snapshot: a playback of it, or, where it is gone, only
/// its removal.
pub open spec fn loaded(
    id: u64,
    snapshot: Option<WorkspaceSnapshot>,
    stage: ToggleStage,
    command: ToggleCommand,
) -> bool {
    match command {
        ToggleCommand::Restore { actions, font, workspace_id } => {
            &&& stage == ToggleStage::Finished
            &&& workspace_id == id
            &&& actions@ == (match snapshot {
                Some(s) => playback(s@.columns),
                None => Seq::empty(),
            })
            &&& font_restore_view(font) == (match snapshot {
                Some(s) => font_to_restore(s@),
                None => None,
            })
        },
        _ => false,
    }
}

/// What follows on the list of windows.
pub open spec fn planned(
    toggle: Toggle,
    workspace: Workspace,
    windows: Seq<Window>,
    stage: ToggleStage,
    command: ToggleCommand,
) -> bool {
    if workspace_columns(windows, workspace.id).len() == 0 {
        stage == ToggleStage::Finished && command == ToggleCommand::NothingToDo
    } else {
        &&& command == ToggleCommand::ReadSurroundings
        &&& stage matches ToggleStage::Measuring(w, plan) && w == workspace && plan@ == grid_plan(
            windows,
            workspace.id,
            toggle.usable_width as int,
            toggle.gap as int,
        )
    }
}

/// What follows on the configuration and the time.
pub open spec fn measured(
    toggle: Toggle,
    workspace: Workspace,
    plan: GridPlan,
    config: Option<String>,
    timestamp: u64,
    stage: ToggleStage,
    command: ToggleCommand,
) -> bool {
    match command {
        ToggleCommand::Compress { snapshot, plan: p } => {
            &&& stage == ToggleStage::Finished
            &&& p == plan
            &&& snapshot@ == captured(
                workspace,
                plan@,
                toggle.usable_width,
                opt_text(config),
                timestamp,
            )
        },
        _ => false,
    }
}

/// The requests that play a snapshot back.
pub fn playback_actions(snapshot: &WorkspaceSnapshot) -> (actions: Vec<Action>)
    ensures
        actions@ == playback(snapshot@.columns),
{
    let ghost all = saved_columns(snapshot.columns@);
    let ghost widths = present_widths(all);
    let mut actions: Vec<Action> = Vec::new();
    let mut i: usize = 0;
    while i < snapshot.columns.len()
        invariant
            i <= snapshot.columns.len(),
            all == saved_columns(snapshot.columns@),
            widths == present_widths(all),
            actions@ == grid_actions(all.take(i as int), widths),
        decreases snapshot.columns.len() - i,
    {
        let column: &ColumnSnapshot = &snapshot.columns[i];
        let ghost before = actions@;
        actions.push(
            Action::SetWindowWidth {
                id: column.lead_window_id,
                change: SizeChange::SetFixed(column.original_pixel_width),
            },
        );
        push_resets(&mut actions, &column.window_ids);
        proof {
            let next = all.take(i + 1);
            assert(next.drop_last() =~= all.take(i as int));
            assert(next.last() == column@);
            assert(widths[i as int] == column.original_pixel_width);
            assert(actions@ =~= before + seq![fix_width(next.last(), widths[i as int])]
                + reset_heights(next.last().window_ids));
        }
        i = i + 1;
    }
    assert(all.take(i as int) =~= all);
    actions
}

/// Begins a toggle for the workspace with the wanted id, or for the focused one.
pub fn begin_toggle(wanted: Option<u64>, usable_width: i32, gap: i32) -> (toggle: Toggle)
    ensures
        toggle == (Toggle { wanted, usable_width, gap, stage: ToggleStage::Selecting }),
{
    Toggle { wanted, usable_width, gap, stage: ToggleStage::Selecting }
}

/// Takes a toggle one step further.
pub fn toggle_compression(toggle: Toggle, event: ToggleEvent) -> (next: (Toggle, ToggleCommand))
    requires
        awaits(toggle.stage, event),
        step_fits(toggle, event),
    ensures
        next.0.wanted == toggle.wanted,
        next.0.usable_width == toggle.usable_width,
        next.0.gap == toggle.gap,
        steps_left(next.0.stage) < steps_left(toggle.stage),
        next.0.stage is Finished <==> is_final(next.1),
        match (toggle.stage, event) {
            (ToggleStage::Selecting, ToggleEvent::Workspaces(workspaces)) => selected(
                toggle,
                workspaces@,
                next.0.stage,
                next.1,
            ),
            (ToggleStage::Probing(workspace), ToggleEvent::Compressed(compressed)) => probed(
                workspace,
                compressed,
                next.0.stage,
                next.1,
            ),
            (ToggleStage::Loading(id), ToggleEvent::Snapshot(snapshot)) => loaded(
                id,
                snapshot,
                next.0.stage,
                next.1,
            ),
            (ToggleStage::Capturing(workspace), ToggleEvent::Windows(windows)) => planned(
                toggle,
                workspace,
                windows@,
                next.0.stage,
                next.1,
            ),
            (
                ToggleStage::Measuring(workspace, plan),
                ToggleEvent::Surroundings { config, timestamp },
            ) => measured(toggle, workspace, plan, config, timestamp, next.0.stage, next.1),
            _ => false,
        },
{
    let wanted: Option<u64> = toggle.wanted;
    let usable_width: i32 = toggle.usable_width;
    let gap: i32 = toggle.gap;
    let (stage, command): (ToggleStage, ToggleCommand) = match (toggle.stage, event) {
        (ToggleStage::Selecting, ToggleEvent::Workspaces(workspaces)) => {
            let mut list: Vec<Workspace> = workspaces;
            match select_workspace(list.as_slice(), wanted) {
                Some(at) => {
                    let workspace: Workspace = list.remove(at);
                    let id: u64 = workspace.id;
                    (ToggleStage::Probing(workspace), ToggleCommand::ProbeSnapshot(id))
                },
                None => (ToggleStage::Finished, ToggleCommand::NoSuchWorkspace),
            }
        },
        (ToggleStage::Probing(workspace), ToggleEvent::Compressed(compressed)) => {
            if compressed {
                let id: u64 = workspace.id;
                (ToggleStage::Loading(id), ToggleCommand::LoadSnapshot(id))
            } else {
                (ToggleStage::Capturing(workspace), ToggleCommand::FetchWindows)
            }
        },
        (ToggleStage::Loading(id), ToggleEvent::Snapshot(snapshot)) => {
            match snapshot {
                Some(s) => {
                    let actions: Vec<Action> = playback_actions(&s);
                    let font: Option<FontRestore> = match s.font {
                        Some(f) => Some(
                            FontRestore {
                                original_config: f.original_config_local,
                                pids: f.target_pids,
                            },
                        ),
                        None => None,
                    };
                    (
                        ToggleStage::Finished,
                        ToggleCommand::Restore { actions, font, workspace_id: id },
                    )
                },
                None => (
                    ToggleStage::Finished,
                    ToggleCommand::Restore { actions: Vec::new(), font: None, workspace_id: id },
                ),
            }
        },
        (ToggleStage::Capturing(workspace), ToggleEvent::Windows(windows)) => {
            match layout_equal_grid(windows.as_slice(), workspace.id, usable_width, gap) {
                Some(plan) => (
                    ToggleStage::Measuring(workspace, plan),
                    ToggleCommand::ReadSurroundings,
                ),
                None => (ToggleStage::Finished, ToggleCommand::NothingToDo),
            }
        },
        (
            ToggleStage::Measuring(workspace, plan),
            ToggleEvent::Surroundings { config, timestamp },
        ) => {
            let snapshot: WorkspaceSnapshot = capture_snapshot(
                &workspace,
                &plan,
                usable_width,
                config,
                timestamp,
            );
            (ToggleStage::Finished, ToggleCommand::Compress { snapshot, plan })
        },
        _ => (ToggleStage::Finished, ToggleCommand::NothingToDo),
    };
    (Toggle { wanted, usable_width, gap, stage }, command)
}

// ---------------------------------------------------------------------------
// Laws
// ---------------------------------------------------------------------------

/// Laying a workspace out by the plan that compressed it leaves its snapshot
/// as it was taken.
pub proof fn fresh_snapshot_needs_no_refresh(
    workspace: Workspace,
    plan: GridView,
    usable_width: i32,
    config: Option<Seq<char>>,
    timestamp: u64,
)
    ensures
        refreshed(captured(workspace, plan, usable_width, config, timestamp), plan) == captured(
            workspace,
            plan,
            usable_width,
            config,
            timestamp,
        ),
{
}

/// A refresh keeps the terminal's configuration from before, so that a later
/// restore still brings it back.
pub proof fn refresh_keeps_the_configuration(snapshot: SnapshotView, plan: GridView)
    ensures
        refreshed(snapshot, plan).font is Some <==> snapshot.font is Some,
        snapshot.font matches Some(font) ==> font_to_restore(refreshed(snapshot, plan)) == Some(
            (font.original_config_local, plan.pids),
        ),
{
}

/// The width of the column is that of a window tiled on the workspace which bears
/// the id of the column's topmost window.
pub open spec fn width_comes_from_window(
    windows: Seq<Window>,
    workspace_id: u64,
    column: ColumnView,
) -> bool {
    exists|i: int|
        0 <= i < windows.len() && takes_part(#[trigger] windows[i], workspace_id, Seq::empty())
            && windows[i].id == column.lead_window_id && windows[i].tile_size.0
            == column.original_pixel_width
}

proof fn lemma_column_width(windows: Seq<Window>, workspace_id: u64, k: int)
    requires
        0 <= k < workspace_columns(windows, workspace_id).len(),
    ensures
        width_comes_from_window(
            windows,
            workspace_id,
            workspace_columns(windows, workspace_id)[k],
        ),
{
    let tiles = tiles_of(windows, workspace_id, Seq::empty());
    let index = column_indices(tiles)[k];
    let stack = sort_tiles(TileOrder::Row, members(tiles, index));
    assert(column_indices(tiles).contains(index));
    listed_columns_have_tiles(tiles, index);
    sorting_permutes(TileOrder::Row, members(tiles, index));
    let tile = stack[0];
    assert(stack.contains(tile));
    sorting_keeps_members(TileOrder::Row, members(tiles, index), tile);
    tiles.lemma_filter_contains_rev(|t: Tile| t.column == index, tile);
    tiles_come_from_windows(windows, workspace_id, Seq::empty(), tile);
    let i = choose|i: int|
        0 <= i < windows.len() && takes_part(#[trigger] windows[i], workspace_id, Seq::empty())
            && tile_of(windows[i]) == tile;
    assert(windows[i].id == tile.id && windows[i].tile_size.0 == tile.width);
}

/// Restoring undoes compressing: a playback of the snapshot that was taken
/// consists of one request for each column, which gives it the width that its
/// topmost window had, and of the height resets of the column's windows behind
/// it, from left to right. The font goes back to the configuration from before,
/// for the same processes.
pub proof fn restoring_undoes_compressing(
    workspace: Workspace,
    windows: Seq<Window>,
    usable_width: i32,
    gap: i32,
    config: Option<Seq<char>>,
    timestamp: u64,
)
    ensures
        ({
            let plan = grid_plan(windows, workspace.id, usable_width as int, gap as int);
            let snapshot = captured(workspace, plan, usable_width, config, timestamp);
            let columns = workspace_columns(windows, workspace.id);
            &&& playback(snapshot.columns) == grid_actions(columns, present_widths(columns))
            &&& font_to_restore(snapshot) == Some((config, plan.pids))
        }),
        forall|k: int|
            0 <= k < workspace_columns(windows, workspace.id).len() ==> width_comes_from_window(
                windows,
                workspace.id,
                #[trigger] workspace_columns(windows, workspace.id)[k],
            ),
{
    let columns = workspace_columns(windows, workspace.id);
    assert forall|k: int| 0 <= k < columns.len() implies width_comes_from_window(
        windows,
        workspace.id,
        #[trigger] columns[k],
    ) by {
        lemma_column_width(windows, workspace.id, k);
    }
}

/// The workspace that is meant is the first one listed that bears the wanted
/// number, or, where none is wanted, the first that has the focus.
pub proof fn the_first_match_is_meant(workspaces: Seq<Workspace>, wanted: Option<u64>, at: int)
    ensures
        first_meant(workspaces, wanted, at) <==> {
            &&& 0 <= at < workspaces.len()
            &&& match wanted {
                Some(id) => workspaces[at].id == id && forall|k: int|
                    0 <= k < at ==> (#[trigger] workspaces[k]).id != id,
                None => workspaces[at].is_focused && forall|k: int|
                    0 <= k < at ==> !(#[trigger] workspaces[k]).is_focused,
            }
        },
        none_meant(workspaces, wanted) <==> match wanted {
            Some(id) => forall|k: int|
                0 <= k < workspaces.len() ==> (#[trigger] workspaces[k]).id != id,
            None => forall|k: int|
                0 <= k < workspaces.len() ==> !(#[trigger] workspaces[k]).is_focused,
        },
{
    if 0 <= at < workspaces.len() {
        assert forall|k: int| 0 <= k < workspaces.len() implies is_meant(
            #[trigger] workspaces[k],
            wanted,
        ) == (match wanted {
            Some(id) => workspaces[k].id == id,
            None => workspaces[k].is_focused,
        }) by {}
    }
}

/// Where no listed workspace is meant the toggle ends there; where one is, the
/// first of them is looked up. Where its snapshot turns out to be gone nothing is
/// played back, but the workspace counts as restored.
pub proof fn a_toggle_needs_a_workspace(
    toggle: Toggle,
    workspaces: Seq<Workspace>,
    id: u64,
    stages: (ToggleStage, ToggleStage),
    commands: (ToggleCommand, ToggleCommand),
)
    requires
        selected(toggle, workspaces, stages.0, commands.0),
        loaded(id, None, stages.1, commands.1),
    ensures
        commands.0 is NoSuchWorkspace <==> forall|k: int|
            0 <= k < workspaces.len() ==> match toggle.wanted {
                Some(wanted) => (#[trigger] workspaces[k]).id != wanted,
                None => !workspaces[k].is_focused,
            },
        commands.0 matches ToggleCommand::ProbeSnapshot(found) ==> exists|at: int|
            0 <= at < workspaces.len() && (#[trigger] workspaces[at]).id == found && match toggle.wanted {
                Some(wanted) => found == wanted,
                None => workspaces[at].is_focused && forall|k: int|
                    0 <= k < at ==> !(#[trigger] workspaces[k]).is_focused,
            },
        commands.0 is NoSuchWorkspace || commands.0 is ProbeSnapshot,
        commands.1 matches ToggleCommand::Restore { actions, font, workspace_id } && actions@.len()
            == 0 && font is None && workspace_id == id,
{
    match commands.0 {
        ToggleCommand::ProbeSnapshot(found) => {
            let at = choose|at: int| #[trigger]
                first_meant(workspaces, toggle.wanted, at) && stages.0 == ToggleStage::Probing(
                    workspaces[at],
                ) && found == workspaces[at].id;
            the_first_match_is_meant(workspaces, toggle.wanted, at);
            assert(workspaces[at].id == found);
        },
        ToggleCommand::NoSuchWorkspace => {
            the_first_match_is_meant(workspaces, toggle.wanted, 0);
        },
        _ => {},
    }
}

} // verus!
