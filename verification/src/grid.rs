//! The equal grid: all columns of a workspace get the same width.

use vstd::prelude::*;

use crate::font::{calculate_font_size, get_ghostty_pids_for_workspace};
use crate::layout::{
    calculate_equal_column_widths,
    calculate_equal_row_heights,
    check_shares_fit,
    parse_workspace_columns,
    ColumnInfo,
};
use crate::model::{Action, SizeChange, Window};

verus! {

use crate::font::{scaled_size, terminal_pids, DEFAULT_FONT_SIZE};
use crate::layout::{
    column_indices,
    column_views,
    columns_of,
    equal_share,
    equal_shares,
    listed_columns_have_tiles,
    members,
    share_space,
    shares_fit,
    takes_part,
    tiles_come_from_windows,
    tiles_of,
    ColumnView,
};
use crate::model::Tile;
use crate::order::{sort_tiles, sorting_keeps_members, sorting_permutes, TileOrder};

/// What to do to bring a workspace into an equal grid: the requests to send,
/// in order, and what they were computed from.
#[derive(Debug)]
pub struct GridPlan {
    pub columns: Vec<ColumnInfo>,
    /// The new width of each column.
    pub widths: Vec<i32>,
    pub actions: Vec<Action>,
    /// Tenths of a point.
    pub font_size: u32,
    /// The terminal processes that the font size concerns.
    pub pids: Vec<i32>,
}

/// The contents of a plan.
#[verifier::ext_equal]
pub struct GridView {
    pub columns: Seq<ColumnView>,
    pub widths: Seq<i32>,
    pub actions: Seq<Action>,
    pub font_size: int,
    pub pids: Seq<i32>,
}

impl View for GridPlan {
    type V = GridView;

    open spec fn view(&self) -> GridView {
        GridView {
            columns: column_views(self.columns@),
            widths: self.widths@,
            actions: self.actions@,
            font_size: self.font_size as int,
            pids: self.pids@,
        }
    }
}

/// The columns that a plan for `workspace_id` works on.
pub open spec fn workspace_columns(windows: Seq<Window>, workspace_id: u64) -> Seq<ColumnView> {
    columns_of(tiles_of(windows, workspace_id, Seq::empty()))
}

/// The number of windows in the fullest column.
pub open spec fn most_rows(columns: Seq<ColumnView>) -> nat
    decreases columns.len(),
{
    if columns.len() == 0 {
        0
    } else {
        let before = most_rows(columns.drop_last());
        if columns.last().window_ids.len() > before {
            columns.last().window_ids.len()
        } else {
            before
        }
    }
}

/// Resets the height of each window.
pub open spec fn reset_heights(ids: Seq<u64>) -> Seq<Action> {
    ids.map_values(|id: u64| Action::ResetWindowHeight { id })
}

/// Gives each window its height.
pub open spec fn fix_heights(ids: Seq<u64>, heights: Seq<i32>) -> Seq<Action> {
    Seq::new(
        ids.len(),
        |i: int|
            Action::SetWindowHeight { id: ids[i], change: SizeChange::SetFixed(heights[i]) },
    )
}

/// Gives a column its width.
pub open spec fn fix_width(column: ColumnView, width: i32) -> Action {
    Action::SetWindowWidth { id: column.lead_window_id, change: SizeChange::SetFixed(width) }
}

/// The requests for an equal grid: from left to right each column gets its
/// width and its windows the automatic height.
pub open spec fn grid_actions(columns: Seq<ColumnView>, widths: Seq<i32>) -> Seq<Action>
    decreases columns.len(),
{
    if columns.len() == 0 {
        Seq::empty()
    } else {
        let column = columns.last();
        grid_actions(columns.drop_last(), widths) + seq![
            fix_width(column, widths[columns.len() - 1]),
        ] + reset_heights(column.window_ids)
    }
}

/// The requests for a grid that is equal both ways: from left to right each
/// column gets its width and its windows equal heights.
pub open spec fn grid_actions_2d(
    columns: Seq<ColumnView>,
    widths: Seq<i32>,
    usable_height: int,
    gap: int,
) -> Seq<Action>
    decreases columns.len(),
{
    if columns.len() == 0 {
        Seq::empty()
    } else {
        let column = columns.last();
        grid_actions_2d(columns.drop_last(), widths, usable_height, gap) + seq![
            fix_width(column, widths[columns.len() - 1]),
        ] + fix_heights(
            column.window_ids,
            equal_shares(usable_height, gap, column.window_ids.len()),
        )
    }
}

/// The plan for an equal grid.
pub open spec fn grid_plan(windows: Seq<Window>, workspace_id: u64, usable_width: int, gap: int) -> GridView {
    let columns = workspace_columns(windows, workspace_id);
    let widths = equal_shares(usable_width, gap, columns.len());
    GridView {
        columns,
        widths,
        actions: grid_actions(columns, widths),
        font_size: scaled_size(
            DEFAULT_FONT_SIZE as int,
            columns.len() as int,
            most_rows(columns) as int,
        ),
        pids: terminal_pids(windows, Some(workspace_id)),
    }
}

/// The plan for a grid that is equal both ways.
pub open spec fn grid_plan_2d(
    windows: Seq<Window>,
    workspace_id: u64,
    usable_width: int,
    usable_height: int,
    gap: int,
) -> GridView {
    let plan = grid_plan(windows, workspace_id, usable_width, gap);
    GridView {
        actions: grid_actions_2d(plan.columns, plan.widths, usable_height, gap),
        ..plan
    }
}

/// The arithmetic behind the row heights of every column stays within an `i32`.
pub open spec fn rows_fit(columns: Seq<ColumnView>, usable_height: int, gap: int) -> bool {
    forall|i: int|
        0 <= i < columns.len() ==> shares_fit(
            usable_height,
            gap,
            (#[trigger] columns[i]).window_ids.len(),
        )
}

/// Decides whether the arithmetic behind an equal grid stays within an `i32`.
pub fn check_grid_fits(windows: &[Window], workspace_id: u64, usable_width: i32, gap: i32) -> (fits:
    bool)
    ensures
        fits == shares_fit(
            usable_width as int,
            gap as int,
            workspace_columns(windows@, workspace_id).len(),
        ),
{
    let columns: Vec<ColumnInfo> = parse_workspace_columns(windows, workspace_id);
    assert(column_views(columns@).len() == columns@.len());
    check_shares_fit(usable_width, gap, columns.len())
}

/// Decides whether the arithmetic behind the row heights stays within an `i32`.
pub fn check_rows_fit(windows: &[Window], workspace_id: u64, usable_height: i32, gap: i32) -> (fits:
    bool)
    ensures
        fits == rows_fit(
            workspace_columns(windows@, workspace_id),
            usable_height as int,
            gap as int,
        ),
{
    let columns: Vec<ColumnInfo> = parse_workspace_columns(windows, workspace_id);
    let ghost all = workspace_columns(windows@, workspace_id);
    let mut i: usize = 0;
    while i < columns.len()
        invariant
            i <= columns.len(),
            column_views(columns@) == all,
            all == workspace_columns(windows@, workspace_id),
            forall|k: int|
                0 <= k < i ==> shares_fit(
                    usable_height as int,
                    gap as int,
                    (#[trigger] all[k]).window_ids.len(),
                ),
        decreases columns.len() - i,
    {
        assert(all[i as int] == columns@[i as int]@);
        if !check_shares_fit(usable_height, gap, columns[i].window_ids.len()) {
            return false;
        }
        i = i + 1;
    }
    assert(all.len() == columns@.len());
    true
}

/// Counts the windows of the fullest column.
fn count_most_rows(columns: &Vec<ColumnInfo>) -> (rows: usize)
    ensures
        rows == most_rows(column_views(columns@)),
{
    let ghost all = column_views(columns@);
    let mut rows: usize = 0;
    let mut i: usize = 0;
    while i < columns.len()
        invariant
            i <= columns.len(),
            all == column_views(columns@),
            rows == most_rows(all.take(i as int)),
        decreases columns.len() - i,
    {
        proof {
            assert(all.take(i + 1).drop_last() =~= all.take(i as int));
            assert(all.take(i + 1).last() == columns@[i as int]@);
        }
        if columns[i].window_ids.len() > rows {
            rows = columns[i].window_ids.len();
        }
        i = i + 1;
    }
    assert(all.take(i as int) =~= all);
    rows
}

/// Appends a reset of the height of each window.
pub(crate) fn push_resets(actions: &mut Vec<Action>, ids: &Vec<u64>)
    ensures
        final(actions)@ == old(actions)@ + reset_heights(ids@),
{
    let ghost before = actions@;
    let mut i: usize = 0;
    assert(actions@ =~= before + reset_heights(ids@.take(0)));
    while i < ids.len()
        invariant
            i <= ids.len(),
            actions@ == before + reset_heights(ids@.take(i as int)),
        decreases ids.len() - i,
    {
        actions.push(Action::ResetWindowHeight { id: ids[i] });
        assert(actions@ =~= before + reset_heights(ids@.take(i + 1)));
        i = i + 1;
    }
    assert(ids@.take(i as int) =~= ids@);
}

/// Appends a height for each window.
fn push_heights(actions: &mut Vec<Action>, ids: &Vec<u64>, heights: &Vec<i32>)
    requires
        ids.len() == heights.len(),
    ensures
        final(actions)@ == old(actions)@ + fix_heights(ids@, heights@),
{
    let ghost before = actions@;
    let mut i: usize = 0;
    assert(actions@ =~= before + fix_heights(ids@.take(0), heights@));
    while i < ids.len()
        invariant
            i <= ids.len(),
            ids.len() == heights.len(),
            actions@ == before + fix_heights(ids@.take(i as int), heights@),
        decreases ids.len() - i,
    {
        actions.push(
            Action::SetWindowHeight { id: ids[i], change: SizeChange::SetFixed(heights[i]) },
        );
        assert(actions@ =~= before + fix_heights(ids@.take(i + 1), heights@));
        i = i + 1;
    }
    assert(ids@.take(i as int) =~= ids@);
}

/// The requests for an equal grid.
fn plan_actions(columns: &Vec<ColumnInfo>, widths: &Vec<i32>) -> (actions: Vec<Action>)
    requires
        columns.len() == widths.len(),
    ensures
        actions@ == grid_actions(column_views(columns@), widths@),
{
    let ghost all = column_views(columns@);
    let mut actions: Vec<Action> = Vec::new();
    let mut i: usize = 0;
    while i < columns.len()
        invariant
            i <= columns.len(),
            columns.len() == widths.len(),
            all == column_views(columns@),
            actions@ == grid_actions(all.take(i as int), widths@),
        decreases columns.len() - i,
    {
        let ghost before = actions@;
        actions.push(
            Action::SetWindowWidth {
                id: columns[i].lead_window_id,
                change: SizeChange::SetFixed(widths[i]),
            },
        );
        push_resets(&mut actions, &columns[i].window_ids);
        proof {
            let next = all.take(i + 1);
            assert(next.drop_last() =~= all.take(i as int));
            assert(next.last() == columns@[i as int]@);
            assert(actions@ =~= before + seq![fix_width(next.last(), widths@[i as int])]
                + reset_heights(next.last().window_ids));
        }
        i = i + 1;
    }
    assert(all.take(i as int) =~= all);
    actions
}

/// The requests for a grid that is equal both ways.
fn plan_actions_2d(
    columns: &Vec<ColumnInfo>,
    widths: &Vec<i32>,
    usable_height: i32,
    gap: i32,
) -> (actions: Vec<Action>)
    requires
        columns.len() == widths.len(),
        rows_fit(column_views(columns@), usable_height as int, gap as int),
    ensures
        actions@ == grid_actions_2d(
            column_views(columns@),
            widths@,
            usable_height as int,
            gap as int,
        ),
{
    let ghost all = column_views(columns@);
    let mut actions: Vec<Action> = Vec::new();
    let mut i: usize = 0;
    while i < columns.len()
        invariant
            i <= columns.len(),
            columns.len() == widths.len(),
            all == column_views(columns@),
            rows_fit(all, usable_height as int, gap as int),
            actions@ == grid_actions_2d(
                all.take(i as int),
                widths@,
                usable_height as int,
                gap as int,
            ),
        decreases columns.len() - i,
    {
        let ghost before = actions@;
        assert(all[i as int] == columns@[i as int]@);
        let heights: Vec<i32> = calculate_equal_row_heights(
            usable_height,
            gap,
            columns[i].window_ids.len(),
        );
        actions.push(
            Action::SetWindowWidth {
                id: columns[i].lead_window_id,
                change: SizeChange::SetFixed(widths[i]),
            },
        );
        push_heights(&mut actions, &columns[i].window_ids, &heights);
        proof {
            let next = all.take(i + 1);
            assert(next.drop_last() =~= all.take(i as int));
            assert(next.last() == columns@[i as int]@);
            assert(actions@ =~= before + seq![fix_width(next.last(), widths@[i as int])]
                + fix_heights(next.last().window_ids, heights@));
        }
        i = i + 1;
    }
    assert(all.take(i as int) =~= all);
    actions
}

/// Plans an equal grid for a workspace; there is nothing to plan where no
/// window is tiled.
pub fn layout_equal_grid(windows: &[Window], workspace_id: u64, usable_width: i32, gap: i32) -> (plan:
    Option<GridPlan>)
    requires
        shares_fit(
            usable_width as int,
            gap as int,
            workspace_columns(windows@, workspace_id).len(),
        ),
    ensures
        plan is None <==> workspace_columns(windows@, workspace_id).len() == 0,
        plan matches Some(p) ==> p@ == grid_plan(
            windows@,
            workspace_id,
            usable_width as int,
            gap as int,
        ),
{
    let columns: Vec<ColumnInfo> = parse_workspace_columns(windows, workspace_id);
    assert(column_views(columns@).len() == columns@.len());
    if columns.len() == 0 {
        return None;
    }
    let widths: Vec<i32> = calculate_equal_column_widths(usable_width, gap, columns.len());
    let actions: Vec<Action> = plan_actions(&columns, &widths);
    let font_size: u32 = calculate_font_size(columns.len(), count_most_rows(&columns));
    let pids: Vec<i32> = get_ghostty_pids_for_workspace(windows, workspace_id);
    Some(GridPlan { columns, widths, actions, font_size, pids })
}

/// Plans a grid that is equal both ways; there is nothing to plan where no
/// window is tiled.
pub fn layout_equal_grid_2d(
    windows: &[Window],
    workspace_id: u64,
    usable_width: i32,
    usable_height: i32,
    gap: i32,
) -> (plan: Option<GridPlan>)
    requires
        shares_fit(
            usable_width as int,
            gap as int,
            workspace_columns(windows@, workspace_id).len(),
        ),
        rows_fit(workspace_columns(windows@, workspace_id), usable_height as int, gap as int),
    ensures
        plan is None <==> workspace_columns(windows@, workspace_id).len() == 0,
        plan matches Some(p) ==> p@ == grid_plan_2d(
            windows@,
            workspace_id,
            usable_width as int,
            usable_height as int,
            gap as int,
        ),
{
    let columns: Vec<ColumnInfo> = parse_workspace_columns(windows, workspace_id);
    assert(column_views(columns@).len() == columns@.len());
    if columns.len() == 0 {
        return None;
    }
    let widths: Vec<i32> = calculate_equal_column_widths(usable_width, gap, columns.len());
    let actions: Vec<Action> = plan_actions_2d(&columns, &widths, usable_height, gap);
    let font_size: u32 = calculate_font_size(columns.len(), count_most_rows(&columns));
    let pids: Vec<i32> = get_ghostty_pids_for_workspace(windows, workspace_id);
    Some(GridPlan { columns, widths, actions, font_size, pids })
}

/// A lone column takes what the gap at either side leaves, and at least one pixel.
pub proof fn lone_column_takes_the_rest(usable_width: int, gap: int)
    requires
        shares_fit(usable_width, gap, 1),
    ensures
        equal_shares(usable_width, gap, 1) == seq![
            (if usable_width - 2 * gap > 1 {
                usable_width - 2 * gap
            } else {
                1
            }) as i32,
        ],
{
    let space = share_space(usable_width, gap, 1);
    assert(space / 1 == space && space % 1 == 0);
    assert(equal_shares(usable_width, gap, 1) =~= seq![
        equal_share(usable_width, gap, 1, 0) as i32,
    ]);
}

/// A window with this id is tiled on the workspace.
pub open spec fn is_tiled(windows: Seq<Window>, workspace_id: u64, id: u64) -> bool {
    exists|i: int|
        0 <= i < windows.len() && takes_part(#[trigger] windows[i], workspace_id, Seq::empty())
            && windows[i].id == id
}

/// The windows of every column, the topmost among them, are tiled on the workspace.
proof fn lemma_columns_are_tiled(windows: Seq<Window>, workspace_id: u64, k: int)
    requires
        0 <= k < workspace_columns(windows, workspace_id).len(),
    ensures
        forall|j: int|
            0 <= j < workspace_columns(windows, workspace_id)[k].window_ids.len() ==> is_tiled(
                windows,
                workspace_id,
                #[trigger] workspace_columns(windows, workspace_id)[k].window_ids[j],
            ),
        is_tiled(
            windows,
            workspace_id,
            workspace_columns(windows, workspace_id)[k].lead_window_id,
        ),
{
    let tiles = tiles_of(windows, workspace_id, Seq::empty());
    let index = column_indices(tiles)[k];
    let column = workspace_columns(windows, workspace_id)[k];
    let stack = sort_tiles(TileOrder::Row, members(tiles, index));
    assert(column_indices(tiles).contains(index));
    listed_columns_have_tiles(tiles, index);
    sorting_permutes(TileOrder::Row, members(tiles, index));
    assert forall|j: int| 0 <= j < column.window_ids.len() implies is_tiled(
        windows,
        workspace_id,
        #[trigger] column.window_ids[j],
    ) by {
        let tile = stack[j];
        assert(stack.contains(tile));
        sorting_keeps_members(TileOrder::Row, members(tiles, index), tile);
        tiles.lemma_filter_contains_rev(|t: Tile| t.column == index, tile);
        tiles_come_from_windows(windows, workspace_id, Seq::empty(), tile);
    }
    assert(column.lead_window_id == column.window_ids[0]);
}

/// Requests for windows that are all tiled on the workspace.
pub open spec fn only_tiled(windows: Seq<Window>, workspace_id: u64, actions: Seq<Action>) -> bool {
    forall|i: int|
        0 <= i < actions.len() ==> (#[trigger] actions[i]).target() is Some && is_tiled(
            windows,
            workspace_id,
            actions[i].target()->0,
        )
}

proof fn lemma_grid_actions_tiled(windows: Seq<Window>, workspace_id: u64, widths: Seq<i32>, n: nat)
    requires
        n <= workspace_columns(windows, workspace_id).len(),
    ensures
        only_tiled(
            windows,
            workspace_id,
            grid_actions(workspace_columns(windows, workspace_id).take(n as int), widths),
        ),
    decreases n,
{
    let columns = workspace_columns(windows, workspace_id);
    let actions = grid_actions(columns.take(n as int), widths);
    if n > 0 {
        let m = (n - 1) as nat;
        let before = grid_actions(columns.take(m as int), widths);
        lemma_grid_actions_tiled(windows, workspace_id, widths, m);
        lemma_columns_are_tiled(windows, workspace_id, m as int);
        assert(columns.take(n as int).drop_last() =~= columns.take(m as int));
        let column = columns[m as int];
        assert forall|i: int| 0 <= i < actions.len() implies (#[trigger] actions[i]).target() is Some
            && is_tiled(windows, workspace_id, actions[i].target()->0) by {
            if i < before.len() {
                assert(actions[i] == before[i]);
            } else if i > before.len() {
                let j = i - before.len() - 1;
                assert(actions[i] == reset_heights(column.window_ids)[j]);
                assert(is_tiled(windows, workspace_id, column.window_ids[j]));
            }
        }
    }
}

/// An equal grid asks nothing of a window that floats or that belongs to
/// another workspace.
pub proof fn grid_stays_on_its_workspace(
    windows: Seq<Window>,
    workspace_id: u64,
    usable_width: int,
    gap: int,
)
    ensures
        only_tiled(
            windows,
            workspace_id,
            grid_plan(windows, workspace_id, usable_width, gap).actions,
        ),
{
    let columns = workspace_columns(windows, workspace_id);
    let widths = equal_shares(usable_width, gap, columns.len());
    lemma_grid_actions_tiled(windows, workspace_id, widths, columns.len());
    assert(columns.take(columns.len() as int) =~= columns);
}

proof fn lemma_grid_actions_2d_tiled(
    windows: Seq<Window>,
    workspace_id: u64,
    widths: Seq<i32>,
    usable_height: int,
    gap: int,
    n: nat,
)
    requires
        n <= workspace_columns(windows, workspace_id).len(),
    ensures
        only_tiled(
            windows,
            workspace_id,
            grid_actions_2d(
                workspace_columns(windows, workspace_id).take(n as int),
                widths,
                usable_height,
                gap,
            ),
        ),
    decreases n,
{
    let columns = workspace_columns(windows, workspace_id);
    let actions = grid_actions_2d(columns.take(n as int), widths, usable_height, gap);
    if n > 0 {
        let m = (n - 1) as nat;
        let before = grid_actions_2d(columns.take(m as int), widths, usable_height, gap);
        lemma_grid_actions_2d_tiled(windows, workspace_id, widths, usable_height, gap, m);
        lemma_columns_are_tiled(windows, workspace_id, m as int);
        assert(columns.take(n as int).drop_last() =~= columns.take(m as int));
        let column = columns[m as int];
        let heights = equal_shares(usable_height, gap, column.window_ids.len());
        assert forall|i: int| 0 <= i < actions.len() implies (#[trigger] actions[i]).target() is Some
            && is_tiled(windows, workspace_id, actions[i].target()->0) by {
            if i < before.len() {
                assert(actions[i] == before[i]);
            } else if i > before.len() {
                let j = i - before.len() - 1;
                assert(actions[i] == fix_heights(column.window_ids, heights)[j]);
                assert(is_tiled(windows, workspace_id, column.window_ids[j]));
            }
        }
    }
}

/// A grid that is equal both ways asks nothing of a window that floats or that
/// belongs to another workspace.
pub proof fn grid_2d_stays_on_its_workspace(
    windows: Seq<Window>,
    workspace_id: u64,
    usable_width: int,
    usable_height: int,
    gap: int,
)
    ensures
        only_tiled(
            windows,
            workspace_id,
            grid_plan_2d(windows, workspace_id, usable_width, usable_height, gap).actions,
        ),
{
    let columns = workspace_columns(windows, workspace_id);
    let widths = equal_shares(usable_width, gap, columns.len());
    lemma_grid_actions_2d_tiled(
        windows,
        workspace_id,
        widths,
        usable_height,
        gap,
        columns.len(),
    );
    assert(columns.take(columns.len() as int) =~= columns);
}

} // verus!
