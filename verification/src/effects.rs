//! What plans and snapshots come to, told from the windows on the screen: the
//! requests of a grid one by one, the widths that they ask for, and the widths
//! that a snapshot brings back.

use vstd::prelude::*;

verus! {

use crate::arrangement::{
    begins_at_the_top,
    column_number,
    columns_are_what_is_seen,
    ids,
    lined_up,
    reading,
};
use crate::compression::{
    fresh_snapshot_needs_no_refresh,
    loaded,
    measured,
    planned,
    probed,
    Toggle,
    ToggleCommand,
    ToggleStage,
};
use crate::delivery::{
    a_compression_sends_its_plan,
    a_playback_goes_on_regardless,
    delivered,
};
use crate::font::scaled_size;
use crate::grid::{
    fix_heights,
    grid_actions,
    grid_actions_2d,
    grid_plan,
    grid_plan_2d,
    most_rows,
    reset_heights,
    workspace_columns,
    GridView,
};
use crate::layout::{
    column_at,
    column_indices,
    equal_shares,
    listed_columns_have_tiles,
    shares_are_even,
    shares_fill_the_extent,
    shares_fit,
    tiles_of,
    total,
    ColumnView,
};
use crate::layout::LayoutConfig;
use crate::layout::DEFAULT_GAP;
use crate::master_stack::{WorkspacePlan, COMPRESSED_WIDTH};
use crate::model::{Action, Output, SizeChange, Window, Workspace};
use crate::motion::{after_all, id_columns, master_stack, stack_ends_in_its_columns};
use crate::outputs::{dimensions, size_named};
use crate::refresh::{height_on, is_plan_for, plan_fits, width_on};
use crate::snapshot::{
    captured,
    playback,
    present_widths,
    refreshed,
    FontPoints,
    SnapshotView,
    WorkspaceSnapshot,
};
use crate::status::{is_status_of, windows_are_counted_once, WorkspaceStatus};

// ---------------------------------------------------------------------------
// One request after the other
// ---------------------------------------------------------------------------

/// How many requests concern the first `n` columns: one for each column and one
/// for each of its windows.
pub open spec fn requests_before(columns: Seq<Seq<u64>>, n: int) -> int
    decreases n,
{
    if n <= 0 {
        0
    } else {
        requests_before(columns, n - 1) + 1 + columns[n - 1].len()
    }
}

/// The requests give, column by column, the leading window its width, and then the
/// windows from the top down what `heights` says of them; nothing else.
pub open spec fn column_by_column(
    actions: Seq<Action>,
    columns: Seq<Seq<u64>>,
    leads: spec_fn(int) -> u64,
    widths: spec_fn(int) -> i32,
    heights: spec_fn(int, int) -> Action,
) -> bool {
    &&& actions.len() == requests_before(columns, columns.len() as int)
    &&& forall|c: int|
        0 <= c < columns.len() ==> #[trigger] actions[requests_before(columns, c)] == (
        Action::SetWindowWidth { id: leads(c), change: SizeChange::SetFixed(widths(c)) })
    &&& forall|c: int, r: int|
        0 <= c < columns.len() && 0 <= r < columns[c].len() ==> actions[requests_before(columns, c)
            + 1 + r] == #[trigger] heights(c, r)
}

/// The windows of each column.
pub open spec fn window_columns(columns: Seq<ColumnView>) -> Seq<Seq<u64>> {
    columns.map_values(|column: ColumnView| column.window_ids)
}

/// Every column names its topmost window as its lead.
pub open spec fn led_from_the_top(columns: Seq<ColumnView>) -> bool {
    forall|k: int|
        0 <= k < columns.len() ==> (#[trigger] columns[k]).window_ids.len() > 0
            && columns[k].lead_window_id == columns[k].window_ids[0]
}

proof fn lemma_requests_grow(columns: Seq<Seq<u64>>, c: int, n: int)
    requires
        0 <= c < n <= columns.len(),
    ensures
        0 <= requests_before(columns, c),
        requests_before(columns, c) + 1 + columns[c].len() <= requests_before(columns, n),
    decreases n,
{
    if c < n - 1 {
        lemma_requests_grow(columns, c, n - 1);
    } else if c > 0 {
        lemma_requests_grow(columns, 0, c);
    }
}

proof fn lemma_requests_of_front(columns: Seq<Seq<u64>>, n: int)
    requires
        0 <= n < columns.len(),
    ensures
        requests_before(columns.drop_last(), n) == requests_before(columns, n),
    decreases n,
{
    if n > 0 {
        lemma_requests_of_front(columns, n - 1);
    }
}

proof fn lemma_one_more_column(
    before: Seq<Action>,
    all: Seq<Action>,
    columns: Seq<Seq<u64>>,
    leads: spec_fn(int) -> u64,
    widths: spec_fn(int) -> i32,
    heights: spec_fn(int, int) -> Action,
)
    requires
        columns.len() > 0,
        column_by_column(before, columns.drop_last(), leads, widths, heights),
        all.len() == before.len() + 1 + columns.last().len(),
        forall|i: int| 0 <= i < before.len() ==> #[trigger] all[i] == before[i],
        all[before.len() as int] == (Action::SetWindowWidth {
            id: leads(columns.len() - 1),
            change: SizeChange::SetFixed(widths(columns.len() - 1)),
        }),
        forall|r: int|
            0 <= r < columns.last().len() ==> all[before.len() + 1 + r] == #[trigger] heights(
                columns.len() - 1,
                r,
            ),
    ensures
        column_by_column(all, columns, leads, widths, heights),
{
    let front = columns.drop_last();
    let n = columns.len() - 1;
    lemma_requests_of_front(columns, n);
    assert(requests_before(columns, n + 1) == requests_before(columns, n) + 1 + columns[n].len());
    assert forall|c: int| 0 <= c < columns.len() implies #[trigger] all[requests_before(
        columns,
        c,
    )] == (Action::SetWindowWidth {
        id: leads(c),
        change: SizeChange::SetFixed(widths(c)),
    }) by {
        if c < n {
            lemma_requests_of_front(columns, c);
            lemma_requests_grow(columns, c, n);
            assert(before[requests_before(front, c)] == (Action::SetWindowWidth {
                id: leads(c),
                change: SizeChange::SetFixed(widths(c)),
            }));
            assert(all[requests_before(columns, c)] == before[requests_before(columns, c)]);
        }
    }
    assert forall|c: int, r: int|
        0 <= c < columns.len() && 0 <= r < columns[c].len() implies all[requests_before(columns, c)
        + 1 + r] == #[trigger] heights(c, r) by {
        if c < n {
            lemma_requests_of_front(columns, c);
            lemma_requests_grow(columns, c, n);
            assert(front[c] == columns[c]);
            assert(before[requests_before(front, c) + 1 + r] == heights(c, r));
            let k = requests_before(columns, c) + 1 + r;
            assert(all[k] == before[k]);
        }
    }
}

/// A grid asks for its columns one after the other: for the leading window of
/// column `k` it sets width number `k`, once, and for every window of the column
/// it resets the height.
pub proof fn grid_goes_column_by_column(columns: Seq<ColumnView>, widths: Seq<i32>)
    ensures
        column_by_column(
            grid_actions(columns, widths),
            window_columns(columns),
            |c: int| columns[c].lead_window_id,
            |c: int| widths[c],
            |c: int, r: int| Action::ResetWindowHeight { id: columns[c].window_ids[r] },
        ),
    decreases columns.len(),
{
    let all = grid_actions(columns, widths);
    let w = |c: int| widths[c];
    let l = |c: int| columns[c].lead_window_id;
    let h = |c: int, r: int| Action::ResetWindowHeight { id: columns[c].window_ids[r] };
    if columns.len() > 0 {
        let front = columns.drop_last();
        let last = columns.last();
        let n = columns.len() - 1;
        let before = grid_actions(front, widths);
        let f = |c: int, r: int| Action::ResetWindowHeight { id: front[c].window_ids[r] };
        grid_goes_column_by_column(front, widths);
        let shorter = window_columns(columns).drop_last();
        assert(window_columns(front) =~= shorter);
        assert forall|c: int, r: int|
            0 <= c < shorter.len() && 0 <= r < shorter[c].len() implies before[requests_before(
            shorter,
            c,
        ) + 1 + r] == #[trigger] h(c, r) by {
            assert(f(c, r) == h(c, r));
        }
        assert forall|c: int| 0 <= c < shorter.len() implies #[trigger] before[requests_before(
            shorter,
            c,
        )] == (Action::SetWindowWidth {
            id: l(c),
            change: SizeChange::SetFixed(w(c)),
        }) by {
            assert(front[c].lead_window_id == columns[c].lead_window_id);
        }
        assert forall|r: int| 0 <= r < last.window_ids.len() implies all[before.len() + 1 + r]
            == #[trigger] h(n, r) by {
            assert(all[before.len() + 1 + r] == reset_heights(last.window_ids)[r]);
        }
        assert(window_columns(columns).last() == last.window_ids);
        lemma_one_more_column(before, all, window_columns(columns), l, w, h);
    }
}

/// A grid that is equal both ways asks for its columns one after the other, and
/// gives every window of a column its equal share of the height.
pub proof fn grid_2d_goes_column_by_column(
    columns: Seq<ColumnView>,
    widths: Seq<i32>,
    usable_height: int,
    gap: int,
)
    ensures
        column_by_column(
            grid_actions_2d(columns, widths, usable_height, gap),
            window_columns(columns),
            |c: int| columns[c].lead_window_id,
            |c: int| widths[c],
            |c: int, r: int|
                Action::SetWindowHeight {
                    id: columns[c].window_ids[r],
                    change: SizeChange::SetFixed(
                        equal_shares(usable_height, gap, columns[c].window_ids.len())[r],
                    ),
                },
        ),
    decreases columns.len(),
{
    let all = grid_actions_2d(columns, widths, usable_height, gap);
    let w = |c: int| widths[c];
    let l = |c: int| columns[c].lead_window_id;
    let h = |c: int, r: int|
        Action::SetWindowHeight {
            id: columns[c].window_ids[r],
            change: SizeChange::SetFixed(
                equal_shares(usable_height, gap, columns[c].window_ids.len())[r],
            ),
        };
    if columns.len() > 0 {
        let front = columns.drop_last();
        let last = columns.last();
        let n = columns.len() - 1;
        let before = grid_actions_2d(front, widths, usable_height, gap);
        let f = |c: int, r: int|
            Action::SetWindowHeight {
                id: front[c].window_ids[r],
                change: SizeChange::SetFixed(
                    equal_shares(usable_height, gap, front[c].window_ids.len())[r],
                ),
            };
        grid_2d_goes_column_by_column(front, widths, usable_height, gap);
        let shorter = window_columns(columns).drop_last();
        assert(window_columns(front) =~= shorter);
        assert forall|c: int, r: int|
            0 <= c < shorter.len() && 0 <= r < shorter[c].len() implies before[requests_before(
            shorter,
            c,
        ) + 1 + r] == #[trigger] h(c, r) by {
            assert(f(c, r) == h(c, r));
        }
        assert forall|c: int| 0 <= c < shorter.len() implies #[trigger] before[requests_before(
            shorter,
            c,
        )] == (Action::SetWindowWidth {
            id: l(c),
            change: SizeChange::SetFixed(w(c)),
        }) by {
            assert(front[c].lead_window_id == columns[c].lead_window_id);
        }
        let shares = equal_shares(usable_height, gap, last.window_ids.len());
        assert forall|r: int| 0 <= r < last.window_ids.len() implies all[before.len() + 1 + r]
            == #[trigger] h(n, r) by {
            assert(all[before.len() + 1 + r] == fix_heights(last.window_ids, shares)[r]);
        }
        assert(window_columns(columns).last() == last.window_ids);
        lemma_one_more_column(before, all, window_columns(columns), l, w, h);
    }
}

// ---------------------------------------------------------------------------
// Widths, heights and font sizes
// ---------------------------------------------------------------------------

/// Shares are fair: where there is a pixel for each, they and the gaps before,
/// between and behind them fill the extent, none is smaller than a later one, and
/// none is larger than another by more than a pixel. Where there is not, each is
/// one pixel.
pub open spec fn fair(shares: Seq<i32>, extent: int, gap: int) -> bool {
    let n = shares.len() as int;
    if n == 0 {
        true
    } else if extent - (n + 1) * gap >= n {
        &&& total(shares) + (n + 1) * gap == extent
        &&& forall|i: int, j: int|
            0 <= i <= j < n ==> 1 <= #[trigger] shares[j] <= #[trigger] shares[i] <= shares[j] + 1
    } else {
        forall|i: int| 0 <= i < n ==> #[trigger] shares[i] == 1
    }
}

/// Equal shares are fair, and there are as many of them as asked for.
pub proof fn equal_shares_are_fair(extent: int, gap: int, count: nat)
    requires
        shares_fit(extent, gap, count),
    ensures
        equal_shares(extent, gap, count).len() == count,
        fair(equal_shares(extent, gap, count), extent, gap),
{
    let shares = equal_shares(extent, gap, count);
    let n = count as int;
    if count > 0 {
        if extent - (n + 1) * gap >= n {
            shares_fill_the_extent(extent, gap, count);
        }
        assert forall|i: int, j: int| 0 <= i <= j < n implies 1 <= #[trigger] shares[j]
            <= #[trigger] shares[i] <= shares[j] + 1 by {
            shares_are_even(extent, gap, count, i, j);
        }
    }
}

/// The font size, in tenths of a point: twelve points, less seven tenths for each
/// column beyond the second and five for each row beyond the second, but not less
/// than eight and a half points.
pub proof fn font_shrinks_with_the_grid(num_cols: nat, max_rows: nat)
    ensures
        ({
            let columns = if num_cols > 2 {
                num_cols - 2
            } else {
                0
            };
            let rows = if max_rows > 2 {
                max_rows - 2
            } else {
                0
            };
            let size = 120 - 7 * columns - 5 * rows;
            scaled_size(120, num_cols as int, max_rows as int) == if size < 85 {
                85
            } else {
                size
            }
        }),
{
}

/// From any base, each column or row beyond the second takes the same off the
/// size, until the floor is reached.
pub proof fn font_shrinks_from_any_base(base: nat, num_cols: nat, max_rows: nat)
    ensures
        scaled_size(base as int, 2, 2) == base,
        num_cols < 2 ==> scaled_size(base as int, num_cols as int, max_rows as int) == scaled_size(
            base as int,
            2,
            max_rows as int,
        ),
        max_rows < 2 ==> scaled_size(base as int, num_cols as int, max_rows as int) == scaled_size(
            base as int,
            num_cols as int,
            2,
        ),
        num_cols >= 2 && base >= 85 ==> scaled_size(
            base as int,
            num_cols as int + 1,
            max_rows as int,
        ) == ({
            let size = scaled_size(base as int, num_cols as int, max_rows as int) - 7;
            if size < 85 {
                85
            } else {
                size
            }
        }),
        max_rows >= 2 && base >= 85 ==> scaled_size(
            base as int,
            num_cols as int,
            max_rows as int + 1,
        ) == ({
            let size = scaled_size(base as int, num_cols as int, max_rows as int) - 5;
            if size < 85 {
                85
            } else {
                size
            }
        }),
        base < 85 ==> scaled_size(base as int, num_cols as int, max_rows as int) == base,
{
}

proof fn lemma_most_rows(columns: Seq<ColumnView>)
    ensures
        forall|c: int|
            0 <= c < columns.len() ==> (#[trigger] columns[c]).window_ids.len() <= most_rows(
                columns,
            ),
        columns.len() > 0 ==> exists|c: int|
            0 <= c < columns.len() && (#[trigger] columns[c]).window_ids.len() == most_rows(
                columns,
            ),
    decreases columns.len(),
{
    if columns.len() > 0 {
        let front = columns.drop_last();
        lemma_most_rows(front);
        assert forall|c: int| 0 <= c < columns.len() implies (
        #[trigger] columns[c]).window_ids.len() <= most_rows(columns) by {
            if c < front.len() {
                assert(front[c].window_ids.len() <= most_rows(front));
            }
        }
        if columns.last().window_ids.len() >= most_rows(front) {
            assert(columns[columns.len() - 1].window_ids.len() == most_rows(columns));
        } else {
            let c = choose|c: int|
                0 <= c < front.len() && (#[trigger] front[c]).window_ids.len() == most_rows(front);
            assert(columns[c].window_ids.len() == most_rows(columns));
        }
    }
}

// ---------------------------------------------------------------------------
// Grids, from the windows
// ---------------------------------------------------------------------------

/// The columns of a workspace all name their topmost window as their lead.
pub proof fn columns_are_led_from_the_top(windows: Seq<Window>, workspace_id: u64)
    ensures
        led_from_the_top(workspace_columns(windows, workspace_id)),
{
    let tiles = tiles_of(windows, workspace_id, Seq::empty());
    let columns = workspace_columns(windows, workspace_id);
    assert forall|k: int| 0 <= k < columns.len() implies (#[trigger] columns[k]).window_ids.len()
        > 0 && columns[k].lead_window_id == columns[k].window_ids[0] by {
        let index = column_indices(tiles)[k];
        assert(column_indices(tiles).contains(index));
        listed_columns_have_tiles(tiles, index);
        assert(columns[k] == column_at(tiles, index));
    }
}

/// What a grid does to the windows on the screen. Column by column, from left to
/// right, the topmost window is given its width, once, and every window of the
/// column its automatic height. The widths are fair shares of the usable width,
/// and the font size goes by the number of columns and the longest of them.
pub proof fn grid_gives_every_column_its_width(
    windows: Seq<Window>,
    workspace_id: u64,
    shape: Seq<Seq<Window>>,
    usable_width: int,
    gap: int,
    longest: nat,
)
    requires
        lined_up(windows, workspace_id, shape),
        shares_fit(usable_width, gap, shape.len()),
        forall|c: int| 0 <= c < shape.len() ==> (#[trigger] shape[c]).len() <= longest,
        exists|c: int| 0 <= c < shape.len() && (#[trigger] shape[c]).len() == longest,
    ensures
        ({
            let plan = grid_plan(windows, workspace_id, usable_width, gap);
            let columns = if shape.len() > 2 {
                shape.len() - 2
            } else {
                0
            };
            let rows = if longest > 2 {
                longest - 2
            } else {
                0
            };
            let size = 120 - 7 * columns - 5 * rows;
            &&& plan.widths.len() == shape.len()
            &&& fair(plan.widths, usable_width, gap)
            &&& column_by_column(
                plan.actions,
                id_columns(shape),
                |c: int| shape[c][0].id,
                |c: int| plan.widths[c],
                |c: int, r: int| Action::ResetWindowHeight { id: shape[c][r].id },
            )
            &&& plan.font_size == if size < 85 {
                85
            } else {
                size
            }
        }),
{
    let plan = grid_plan(windows, workspace_id, usable_width, gap);
    let columns = workspace_columns(windows, workspace_id);
    columns_are_what_is_seen(windows, workspace_id, shape);
    columns_are_led_from_the_top(windows, workspace_id);
    equal_shares_are_fair(usable_width, gap, shape.len());
    grid_goes_column_by_column(columns, plan.widths);
    assert(window_columns(columns) =~= id_columns(shape));
    let seen = |c: int, r: int| Action::ResetWindowHeight { id: shape[c][r].id };
    let told = |c: int, r: int| Action::ResetWindowHeight { id: columns[c].window_ids[r] };
    let ids = id_columns(shape);
    assert forall|c: int, r: int| 0 <= c < ids.len() && 0 <= r < ids[c].len() implies plan.actions[
    requests_before(ids, c) + 1 + r] == #[trigger] seen(c, r) by {
        assert(told(c, r) == seen(c, r));
    }
    lemma_most_rows(columns);
    let c = choose|c: int| 0 <= c < shape.len() && (#[trigger] shape[c]).len() == longest;
    assert(columns[c].window_ids.len() == longest);
    let d = choose|d: int|
        0 <= d < columns.len() && (#[trigger] columns[d]).window_ids.len() == most_rows(columns);
    assert(shape[d].len() <= longest);
    font_shrinks_with_the_grid(shape.len(), longest);
}

/// What a grid that is equal both ways does to the windows on the screen: the
/// widths are those of the grid, and every window of a column is given a height,
/// its fair share of the usable height, in place of the automatic one.
pub proof fn grid_2d_gives_every_window_its_share(
    windows: Seq<Window>,
    workspace_id: u64,
    shape: Seq<Seq<Window>>,
    usable_width: int,
    usable_height: int,
    gap: int,
)
    requires
        lined_up(windows, workspace_id, shape),
        shares_fit(usable_width, gap, shape.len()),
        forall|c: int|
            0 <= c < shape.len() ==> shares_fit(usable_height, gap, (#[trigger] shape[c]).len()),
    ensures
        ({
            let plan = grid_plan_2d(windows, workspace_id, usable_width, usable_height, gap);
            let one_way = grid_plan(windows, workspace_id, usable_width, gap);
            let shares = |c: int| equal_shares(usable_height, gap, shape[c].len());
            &&& plan.columns == one_way.columns
            &&& plan.widths == one_way.widths
            &&& plan.font_size == one_way.font_size
            &&& plan.pids == one_way.pids
            &&& forall|c: int|
                0 <= c < shape.len() ==> (#[trigger] shares(c)).len() == shape[c].len() && fair(
                    shares(c),
                    usable_height,
                    gap,
                )
            &&& column_by_column(
                plan.actions,
                id_columns(shape),
                |c: int| shape[c][0].id,
                |c: int| plan.widths[c],
                |c: int, r: int|
                    Action::SetWindowHeight {
                        id: shape[c][r].id,
                        change: SizeChange::SetFixed(shares(c)[r]),
                    },
            )
        }),
{
    let plan = grid_plan_2d(windows, workspace_id, usable_width, usable_height, gap);
    let columns = workspace_columns(windows, workspace_id);
    let shares = |c: int| equal_shares(usable_height, gap, shape[c].len());
    columns_are_what_is_seen(windows, workspace_id, shape);
    columns_are_led_from_the_top(windows, workspace_id);
    grid_2d_goes_column_by_column(columns, plan.widths, usable_height, gap);
    assert(window_columns(columns) =~= id_columns(shape));
    assert forall|c: int| 0 <= c < shape.len() implies (#[trigger] shares(c)).len()
        == shape[c].len() && fair(shares(c), usable_height, gap) by {
        equal_shares_are_fair(usable_height, gap, shape[c].len());
    }
    let seen = |c: int, r: int|
        Action::SetWindowHeight {
            id: shape[c][r].id,
            change: SizeChange::SetFixed(shares(c)[r]),
        };
    let told = |c: int, r: int|
        Action::SetWindowHeight {
            id: columns[c].window_ids[r],
            change: SizeChange::SetFixed(
                equal_shares(usable_height, gap, columns[c].window_ids.len())[r],
            ),
        };
    let ids = id_columns(shape);
    assert forall|c: int, r: int| 0 <= c < ids.len() && 0 <= r < ids[c].len() implies plan.actions[
    requests_before(ids, c) + 1 + r] == #[trigger] seen(c, r) by {
        assert(columns[c].window_ids.len() == shape[c].len());
        assert(told(c, r) == seen(c, r));
    }
}

// ---------------------------------------------------------------------------
// Snapshots, from the windows
// ---------------------------------------------------------------------------

/// Playing a snapshot back gives column `k` the width that was saved of column
/// `k`, asked for on its lead window, and resets the height of each of its
/// windows.
pub proof fn playback_brings_every_width_back(columns: Seq<ColumnView>)
    ensures
        column_by_column(
            playback(columns),
            window_columns(columns),
            |c: int| columns[c].lead_window_id,
            |c: int| columns[c].original_pixel_width,
            |c: int, r: int| Action::ResetWindowHeight { id: columns[c].window_ids[r] },
        ),
{
    let widths = present_widths(columns);
    grid_goes_column_by_column(columns, widths);
    let saved = |c: int| columns[c].original_pixel_width;
    let told = |c: int| widths[c];
    let ids = window_columns(columns);
    assert forall|c: int| 0 <= c < ids.len() implies #[trigger] playback(columns)[requests_before(
        ids,
        c,
    )] == (Action::SetWindowWidth {
        id: columns[c].lead_window_id,
        change: SizeChange::SetFixed(saved(c)),
    }) by {
        assert(told(c) == saved(c));
    }
}

/// A snapshot holds what was on the screen: of every column its number, its
/// windows and their heights, and the width of its topmost window. Playing it
/// back asks for exactly these widths. It says besides which widths and which
/// font size the compression asks for, and what was known of the surroundings.
pub proof fn snapshot_holds_what_was_seen(
    workspace: Workspace,
    windows: Seq<Window>,
    shape: Seq<Seq<Window>>,
    usable_width: i32,
    gap: i32,
    config: Option<Seq<char>>,
    timestamp: u64,
)
    requires
        lined_up(windows, workspace.id, shape),
        shares_fit(usable_width as int, gap as int, shape.len()),
    ensures
        ({
            let plan = grid_plan(windows, workspace.id, usable_width as int, gap as int);
            let snapshot = captured(workspace, plan, usable_width, config, timestamp);
            &&& snapshot.columns.len() == shape.len()
            &&& forall|c: int|
                0 <= c < shape.len() ==> #[trigger] snapshot.columns[c] == (ColumnView {
                    column_index: column_number(shape[c][0]),
                    lead_window_id: shape[c][0].id,
                    window_ids: ids(shape[c]),
                    original_pixel_width: shape[c][0].tile_size.0,
                    window_heights: shape[c].map_values(|w: Window| w.tile_size.1),
                })
            &&& column_by_column(
                playback(snapshot.columns),
                id_columns(shape),
                |c: int| shape[c][0].id,
                |c: int| shape[c][0].tile_size.0,
                |c: int, r: int| Action::ResetWindowHeight { id: shape[c][r].id },
            )
            &&& snapshot.original_widths == Some(
                shape.map_values(|column: Seq<Window>| column[0].tile_size.0),
            )
            &&& snapshot.compressed_widths is Some
            &&& snapshot.compressed_widths->0.len() == shape.len()
            &&& fair(snapshot.compressed_widths->0, usable_width as int, gap as int)
            &&& snapshot.version == 1
            &&& snapshot.workspace_id == workspace.id
            &&& snapshot.output_name == (match workspace.output {
                Some(name) => Some(name@),
                None => None,
            })
            &&& snapshot.monitor_width == Some(usable_width)
            &&& snapshot.monitor_height == Some(1440i32)
            &&& snapshot.timestamp == Some(timestamp)
            &&& snapshot.active_window_id == workspace.active_window_id
            &&& snapshot.is_compressed == Some(true)
            &&& snapshot.font_size_original is None
            &&& snapshot.timestamp_utc is None
            &&& snapshot.font is Some
            &&& snapshot.font->0.original_config_local == config
            &&& snapshot.font->0.target_pids == plan.pids
            &&& snapshot.font_size_compressed == Some(snapshot.font->0.applied_font_size)
            &&& snapshot.font->0.applied_font_size == FontPoints::Tenths(plan.font_size as u32)
        }),
{
    let plan = grid_plan(windows, workspace.id, usable_width as int, gap as int);
    let columns = workspace_columns(windows, workspace.id);
    let snapshot = captured(workspace, plan, usable_width, config, timestamp);
    columns_are_what_is_seen(windows, workspace.id, shape);
    columns_are_led_from_the_top(windows, workspace.id);
    equal_shares_are_fair(usable_width as int, gap as int, shape.len());
    playback_brings_every_width_back(columns);
    assert(window_columns(columns) =~= id_columns(shape));
    assert(snapshot.original_widths->0 =~= shape.map_values(
        |column: Seq<Window>| column[0].tile_size.0,
    ));
    let all = id_columns(shape);
    let back = playback(columns);
    let seen = |c: int| shape[c][0].tile_size.0;
    let told = |c: int| columns[c].original_pixel_width;
    assert forall|c: int| 0 <= c < all.len() implies #[trigger] back[requests_before(all, c)] == (
    Action::SetWindowWidth { id: shape[c][0].id, change: SizeChange::SetFixed(seen(c)) }) by {
        assert(told(c) == seen(c));
    }
    let seen_reset = |c: int, r: int| Action::ResetWindowHeight { id: shape[c][r].id };
    let told_reset = |c: int, r: int| Action::ResetWindowHeight { id: columns[c].window_ids[r] };
    assert forall|c: int, r: int| 0 <= c < all.len() && 0 <= r < all[c].len() implies back[
    requests_before(all, c) + 1 + r] == #[trigger] seen_reset(c, r) by {
        assert(told_reset(c, r) == seen_reset(c, r));
    }
}

/// Bringing a snapshot up to date replaces the columns, the widths that the
/// compression asks for, and what is said of the font's size and processes;
/// everything else stays, and no font is added.
pub proof fn refreshing_replaces_the_layout_alone(snapshot: SnapshotView, plan: GridView)
    ensures
        ({
            let new = refreshed(snapshot, plan);
            &&& new.columns == plan.columns
            &&& new.compressed_widths == Some(plan.widths)
            &&& new.version == snapshot.version
            &&& new.workspace_id == snapshot.workspace_id
            &&& new.output_name == snapshot.output_name
            &&& new.monitor_width == snapshot.monitor_width
            &&& new.monitor_height == snapshot.monitor_height
            &&& new.timestamp == snapshot.timestamp
            &&& new.active_window_id == snapshot.active_window_id
            &&& new.original_widths == snapshot.original_widths
            &&& new.font_size_original == snapshot.font_size_original
            &&& new.font_size_compressed == snapshot.font_size_compressed
            &&& new.is_compressed == snapshot.is_compressed
            &&& new.timestamp_utc == snapshot.timestamp_utc
            &&& new.font is Some <==> snapshot.font is Some
            &&& new.font is Some ==> new.font->0.original_config_local
                == snapshot.font->0.original_config_local && new.font->0.target_pids == plan.pids
                && new.font->0.applied_font_size == FontPoints::Tenths(plan.font_size as u32)
        }),
{
}

// ---------------------------------------------------------------------------
// Toggles and refreshes, from the windows
// ---------------------------------------------------------------------------

/// A toggle of a workspace that has no snapshot compresses it: where nothing goes
/// wrong it sends, column by column, the widths of the grid and the height resets,
/// and last the request to centre the columns; the snapshot that it saves holds
/// what was seen before. A workspace without tiled windows is left alone.
pub proof fn a_first_toggle_compresses_what_is_seen(
    toggle: Toggle,
    workspace: Workspace,
    windows: Seq<Window>,
    shape: Seq<Seq<Window>>,
    config: Option<String>,
    timestamp: u64,
    stages: (ToggleStage, ToggleStage, ToggleStage),
    commands: (ToggleCommand, ToggleCommand, ToggleCommand),
    failures: spec_fn(nat) -> bool,
    steps: nat,
)
    requires
        lined_up(windows, workspace.id, shape),
        shares_fit(toggle.usable_width as int, toggle.gap as int, shape.len()),
        probed(workspace, false, stages.0, commands.0),
        planned(toggle, workspace, windows, stages.1, commands.1),
        stages.1 matches ToggleStage::Measuring(w, plan) ==> measured(
            toggle,
            w,
            plan,
            config,
            timestamp,
            stages.2,
            commands.2,
        ),
        forall|k: nat| !#[trigger] failures(k),
        steps >= requests_before(id_columns(shape), shape.len() as int) + 3,
    ensures
        commands.0 is FetchWindows,
        shape.len() == 0 ==> commands.1 is NothingToDo,
        shape.len() > 0 ==> {
            let widths = commands.2->snapshot@.compressed_widths->0;
            let sent = delivered(commands.2, failures, steps);
            &&& commands.1 is ReadSurroundings
            &&& commands.2 is Compress
            &&& commands.2->snapshot@.workspace_id == workspace.id
            &&& commands.2->snapshot@.original_widths == Some(
                shape.map_values(|column: Seq<Window>| column[0].tile_size.0),
            )
            &&& widths.len() == shape.len()
            &&& fair(widths, toggle.usable_width as int, toggle.gap as int)
            &&& sent.last() == Action::CenterVisibleColumns
            &&& column_by_column(
                sent.drop_last(),
                id_columns(shape),
                |c: int| shape[c][0].id,
                |c: int| widths[c],
                |c: int, r: int| Action::ResetWindowHeight { id: shape[c][r].id },
            )
        },
{
    columns_are_what_is_seen(windows, workspace.id, shape);
    if shape.len() > 0 {
        let width = toggle.usable_width;
        let gap = toggle.gap;
        let plan = grid_plan(windows, workspace.id, width as int, gap as int);
        let longest = most_rows(workspace_columns(windows, workspace.id));
        lemma_most_rows(workspace_columns(windows, workspace.id));
        assert forall|c: int| 0 <= c < shape.len() implies (#[trigger] shape[c]).len()
            <= longest by {
            assert(workspace_columns(windows, workspace.id)[c].window_ids.len() <= longest);
        }
        let c = choose|c: int|
            0 <= c < shape.len() && (#[trigger] workspace_columns(
                windows,
                workspace.id,
            )[c]).window_ids.len() == longest;
        assert(shape[c].len() == longest);
        grid_gives_every_column_its_width(
            windows,
            workspace.id,
            shape,
            width as int,
            gap as int,
            longest,
        );
        let text = match config {
            Some(t) => Some(t@),
            None => None,
        };
        snapshot_holds_what_was_seen(
            workspace,
            windows,
            shape,
            width,
            gap,
            text,
            timestamp,
        );
        a_compression_sends_its_plan(commands.2, failures, steps);
        assert(plan.actions.push(Action::CenterVisibleColumns).drop_last() =~= plan.actions);
    }
}

/// A second toggle restores what was seen before the first: whichever requests are
/// refused, it sends, column by column, the width that the topmost window had and
/// the height resets, and last the request to centre the columns.
pub proof fn a_second_toggle_restores_what_was_seen(
    workspace: Workspace,
    windows: Seq<Window>,
    shape: Seq<Seq<Window>>,
    usable_width: i32,
    gap: i32,
    config: Option<Seq<char>>,
    timestamp: u64,
    snapshot: WorkspaceSnapshot,
    stage: ToggleStage,
    command: ToggleCommand,
    failures: spec_fn(nat) -> bool,
    steps: nat,
)
    requires
        lined_up(windows, workspace.id, shape),
        shares_fit(usable_width as int, gap as int, shape.len()),
        snapshot@ == ({
            let plan = grid_plan(windows, workspace.id, usable_width as int, gap as int);
            refreshed(captured(workspace, plan, usable_width, config, timestamp), plan)
        }),
        loaded(workspace.id, Some(snapshot), stage, command),
        steps >= requests_before(id_columns(shape), shape.len() as int) + 2,
    ensures
        command is Restore,
        command->workspace_id == workspace.id,
        command->font is Some,
        command->font->0.pids@ == grid_plan(
            windows,
            workspace.id,
            usable_width as int,
            gap as int,
        ).pids,
        (match command->font->0.original_config {
            Some(t) => Some(t@),
            None => None,
        }) == config,
        ({
            let sent = delivered(command, failures, steps);
            &&& sent.last() == Action::CenterVisibleColumns
            &&& column_by_column(
                sent.drop_last(),
                id_columns(shape),
                |c: int| shape[c][0].id,
                |c: int| shape[c][0].tile_size.0,
                |c: int, r: int| Action::ResetWindowHeight { id: shape[c][r].id },
            )
        }),
{
    let plan = grid_plan(windows, workspace.id, usable_width as int, gap as int);
    snapshot_holds_what_was_seen(
        workspace,
        windows,
        shape,
        usable_width,
        gap,
        config,
        timestamp,
    );
    fresh_snapshot_needs_no_refresh(workspace, plan, usable_width, config, timestamp);
    a_playback_goes_on_regardless(command, failures, steps);
    let actions = command->Restore_actions@;
    assert(actions.push(Action::CenterVisibleColumns).drop_last() =~= actions);
}

/// What a refresh does to the windows on the screen. A workspace gets the grid
/// where that is asked for, on the part of its output that the struts leave; else
/// the master stack, which ends in the columns that it means.
pub proof fn a_refresh_lays_out_what_is_seen(
    plan: WorkspacePlan,
    windows: Seq<Window>,
    outputs: Seq<Output>,
    workspace_id: u64,
    output: Option<Seq<char>>,
    config: LayoutConfig,
    grid: bool,
    shape: Seq<Seq<Window>>,
)
    requires
        is_plan_for(plan, windows, outputs, workspace_id, output, config, grid),
        plan_fits(windows, outputs, workspace_id, output, config, grid),
        lined_up(windows, workspace_id, shape),
        begins_at_the_top(shape),
        ids(reading(shape)).no_duplicates(),
    ensures
        plan is EqualGrid <==> grid,
        plan matches WorkspacePlan::EqualGrid(found) ==> {
            let (w, h) = dimensions(size_named(outputs, output));
            let width = w - config.strut_left - config.strut_right;
            let height = h - config.strut_top - config.strut_bottom;
            let usable_width = if width > 0 {
                width
            } else {
                0
            };
            let usable_height = if height > 0 {
                height
            } else {
                0
            };
            let shares = |c: int| equal_shares(usable_height, config.gap as int, shape[c].len());
            &&& found is None <==> shape.len() == 0
            &&& found matches Some(g) ==> {
                &&& g@.widths.len() == shape.len()
                &&& fair(g@.widths, usable_width, config.gap as int)
                &&& forall|c: int|
                    0 <= c < shape.len() ==> (#[trigger] shares(c)).len() == shape[c].len()
                        && fair(shares(c), usable_height, config.gap as int)
                &&& column_by_column(
                    g@.actions,
                    id_columns(shape),
                    |c: int| shape[c][0].id,
                    |c: int| g@.widths[c],
                    |c: int, r: int|
                        Action::SetWindowHeight {
                            id: shape[c][r].id,
                            change: SizeChange::SetFixed(shares(c)[r]),
                        },
                )
            }
        },
        plan matches WorkspacePlan::MasterStack(actions) ==> after_all(
            id_columns(shape),
            actions@,
        ) == master_stack(ids(reading(shape))),
{
    columns_are_what_is_seen(windows, workspace_id, shape);
    let gap = config.gap as int;
    match plan {
        WorkspacePlan::EqualGrid(found) => {
            let width = width_on(outputs, output, config);
            let height = height_on(outputs, output, config);
            let columns = workspace_columns(windows, workspace_id);
            assert forall|c: int| 0 <= c < shape.len() implies shares_fit(
                height,
                gap,
                (#[trigger] shape[c]).len(),
            ) by {
                assert(shares_fit(height, gap, columns[c].window_ids.len()));
            }
            equal_shares_are_fair(width, gap, shape.len());
            grid_2d_gives_every_window_its_share(
                windows,
                workspace_id,
                shape,
                width,
                height,
                gap,
            );
        },
        WorkspacePlan::MasterStack(actions) => {
            stack_ends_in_its_columns(windows, workspace_id, shape);
        },
    }
}

/// A compressed workspace is laid out for a width of 2560 pixels with gaps of ten.
pub proof fn compressed_workspaces_have_their_measure(
    windows: Seq<Window>,
    workspace_id: u64,
    shape: Seq<Seq<Window>>,
)
    requires
        lined_up(windows, workspace_id, shape),
        shares_fit(2560, 10, shape.len()),
    ensures
        ({
            let g = grid_plan(windows, workspace_id, COMPRESSED_WIDTH as int, DEFAULT_GAP as int);
            &&& g.widths.len() == shape.len()
            &&& fair(g.widths, 2560, 10)
        }),
{
    columns_are_what_is_seen(windows, workspace_id, shape);
    equal_shares_are_fair(2560, 10, shape.len());
}

/// The status of a workspace tells what is seen: as many columns as there are, and
/// the windows on it that do not float; the rest is as the workspace says.
pub proof fn a_status_tells_what_is_seen(
    status: WorkspaceStatus,
    workspace: Workspace,
    windows: Seq<Window>,
    compressed: bool,
    shape: Seq<Seq<Window>>,
)
    requires
        is_status_of(status, workspace, windows, compressed),
        lined_up(windows, workspace.id, shape),
    ensures
        status.column_count == shape.len(),
        status.window_count == windows.filter(
            |w: Window| w.workspace_id == Some(workspace.id) && !w.is_floating,
        ).len(),
        status.id == workspace.id,
        status.name is Some <==> workspace.name is Some,
        status.name is Some ==> (status.name->0)@ == (workspace.name->0)@,
        status.output is Some <==> workspace.output is Some,
        status.output is Some ==> (status.output->0)@ == (workspace.output->0)@,
        status.is_focused == workspace.is_focused,
        status.is_active == workspace.is_active,
        status.is_compressed == compressed,
{
    columns_are_what_is_seen(windows, workspace.id, shape);
    windows_are_counted_once(windows, workspace.id);
}

} // verus!
