//! The master-stack layout: pairs of half-width columns, the right one of each
//! pair holding a stack of two.

use vstd::prelude::*;

use crate::grid::{layout_equal_grid, GridPlan};
use crate::layout::{collect_tiles, DEFAULT_GAP};
use crate::model::{Action, SizeChange, Tile, Window};
use crate::order::{sort_by_order, TileOrder};

verus! {

use crate::grid::{grid_plan, is_tiled, only_tiled, workspace_columns};
use crate::layout::{shares_fit, takes_part, tile_of, tiles_come_from_windows, tiles_of};
use crate::order::{sort_tiles, sorting_keeps_members, sorting_permutes};

/// The width, in percent, of a column in a pair.
pub const MASTER_COLUMN_PROPORTION: u32 = 50;

/// The width that a compressed workspace is laid out for.
pub const COMPRESSED_WIDTH: i32 = 2560;

// ---------------------------------------------------------------------------
// What the layout asks for
// ---------------------------------------------------------------------------

/// Gives a window a share of the width, in percent.
pub open spec fn widen(id: u64, percent: u32) -> Action {
    Action::SetWindowWidth { id, change: SizeChange::SetProportion(percent) }
}

/// Gives a window its automatic height back.
pub open spec fn reset(id: u64) -> Action {
    Action::ResetWindowHeight { id }
}

/// Moves a window into the column at its left.
pub open spec fn join_left(id: u64) -> Action {
    Action::ConsumeOrExpelWindowLeft { id }
}

/// The tiles below the first row, column by column, each column from its
/// bottom upwards.
pub open spec fn stacked(tiles: Seq<Tile>) -> Seq<Tile> {
    sort_tiles(TileOrder::Unstack, tiles.filter(|t: Tile| t.row > 1))
}

/// Takes every stack apart: each tile below the first row leaves its column.
pub open spec fn unstack_actions(tiles: Seq<Tile>) -> Seq<Action> {
    stacked(tiles).map_values(|t: Tile| Action::ConsumeOrExpelWindowRight { id: t.id })
}

/// One column of two: the first gets half the width, the second joins it.
pub open spec fn couple_actions(top: u64, bottom: u64) -> Seq<Action> {
    seq![
        widen(top, MASTER_COLUMN_PROPORTION),
        join_left(bottom),
        reset(top),
        reset(bottom),
    ]
}

/// One group of at most three tiles: the first two get half the width, and a
/// third joins the second.
pub open spec fn group_actions(group: Seq<Tile>) -> Seq<Action> {
    if group.len() == 0 {
        Seq::empty()
    } else if group.len() == 1 {
        seq![widen(group[0].id, MASTER_COLUMN_PROPORTION)]
    } else if group.len() == 2 {
        seq![
            widen(group[0].id, MASTER_COLUMN_PROPORTION),
            widen(group[1].id, MASTER_COLUMN_PROPORTION),
        ]
    } else {
        seq![
            widen(group[0].id, MASTER_COLUMN_PROPORTION),
            widen(group[1].id, MASTER_COLUMN_PROPORTION),
            join_left(group[2].id),
            reset(group[1].id),
            reset(group[2].id),
        ]
    }
}

/// Where the group that begins at `start` ends.
pub open spec fn group_end(start: int, len: int) -> int {
    if start + 3 < len {
        start + 3
    } else {
        len
    }
}

/// The requests for the groups of three that begin before `end`.
pub open spec fn groups_before(tiles: Seq<Tile>, end: int) -> Seq<Action>
    decreases end,
{
    if end <= 0 {
        Seq::empty()
    } else {
        let start = (end - 1) / 3 * 3;
        groups_before(tiles, start) + group_actions(
            tiles.subrange(start, group_end(start, tiles.len() as int)),
        )
    }
}

/// The first focused window.
pub open spec fn first_focused(windows: Seq<Window>) -> Option<u64>
    decreases windows.len(),
{
    if windows.len() == 0 {
        None
    } else if windows[0].is_focused {
        Some(windows[0].id)
    } else {
        first_focused(windows.drop_first())
    }
}

/// Where the first tile with this id stands, or the end.
pub open spec fn place_of(tiles: Seq<Tile>, id: u64) -> nat
    decreases tiles.len(),
{
    if tiles.len() == 0 || tiles[0].id == id {
        0
    } else {
        place_of(tiles.drop_first(), id) + 1
    }
}

/// `ids` without those that repeat the one before.
pub open spec fn without_repeats(ids: Seq<u64>) -> Seq<u64>
    decreases ids.len(),
{
    if ids.len() < 2 {
        ids
    } else if ids[ids.len() - 2] == ids.last() {
        without_repeats(ids.drop_last())
    } else {
        without_repeats(ids.drop_last()).push(ids.last())
    }
}

/// The windows that get the focus in turn so that the whole group comes into
/// view: the first two of the group, and then the one that had the focus.
pub open spec fn focus_ids(tiles: Seq<Tile>, focused: u64) -> Seq<u64> {
    let place = place_of(tiles, focused) as int;
    if place == tiles.len() {
        Seq::empty()
    } else {
        let start = place / 3 * 3;
        without_repeats(
            if start + 1 < tiles.len() {
                seq![tiles[start].id, tiles[start + 1].id, focused]
            } else {
                seq![tiles[start].id, focused]
            },
        )
    }
}

/// The requests that bring the group of the focused window into view.
pub open spec fn focus_actions(windows: Seq<Window>, tiles: Seq<Tile>) -> Seq<Action> {
    match first_focused(windows) {
        Some(focused) => focus_ids(tiles, focused).map_values(
            |id: u64| Action::FocusWindow { id },
        ),
        None => Seq::empty(),
    }
}

/// The requests for tiles that stand in reading order.
pub open spec fn stack_actions(windows: Seq<Window>, tiles: Seq<Tile>) -> Seq<Action> {
    if tiles.len() == 0 {
        Seq::empty()
    } else if tiles.len() == 1 {
        seq![widen(tiles[0].id, 100), reset(tiles[0].id)]
    } else if tiles.len() == 2 {
        unstack_actions(tiles) + seq![
            widen(tiles[0].id, MASTER_COLUMN_PROPORTION),
            reset(tiles[0].id),
            widen(tiles[1].id, MASTER_COLUMN_PROPORTION),
            reset(tiles[1].id),
        ]
    } else if tiles.len() == 3 {
        unstack_actions(tiles) + seq![
            widen(tiles[0].id, MASTER_COLUMN_PROPORTION),
            reset(tiles[0].id),
        ] + couple_actions(tiles[1].id, tiles[2].id)
    } else if tiles.len() == 4 {
        unstack_actions(tiles) + couple_actions(tiles[0].id, tiles[1].id) + couple_actions(
            tiles[2].id,
            tiles[3].id,
        )
    } else {
        unstack_actions(tiles) + groups_before(tiles, tiles.len() as int) + focus_actions(
            windows,
            tiles,
        )
    }
}

/// The tiles of a workspace from left to right, each column from the top down.
pub open spec fn tiles_in_reading_order(windows: Seq<Window>, workspace_id: u64) -> Seq<Tile> {
    sort_tiles(TileOrder::Position, tiles_of(windows, workspace_id, Seq::empty()))
}

/// The requests for a workspace that is not compressed.
pub open spec fn master_stack_actions(windows: Seq<Window>, workspace_id: u64) -> Seq<Action> {
    stack_actions(windows, tiles_in_reading_order(windows, workspace_id))
}

// ---------------------------------------------------------------------------
// Planning
// ---------------------------------------------------------------------------

/// What to do with a workspace.
#[derive(Debug)]
pub enum WorkspacePlan {
    /// Bring it into an equal grid, where it holds anything.
    EqualGrid(Option<GridPlan>),
    /// Send these requests in order.
    MasterStack(Vec<Action>),
}

/// Appends the requests that take the stacks apart.
fn push_unstack(actions: &mut Vec<Action>, tiles: &Vec<Tile>)
    ensures
        final(actions)@ == old(actions)@ + unstack_actions(tiles@),
{
    let ghost below = |t: Tile| t.row > 1;
    let mut lower: Vec<Tile> = Vec::new();
    let mut i: usize = 0;
    proof {
        reveal(Seq::filter);
    }
    while i < tiles.len()
        invariant
            i <= tiles.len(),
            below == (|t: Tile| t.row > 1),
            lower@ == tiles@.take(i as int).filter(below),
        decreases tiles.len() - i,
    {
        let tile: Tile = tiles[i];
        proof {
            tiles@.take(i as int).lemma_filter_push(tile, below);
            assert(tiles@.take(i + 1) =~= tiles@.take(i as int).push(tile));
        }
        if tile.row > 1 {
            lower.push(tile);
        }
        i = i + 1;
    }
    assert(tiles@.take(i as int) =~= tiles@);
    let order: Vec<Tile> = sort_by_order(TileOrder::Unstack, &lower);
    let ghost before = actions@;
    let ghost leave = |t: Tile| Action::ConsumeOrExpelWindowRight { id: t.id };
    let mut k: usize = 0;
    assert(actions@ =~= before + order@.take(0).map_values(leave));
    while k < order.len()
        invariant
            k <= order.len(),
            leave == (|t: Tile| Action::ConsumeOrExpelWindowRight { id: t.id }),
            actions@ == before + order@.take(k as int).map_values(leave),
        decreases order.len() - k,
    {
        actions.push(Action::ConsumeOrExpelWindowRight { id: order[k].id });
        assert(actions@ =~= before + order@.take(k + 1).map_values(leave));
        k = k + 1;
    }
    assert(order@.take(k as int) =~= order@);
}

/// Appends a share of the width for one window.
fn push_widen(actions: &mut Vec<Action>, id: u64, percent: u32)
    ensures
        final(actions)@ == old(actions)@.push(widen(id, percent)),
{
    actions.push(Action::SetWindowWidth { id, change: SizeChange::SetProportion(percent) });
}

/// Appends the automatic height for one window.
fn push_reset(actions: &mut Vec<Action>, id: u64)
    ensures
        final(actions)@ == old(actions)@.push(reset(id)),
{
    actions.push(Action::ResetWindowHeight { id });
}

/// Appends the requests for one column of two.
fn push_couple(actions: &mut Vec<Action>, top: u64, bottom: u64)
    ensures
        final(actions)@ == old(actions)@ + couple_actions(top, bottom),
{
    let ghost before = actions@;
    push_widen(actions, top, MASTER_COLUMN_PROPORTION);
    actions.push(Action::ConsumeOrExpelWindowLeft { id: bottom });
    push_reset(actions, top);
    push_reset(actions, bottom);
    assert(actions@ =~= before + couple_actions(top, bottom));
}

/// Appends the requests for the group that begins at `start`.
fn push_group(actions: &mut Vec<Action>, tiles: &Vec<Tile>, start: usize)
    requires
        start < tiles.len(),
    ensures
        final(actions)@ == old(actions)@ + group_actions(
            tiles@.subrange(start as int, group_end(start as int, tiles@.len() as int)),
        ),
{
    let ghost before = actions@;
    let ghost group = tiles@.subrange(
        start as int,
        group_end(start as int, tiles@.len() as int),
    );
    let count: usize = tiles.len() - start;
    push_widen(actions, tiles[start].id, MASTER_COLUMN_PROPORTION);
    if count >= 2 {
        push_widen(actions, tiles[start + 1].id, MASTER_COLUMN_PROPORTION);
    }
    if count >= 3 {
        actions.push(Action::ConsumeOrExpelWindowLeft { id: tiles[start + 2].id });
        push_reset(actions, tiles[start + 1].id);
        push_reset(actions, tiles[start + 2].id);
    }
    assert(actions@ =~= before + group_actions(group));
}

/// Appends the requests for all groups of three.
fn push_groups(actions: &mut Vec<Action>, tiles: &Vec<Tile>)
    ensures
        final(actions)@ == old(actions)@ + groups_before(tiles@, tiles@.len() as int),
{
    let ghost before = actions@;
    let mut start: usize = 0;
    assert(actions@ =~= before + groups_before(tiles@, 0));
    while start < tiles.len()
        invariant
            start <= tiles.len(),
            start == tiles.len() || start % 3 == 0,
            actions@ == before + groups_before(tiles@, start as int),
        decreases tiles.len() - start,
    {
        let ghost sofar = actions@;
        push_group(actions, tiles, start);
        let end: usize = if tiles.len() - start > 3 {
            start + 3
        } else {
            tiles.len()
        };
        proof {
            assert((end - 1) / 3 * 3 == start) by (nonlinear_arith)
                requires
                    start < end <= start + 3,
                    start % 3 == 0,
                    start >= 0,
            ;
            let group = group_actions(
                tiles@.subrange(start as int, group_end(start as int, tiles@.len() as int)),
            );
            assert(groups_before(tiles@, end as int) == groups_before(tiles@, start as int)
                + group);
            assert(actions@ =~= before + groups_before(tiles@, end as int));
        }
        start = end;
    }
}

pub(crate) proof fn lemma_first_focused(windows: Seq<Window>, at: int)
    requires
        0 <= at <= windows.len(),
        forall|k: int| 0 <= k < at ==> !(#[trigger] windows[k]).is_focused,
        at < windows.len() ==> windows[at].is_focused,
    ensures
        first_focused(windows) == (if at < windows.len() {
            Some(windows[at].id)
        } else {
            None
        }),
    decreases windows.len(),
{
    if at > 0 {
        assert(!windows[0].is_focused);
        lemma_first_focused(windows.drop_first(), at - 1);
    }
}

pub(crate) proof fn lemma_place_of(tiles: Seq<Tile>, id: u64, at: int)
    requires
        0 <= at <= tiles.len(),
        forall|k: int| 0 <= k < at ==> (#[trigger] tiles[k]).id != id,
        at < tiles.len() ==> tiles[at].id == id,
    ensures
        place_of(tiles, id) == at,
    decreases tiles.len(),
{
    if at > 0 {
        assert(tiles[0].id != id);
        lemma_place_of(tiles.drop_first(), id, at - 1);
    }
}

/// Finds the first focused window.
fn find_focused(windows: &[Window]) -> (focused: Option<u64>)
    ensures
        focused == first_focused(windows@),
{
    let mut i: usize = 0;
    while i < windows.len()
        invariant
            i <= windows.len(),
            forall|k: int| 0 <= k < i ==> !(#[trigger] windows@[k]).is_focused,
        decreases windows.len() - i,
    {
        if windows[i].is_focused {
            proof {
                lemma_first_focused(windows@, i as int);
            }
            return Some(windows[i].id);
        }
        i = i + 1;
    }
    proof {
        lemma_first_focused(windows@, i as int);
    }
    None
}

/// Appends the focus of a window unless it repeats the one before.
fn push_focus(actions: &mut Vec<Action>, last: Option<u64>, id: u64)
    ensures
        final(actions)@ == (if last == Some(id) {
            old(actions)@
        } else {
            old(actions)@.push(Action::FocusWindow { id })
        }),
{
    let repeats: bool = match last {
        Some(before) => before == id,
        None => false,
    };
    if !repeats {
        actions.push(Action::FocusWindow { id });
    }
}

/// Appends the requests that bring the group of the focused window into view.
fn push_focus_actions(actions: &mut Vec<Action>, windows: &[Window], tiles: &Vec<Tile>)
    ensures
        final(actions)@ == old(actions)@ + focus_actions(windows@, tiles@),
{
    let ghost before = actions@;
    let focused: u64 = match find_focused(windows) {
        Some(id) => id,
        None => {
            assert(actions@ =~= before + focus_actions(windows@, tiles@));
            return;
        },
    };
    let ghost focus = |id: u64| Action::FocusWindow { id };
    let mut place: usize = 0;
    while place < tiles.len() && tiles[place].id != focused
        invariant
            place <= tiles.len(),
            forall|k: int| 0 <= k < place ==> (#[trigger] tiles@[k]).id != focused,
        decreases tiles.len() - place,
    {
        place = place + 1;
    }
    proof {
        lemma_place_of(tiles@, focused, place as int);
    }
    if place == tiles.len() {
        assert(actions@ =~= before + focus_actions(windows@, tiles@));
        return;
    }
    let start: usize = place / 3 * 3;
    let first: u64 = tiles[start].id;
    push_focus(actions, None, first);
    if tiles.len() - start > 1 {
        let second: u64 = tiles[start + 1].id;
        push_focus(actions, Some(first), second);
        push_focus(actions, Some(second), focused);
        proof {
            let all = seq![first, second, focused];
            assert(all.drop_last() =~= seq![first, second]);
            assert(all.drop_last().drop_last() =~= seq![first]);
            reveal_with_fuel(without_repeats, 3);
            assert(actions@ =~= before + without_repeats(all).map_values(focus));
        }
    } else {
        push_focus(actions, Some(first), focused);
        proof {
            let all = seq![first, focused];
            assert(all.drop_last() =~= seq![first]);
            reveal_with_fuel(without_repeats, 2);
            assert(actions@ =~= before + without_repeats(all).map_values(focus));
        }
    }
}

/// The requests for tiles that stand in reading order.
fn plan_stack(windows: &[Window], tiles: &Vec<Tile>) -> (actions: Vec<Action>)
    ensures
        actions@ == stack_actions(windows@, tiles@),
{
    let mut actions: Vec<Action> = Vec::new();
    let count: usize = tiles.len();
    if count == 0 {
        return actions;
    }
    if count == 1 {
        push_widen(&mut actions, tiles[0].id, 100);
        push_reset(&mut actions, tiles[0].id);
        assert(actions@ =~= stack_actions(windows@, tiles@));
        return actions;
    }
    push_unstack(&mut actions, tiles);
    if count == 2 {
        push_widen(&mut actions, tiles[0].id, MASTER_COLUMN_PROPORTION);
        push_reset(&mut actions, tiles[0].id);
        push_widen(&mut actions, tiles[1].id, MASTER_COLUMN_PROPORTION);
        push_reset(&mut actions, tiles[1].id);
    } else if count == 3 {
        push_widen(&mut actions, tiles[0].id, MASTER_COLUMN_PROPORTION);
        push_reset(&mut actions, tiles[0].id);
        push_couple(&mut actions, tiles[1].id, tiles[2].id);
    } else if count == 4 {
        push_couple(&mut actions, tiles[0].id, tiles[1].id);
        push_couple(&mut actions, tiles[2].id, tiles[3].id);
    } else {
        push_groups(&mut actions, tiles);
        push_focus_actions(&mut actions, windows, tiles);
    }
    assert(actions@ =~= stack_actions(windows@, tiles@));
    actions
}

/// Plans a workspace: an equal grid where it is compressed, the master-stack
/// layout otherwise.
pub fn layout_workspace(windows: &[Window], workspace_id: u64, compressed: bool) -> (plan:
    WorkspacePlan)
    requires
        compressed ==> shares_fit(
            COMPRESSED_WIDTH as int,
            DEFAULT_GAP as int,
            workspace_columns(windows@, workspace_id).len(),
        ),
    ensures
        match plan {
            WorkspacePlan::EqualGrid(grid) => {
                &&& compressed
                &&& grid is None <==> workspace_columns(windows@, workspace_id).len() == 0
                &&& grid matches Some(g) ==> g@ == grid_plan(
                    windows@,
                    workspace_id,
                    COMPRESSED_WIDTH as int,
                    DEFAULT_GAP as int,
                )
            },
            WorkspacePlan::MasterStack(actions) => {
                &&& !compressed
                &&& actions@ == master_stack_actions(windows@, workspace_id)
            },
        },
{
    if compressed {
        return WorkspacePlan::EqualGrid(
            layout_equal_grid(windows, workspace_id, COMPRESSED_WIDTH, DEFAULT_GAP),
        );
    }
    let none: Vec<String> = Vec::new();
    assert(crate::text::views(none@) =~= Seq::<Seq<char>>::empty());
    let listed: Vec<Tile> = collect_tiles(windows, workspace_id, none.as_slice());
    let tiles: Vec<Tile> = sort_by_order(TileOrder::Position, &listed);
    WorkspacePlan::MasterStack(plan_stack(windows, &tiles))
}

// ---------------------------------------------------------------------------
// Laws
// ---------------------------------------------------------------------------

/// Some tile has this id.
pub open spec fn has_id(tiles: Seq<Tile>, id: u64) -> bool {
    exists|i: int| 0 <= i < tiles.len() && (#[trigger] tiles[i]).id == id
}

/// Requests for windows that are all among `tiles`.
pub open spec fn only_among(tiles: Seq<Tile>, actions: Seq<Action>) -> bool {
    forall|i: int|
        0 <= i < actions.len() ==> (#[trigger] actions[i]).target() is Some && has_id(
            tiles,
            actions[i].target()->0,
        )
}

proof fn lemma_only_among_joined(tiles: Seq<Tile>, a: Seq<Action>, b: Seq<Action>)
    requires
        only_among(tiles, a),
        only_among(tiles, b),
    ensures
        only_among(tiles, a + b),
{
    let all = a + b;
    assert forall|i: int| 0 <= i < all.len() implies (#[trigger] all[i]).target() is Some && has_id(
        tiles,
        all[i].target()->0,
    ) by {
        if i < a.len() {
            assert(all[i] == a[i]);
        } else {
            assert(all[i] == b[i - a.len()]);
        }
    }
}

proof fn lemma_unstack_among(tiles: Seq<Tile>)
    ensures
        only_among(tiles, unstack_actions(tiles)),
{
    let below = |t: Tile| t.row > 1;
    let lower = tiles.filter(below);
    let order = stacked(tiles);
    let actions = unstack_actions(tiles);
    assert forall|i: int| 0 <= i < actions.len() implies (#[trigger] actions[i]).target() is Some
        && has_id(tiles, actions[i].target()->0) by {
        let tile = order[i];
        assert(order.contains(tile));
        sorting_keeps_members(TileOrder::Unstack, lower, tile);
        tiles.lemma_filter_contains_rev(below, tile);
        let k = choose|k: int| 0 <= k < tiles.len() && tiles[k] == tile;
        assert(tiles[k].id == tile.id);
    }
}

proof fn lemma_groups_among(tiles: Seq<Tile>, end: int)
    requires
        0 <= end <= tiles.len(),
    ensures
        only_among(tiles, groups_before(tiles, end)),
    decreases end,
{
    if end > 0 {
        let start = (end - 1) / 3 * 3;
        let group = tiles.subrange(start, group_end(start, tiles.len() as int));
        lemma_groups_among(tiles, start);
        assert(group.len() >= 1);
        assert(group[0] == tiles[start]);
        if group.len() >= 2 {
            assert(group[1] == tiles[start + 1]);
        }
        if group.len() >= 3 {
            assert(group[2] == tiles[start + 2]);
        }
        assert(only_among(tiles, group_actions(group)));
        lemma_only_among_joined(tiles, groups_before(tiles, start), group_actions(group));
    }
}

proof fn lemma_place_of_shape(tiles: Seq<Tile>, id: u64)
    ensures
        place_of(tiles, id) <= tiles.len(),
        place_of(tiles, id) < tiles.len() ==> tiles[place_of(tiles, id) as int].id == id,
        has_id(tiles, id) ==> place_of(tiles, id) < tiles.len(),
    decreases tiles.len(),
{
    if tiles.len() > 0 && tiles[0].id != id {
        let rest = tiles.drop_first();
        lemma_place_of_shape(rest, id);
        if has_id(tiles, id) {
            let i = choose|i: int| 0 <= i < tiles.len() && (#[trigger] tiles[i]).id == id;
            assert(rest[i - 1].id == id);
        }
    }
}

/// What is left without repeats is among the ids and ends as they do.
proof fn lemma_without_repeats(ids: Seq<u64>)
    ensures
        forall|i: int|
            0 <= i < without_repeats(ids).len() ==> ids.contains(#[trigger] without_repeats(ids)[i]),
        ids.len() > 0 ==> without_repeats(ids).len() > 0 && without_repeats(ids).last()
            == ids.last(),
    decreases ids.len(),
{
    if ids.len() >= 2 {
        let front = ids.drop_last();
        lemma_without_repeats(front);
        let out = without_repeats(ids);
        assert forall|i: int| 0 <= i < out.len() implies ids.contains(#[trigger] out[i]) by {
            if i < without_repeats(front).len() {
                assert(out[i] == without_repeats(front)[i]);
                let k = choose|k: int| 0 <= k < front.len() && front[k] == out[i];
                assert(ids[k] == out[i]);
            } else {
                assert(ids[ids.len() - 1] == out[i]);
            }
        }
    } else {
        assert forall|i: int| 0 <= i < ids.len() implies ids.contains(#[trigger] ids[i]) by {}
    }
}

proof fn lemma_focus_among(windows: Seq<Window>, tiles: Seq<Tile>)
    ensures
        only_among(tiles, focus_actions(windows, tiles)),
{
    match first_focused(windows) {
        Some(focused) => {
            lemma_place_of_shape(tiles, focused);
            let place = place_of(tiles, focused) as int;
            if place < tiles.len() {
                let start = place / 3 * 3;
                let all = if start + 1 < tiles.len() {
                    seq![tiles[start].id, tiles[start + 1].id, focused]
                } else {
                    seq![tiles[start].id, focused]
                };
                lemma_without_repeats(all);
                assert forall|id: u64| #[trigger] all.contains(id) implies has_id(tiles, id) by {
                    assert(tiles[start].id == id || tiles[place].id == id || (start + 1
                        < tiles.len() && tiles[start + 1].id == id));
                }
                let actions = focus_actions(windows, tiles);
                assert forall|i: int| 0 <= i < actions.len() implies (
                #[trigger] actions[i]).target() is Some && has_id(
                    tiles,
                    actions[i].target()->0,
                ) by {
                    assert(all.contains(without_repeats(all)[i]));
                }
            }
        },
        None => {},
    }
}

proof fn lemma_stack_among(windows: Seq<Window>, tiles: Seq<Tile>)
    ensures
        only_among(tiles, stack_actions(windows, tiles)),
{
    lemma_unstack_among(tiles);
    let apart = unstack_actions(tiles);
    let n = tiles.len();
    if n == 2 {
        let rest = seq![
            widen(tiles[0].id, MASTER_COLUMN_PROPORTION),
            reset(tiles[0].id),
            widen(tiles[1].id, MASTER_COLUMN_PROPORTION),
            reset(tiles[1].id),
        ];
        assert(only_among(tiles, rest));
        lemma_only_among_joined(tiles, apart, rest);
    } else if n == 3 {
        let first = seq![widen(tiles[0].id, MASTER_COLUMN_PROPORTION), reset(tiles[0].id)];
        let rest = couple_actions(tiles[1].id, tiles[2].id);
        assert(only_among(tiles, first));
        assert(only_among(tiles, rest));
        lemma_only_among_joined(tiles, apart, first);
        lemma_only_among_joined(tiles, apart + first, rest);
    } else if n == 4 {
        let first = couple_actions(tiles[0].id, tiles[1].id);
        let rest = couple_actions(tiles[2].id, tiles[3].id);
        assert(only_among(tiles, first));
        assert(only_among(tiles, rest));
        lemma_only_among_joined(tiles, apart, first);
        lemma_only_among_joined(tiles, apart + first, rest);
    } else if n > 4 {
        let groups = groups_before(tiles, n as int);
        lemma_groups_among(tiles, n as int);
        lemma_focus_among(windows, tiles);
        lemma_only_among_joined(tiles, apart, groups);
        lemma_only_among_joined(tiles, apart + groups, focus_actions(windows, tiles));
    }
}

/// A tile in reading order belongs to a window that is tiled on the workspace.
proof fn lemma_reading_order_is_tiled(windows: Seq<Window>, workspace_id: u64, id: u64)
    ensures
        has_id(tiles_in_reading_order(windows, workspace_id), id) <==> is_tiled(
            windows,
            workspace_id,
            id,
        ),
{
    let listed = tiles_of(windows, workspace_id, Seq::empty());
    let tiles = tiles_in_reading_order(windows, workspace_id);
    if has_id(tiles, id) {
        let i = choose|i: int| 0 <= i < tiles.len() && (#[trigger] tiles[i]).id == id;
        let tile = tiles[i];
        assert(tiles.contains(tile));
        sorting_keeps_members(TileOrder::Position, listed, tile);
        tiles_come_from_windows(windows, workspace_id, Seq::empty(), tile);
    }
    if is_tiled(windows, workspace_id, id) {
        let i = choose|i: int|
            0 <= i < windows.len() && takes_part(#[trigger] windows[i], workspace_id, Seq::empty())
                && windows[i].id == id;
        let tile = tile_of(windows[i]);
        tiles_come_from_windows(windows, workspace_id, Seq::empty(), tile);
        assert(listed.contains(tile));
        sorting_keeps_members(TileOrder::Position, listed, tile);
        let k = choose|k: int| 0 <= k < tiles.len() && tiles[k] == tile;
        assert(tiles[k].id == id);
    }
}

/// The master-stack layout asks nothing of a window that floats or that belongs
/// to another workspace.
pub proof fn stack_stays_on_its_workspace(windows: Seq<Window>, workspace_id: u64)
    ensures
        only_tiled(windows, workspace_id, master_stack_actions(windows, workspace_id)),
{
    let tiles = tiles_in_reading_order(windows, workspace_id);
    let actions = master_stack_actions(windows, workspace_id);
    lemma_stack_among(windows, tiles);
    assert forall|i: int| 0 <= i < actions.len() implies (#[trigger] actions[i]).target() is Some
        && is_tiled(windows, workspace_id, actions[i].target()->0) by {
        lemma_reading_order_is_tiled(windows, workspace_id, actions[i].target()->0);
    }
}

/// Where more than four windows are tiled and the focused one is among them,
/// it has the focus in the end.
pub proof fn focus_ends_where_it_was(windows: Seq<Window>, workspace_id: u64, focused: u64)
    requires
        first_focused(windows) == Some(focused),
        is_tiled(windows, workspace_id, focused),
        tiles_of(windows, workspace_id, Seq::empty()).len() > 4,
    ensures
        master_stack_actions(windows, workspace_id).last() == (Action::FocusWindow { id: focused }),
{
    let tiles = tiles_in_reading_order(windows, workspace_id);
    sorting_permutes(TileOrder::Position, tiles_of(windows, workspace_id, Seq::empty()));
    lemma_reading_order_is_tiled(windows, workspace_id, focused);
    lemma_place_of_shape(tiles, focused);
    let start = place_of(tiles, focused) as int / 3 * 3;
    let all = if start + 1 < tiles.len() {
        seq![tiles[start].id, tiles[start + 1].id, focused]
    } else {
        seq![tiles[start].id, focused]
    };
    lemma_without_repeats(all);
    assert(all.last() == focused);
}

/// A group either gives a tile half the width or puts it into a stack.
proof fn lemma_group_places(tiles: Seq<Tile>, end: int, i: int)
    requires
        0 <= i < end <= tiles.len(),
    ensures
        groups_before(tiles, end).contains(
            if i % 3 == 2 {
                join_left(tiles[i].id)
            } else {
                widen(tiles[i].id, MASTER_COLUMN_PROPORTION)
            },
        ),
    decreases end,
{
    let start = (end - 1) / 3 * 3;
    let group = tiles.subrange(start, group_end(start, tiles.len() as int));
    let before = groups_before(tiles, start);
    let all = groups_before(tiles, end);
    let wanted = if i % 3 == 2 {
        join_left(tiles[i].id)
    } else {
        widen(tiles[i].id, MASTER_COLUMN_PROPORTION)
    };
    if i < start {
        lemma_group_places(tiles, start, i);
        let k = choose|k: int| 0 <= k < before.len() && before[k] == wanted;
        assert(all[k] == wanted);
    } else {
        let j = i - start;
        assert(0 <= j < 3 && j == i % 3);
        assert(group[j] == tiles[i]);
        assert(group_actions(group)[j] == wanted);
        assert(all[before.len() + j] == wanted);
    }
}

/// Where two or more windows are tiled, each of them gets half the width or
/// joins the column at its left.
pub proof fn every_tile_is_placed(windows: Seq<Window>, tiles: Seq<Tile>, i: int)
    requires
        tiles.len() >= 2,
        0 <= i < tiles.len(),
    ensures
        stack_actions(windows, tiles).contains(widen(tiles[i].id, MASTER_COLUMN_PROPORTION))
            || stack_actions(windows, tiles).contains(join_left(tiles[i].id)),
{
    let apart = unstack_actions(tiles);
    let all = stack_actions(windows, tiles);
    let base = apart.len() as int;
    let n = tiles.len();
    if n == 2 {
        assert(all[base] == widen(tiles[0].id, MASTER_COLUMN_PROPORTION));
        assert(all[base + 2] == widen(tiles[1].id, MASTER_COLUMN_PROPORTION));
    } else if n == 3 {
        assert(all[base] == widen(tiles[0].id, MASTER_COLUMN_PROPORTION));
        assert(all[base + 2] == widen(tiles[1].id, MASTER_COLUMN_PROPORTION));
        assert(all[base + 3] == join_left(tiles[2].id));
    } else if n == 4 {
        assert(all[base] == widen(tiles[0].id, MASTER_COLUMN_PROPORTION));
        assert(all[base + 1] == join_left(tiles[1].id));
        assert(all[base + 4] == widen(tiles[2].id, MASTER_COLUMN_PROPORTION));
        assert(all[base + 5] == join_left(tiles[3].id));
    } else {
        let groups = groups_before(tiles, n as int);
        lemma_group_places(tiles, n as int, i);
        let wanted = if i % 3 == 2 {
            join_left(tiles[i].id)
        } else {
            widen(tiles[i].id, MASTER_COLUMN_PROPORTION)
        };
        let k = choose|k: int| 0 <= k < groups.len() && groups[k] == wanted;
        assert(all[base + k] == wanted);
    }
}

} // verus!
