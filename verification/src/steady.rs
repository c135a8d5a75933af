//! Steadiness: a plan depends on which windows there are on the workspace and
//! where they stand, and on which window has the focus; not on how large windows
//! are at the moment, in which turn they are listed, or what stands elsewhere.

use vstd::prelude::*;

verus! {

use crate::font::terminal_pids;
use crate::grid::{
    grid_actions,
    grid_actions_2d,
    grid_plan,
    grid_plan_2d,
    most_rows,
    workspace_columns,
};
use crate::layout::{
    column_at,
    column_indices,
    columns_are_exact,
    columns_of,
    ids_of,
    listed_columns_have_tiles,
    members,
    rising,
    takes_part,
    tile_of,
    tiles_come_from_windows,
    tiles_of,
    ColumnView,
};
use crate::master_stack::{
    first_focused,
    focus_actions,
    focus_ids,
    group_actions,
    group_end,
    groups_before,
    master_stack_actions,
    place_of,
    stack_actions,
    stacked,
    tiles_in_reading_order,
    unstack_actions,
};
use crate::model::{Tile, Window};
use crate::order::{
    insert_tile,
    level,
    sort_tiles,
    sorting_ignores_the_turn,
    sorting_permutes,
    tells_apart,
    TileOrder,
};
use vstd::multiset::Multiset;

/// The same window at the same place, whatever its size.
pub open spec fn same_but_size(a: Window, b: Window) -> bool {
    b == (Window { tile_size: b.tile_size, ..a })
}

/// The same windows at the same places, whatever their sizes.
pub open spec fn resized(a: Seq<Window>, b: Seq<Window>) -> bool {
    &&& a.len() == b.len()
    &&& forall|i: int| 0 <= i < a.len() ==> same_but_size(#[trigger] a[i], #[trigger] b[i])
}

/// The same tile at the same place, whatever its size.
pub open spec fn same_place(a: Tile, b: Tile) -> bool {
    a.id == b.id && a.column == b.column && a.row == b.row
}

/// The same tiles at the same places, whatever their sizes.
pub open spec fn same_places(a: Seq<Tile>, b: Seq<Tile>) -> bool {
    &&& a.len() == b.len()
    &&& forall|i: int| 0 <= i < a.len() ==> same_place(#[trigger] a[i], #[trigger] b[i])
}

/// The same columns with the same windows, whatever their sizes.
pub open spec fn same_columns(a: Seq<ColumnView>, b: Seq<ColumnView>) -> bool {
    &&& a.len() == b.len()
    &&& forall|i: int|
        0 <= i < a.len() ==> (#[trigger] a[i]).lead_window_id == (#[trigger] b[i]).lead_window_id
            && a[i].window_ids == b[i].window_ids
}

proof fn lemma_tiles(a: Seq<Window>, b: Seq<Window>, workspace_id: u64)
    requires
        resized(a, b),
    ensures
        same_places(
            tiles_of(a, workspace_id, Seq::empty()),
            tiles_of(b, workspace_id, Seq::empty()),
        ),
    decreases a.len(),
{
    if a.len() > 0 {
        lemma_tiles(a.drop_last(), b.drop_last(), workspace_id);
        assert(same_but_size(a[a.len() - 1], b[b.len() - 1]));
    }
}

proof fn lemma_insert(order: TileOrder, a: Seq<Tile>, b: Seq<Tile>, x: Tile, y: Tile)
    requires
        same_places(a, b),
        same_place(x, y),
    ensures
        same_places(insert_tile(order, a, x), insert_tile(order, b, y)),
    decreases a.len(),
{
    if a.len() > 0 {
        assert(same_place(a[a.len() - 1], b[b.len() - 1]));
        lemma_insert(order, a.drop_last(), b.drop_last(), x, y);
    }
}

proof fn lemma_sort(order: TileOrder, a: Seq<Tile>, b: Seq<Tile>)
    requires
        same_places(a, b),
    ensures
        same_places(sort_tiles(order, a), sort_tiles(order, b)),
    decreases a.len(),
{
    if a.len() > 0 {
        lemma_sort(order, a.drop_last(), b.drop_last());
        assert(same_place(a[a.len() - 1], b[b.len() - 1]));
        lemma_insert(
            order,
            sort_tiles(order, a.drop_last()),
            sort_tiles(order, b.drop_last()),
            a.last(),
            b.last(),
        );
    }
}

proof fn lemma_filter(keep: spec_fn(Tile) -> bool, a: Seq<Tile>, b: Seq<Tile>)
    requires
        same_places(a, b),
        forall|x: Tile, y: Tile| same_place(x, y) ==> #[trigger] keep(x) == #[trigger] keep(y),
    ensures
        same_places(a.filter(keep), b.filter(keep)),
    decreases a.len(),
{
    reveal(Seq::filter);
    if a.len() > 0 {
        lemma_filter(keep, a.drop_last(), b.drop_last());
        assert(same_place(a[a.len() - 1], b[b.len() - 1]));
        assert(keep(a.last()) == keep(b.last()));
    }
}

proof fn lemma_indices(a: Seq<Tile>, b: Seq<Tile>)
    requires
        same_places(a, b),
    ensures
        column_indices(a) == column_indices(b),
    decreases a.len(),
{
    if a.len() > 0 {
        lemma_indices(a.drop_last(), b.drop_last());
        assert(same_place(a[a.len() - 1], b[b.len() - 1]));
    }
}

proof fn lemma_ids(a: Seq<Tile>, b: Seq<Tile>)
    requires
        same_places(a, b),
    ensures
        ids_of(a) == ids_of(b),
{
    assert forall|i: int| 0 <= i < a.len() implies ids_of(a)[i] == ids_of(b)[i] by {
        assert(same_place(a[i], b[i]));
    }
    assert(ids_of(a) =~= ids_of(b));
}

proof fn lemma_columns(a: Seq<Tile>, b: Seq<Tile>)
    requires
        same_places(a, b),
    ensures
        same_columns(columns_of(a), columns_of(b)),
{
    lemma_indices(a, b);
    let x = columns_of(a);
    let y = columns_of(b);
    assert forall|i: int| 0 <= i < x.len() implies (#[trigger] x[i]).lead_window_id == (
    #[trigger] y[i]).lead_window_id && x[i].window_ids == y[i].window_ids by {
        let index = column_indices(a)[i];
        assert(column_indices(a).contains(index));
        listed_columns_have_tiles(a, index);
        sorting_permutes(TileOrder::Row, members(a, index));
        lemma_filter(|t: Tile| t.column == index, a, b);
        lemma_sort(TileOrder::Row, members(a, index), members(b, index));
        let s = sort_tiles(TileOrder::Row, members(a, index));
        let t = sort_tiles(TileOrder::Row, members(b, index));
        lemma_ids(s, t);
        assert(same_place(s[0], t[0]));
        assert(x[i] == column_at(a, index));
        assert(y[i] == column_at(b, index));
    }
}

proof fn lemma_grid(a: Seq<ColumnView>, b: Seq<ColumnView>, widths: Seq<i32>, height: int, gap: int)
    requires
        same_columns(a, b),
    ensures
        grid_actions(a, widths) == grid_actions(b, widths),
        grid_actions_2d(a, widths, height, gap) == grid_actions_2d(b, widths, height, gap),
        most_rows(a) == most_rows(b),
    decreases a.len(),
{
    if a.len() > 0 {
        lemma_grid(a.drop_last(), b.drop_last(), widths, height, gap);
        assert(a[a.len() - 1].window_ids == b[b.len() - 1].window_ids);
        assert(a.last().lead_window_id == b.last().lead_window_id);
    }
}

proof fn lemma_pids(a: Seq<Window>, b: Seq<Window>, scope: Option<u64>)
    requires
        resized(a, b),
    ensures
        terminal_pids(a, scope) == terminal_pids(b, scope),
    decreases a.len(),
{
    if a.len() > 0 {
        lemma_pids(a.drop_last(), b.drop_last(), scope);
        assert(same_but_size(a[a.len() - 1], b[b.len() - 1]));
    }
}

proof fn lemma_workspace_columns(a: Seq<Window>, b: Seq<Window>, workspace_id: u64)
    requires
        resized(a, b),
    ensures
        same_columns(workspace_columns(a, workspace_id), workspace_columns(b, workspace_id)),
{
    lemma_tiles(a, b, workspace_id);
    lemma_columns(
        tiles_of(a, workspace_id, Seq::empty()),
        tiles_of(b, workspace_id, Seq::empty()),
    );
}

/// An equal grid does not depend on the sizes that windows have: the widths, the
/// requests, the font size and the terminals stay what they were.
pub proof fn grid_ignores_present_sizes(
    a: Seq<Window>,
    b: Seq<Window>,
    workspace_id: u64,
    usable_width: int,
    usable_height: int,
    gap: int,
)
    requires
        resized(a, b),
    ensures
        ({
            let p = grid_plan(a, workspace_id, usable_width, gap);
            let q = grid_plan(b, workspace_id, usable_width, gap);
            &&& p.widths == q.widths
            &&& p.actions == q.actions
            &&& p.font_size == q.font_size
            &&& p.pids == q.pids
        }),
        grid_plan_2d(a, workspace_id, usable_width, usable_height, gap).actions == grid_plan_2d(
            b,
            workspace_id,
            usable_width,
            usable_height,
            gap,
        ).actions,
{
    lemma_workspace_columns(a, b, workspace_id);
    lemma_pids(a, b, Some(workspace_id));
    let widths = grid_plan(a, workspace_id, usable_width, gap).widths;
    lemma_grid(
        workspace_columns(a, workspace_id),
        workspace_columns(b, workspace_id),
        widths,
        usable_height,
        gap,
    );
}

proof fn lemma_focused(a: Seq<Window>, b: Seq<Window>)
    requires
        resized(a, b),
    ensures
        first_focused(a) == first_focused(b),
    decreases a.len(),
{
    if a.len() > 0 {
        assert(same_but_size(a[0], b[0]));
        lemma_focused(a.drop_first(), b.drop_first());
    }
}

proof fn lemma_place(a: Seq<Tile>, b: Seq<Tile>, id: u64)
    requires
        same_places(a, b),
    ensures
        place_of(a, id) == place_of(b, id),
        place_of(a, id) <= a.len(),
    decreases a.len(),
{
    if a.len() > 0 {
        assert(same_place(a[0], b[0]));
        lemma_place(a.drop_first(), b.drop_first(), id);
    }
}

proof fn lemma_groups(a: Seq<Tile>, b: Seq<Tile>, end: int)
    requires
        same_places(a, b),
        end <= a.len(),
    ensures
        groups_before(a, end) == groups_before(b, end),
    decreases end,
{
    if end > 0 {
        let start = (end - 1) / 3 * 3;
        lemma_groups(a, b, start);
        let last = group_end(start, a.len() as int);
        let x = a.subrange(start, last);
        let y = b.subrange(start, last);
        assert forall|i: int| 0 <= i < x.len() implies (#[trigger] x[i]).id == y[i].id by {
            assert(same_place(a[start + i], b[start + i]));
        }
        assert(group_actions(x) == group_actions(y));
    }
}

proof fn lemma_unstack(a: Seq<Tile>, b: Seq<Tile>)
    requires
        same_places(a, b),
    ensures
        unstack_actions(a) == unstack_actions(b),
{
    lemma_filter(|t: Tile| t.row > 1, a, b);
    lemma_sort(
        TileOrder::Unstack,
        a.filter(|t: Tile| t.row > 1),
        b.filter(|t: Tile| t.row > 1),
    );
    let x = stacked(a);
    let y = stacked(b);
    assert forall|i: int| 0 <= i < x.len() implies unstack_actions(a)[i] == unstack_actions(
        b,
    )[i] by {
        assert(same_place(x[i], y[i]));
    }
    assert(unstack_actions(a) =~= unstack_actions(b));
}

proof fn lemma_stack(a: Seq<Window>, b: Seq<Window>, s: Seq<Tile>, t: Seq<Tile>)
    requires
        resized(a, b),
        same_places(s, t),
    ensures
        stack_actions(a, s) == stack_actions(b, t),
{
    lemma_unstack(s, t);
    lemma_groups(s, t, s.len() as int);
    lemma_focused(a, b);
    assert forall|i: int| 0 <= i < s.len() implies (#[trigger] s[i]).id == t[i].id by {
        assert(same_place(s[i], t[i]));
    }
    if let Some(focused) = first_focused(a) {
        lemma_place(s, t, focused);
        assert(focus_ids(s, focused) == focus_ids(t, focused));
    }
    assert(focus_actions(a, s) == focus_actions(b, t));
}

/// The master stack does not depend on the sizes that windows have.
pub proof fn stack_ignores_present_sizes(a: Seq<Window>, b: Seq<Window>, workspace_id: u64)
    requires
        resized(a, b),
    ensures
        master_stack_actions(a, workspace_id) == master_stack_actions(b, workspace_id),
{
    lemma_tiles(a, b, workspace_id);
    lemma_sort(
        TileOrder::Position,
        tiles_of(a, workspace_id, Seq::empty()),
        tiles_of(b, workspace_id, Seq::empty()),
    );
    lemma_stack(
        a,
        b,
        tiles_in_reading_order(a, workspace_id),
        tiles_in_reading_order(b, workspace_id),
    );
}

// ---------------------------------------------------------------------------
// The turn in which windows are listed
// ---------------------------------------------------------------------------

/// No two windows stand at the same place of the workspace.
pub open spec fn distinct_places(windows: Seq<Window>, workspace_id: u64) -> bool {
    forall|i: int, j: int|
        0 <= i < windows.len() && 0 <= j < windows.len() && i != j && takes_part(
            #[trigger] windows[i],
            workspace_id,
            Seq::empty(),
        ) && takes_part(#[trigger] windows[j], workspace_id, Seq::empty())
            ==> windows[i].pos_in_scrolling_layout != windows[j].pos_in_scrolling_layout
}

/// At most one window has the focus.
pub open spec fn one_focus(windows: Seq<Window>) -> bool {
    forall|i: int, j: int|
        0 <= i < windows.len() && 0 <= j < windows.len() && (#[trigger] windows[i]).is_focused && (
        #[trigger] windows[j]).is_focused ==> i == j
}

/// The tile of a window, if it takes part.
spec fn tile_bag(window: Window, workspace_id: u64) -> Multiset<Tile> {
    if takes_part(window, workspace_id, Seq::empty()) {
        Multiset::singleton(tile_of(window))
    } else {
        Multiset::empty()
    }
}

/// Taking one window off the list takes its tile off the tiles.
proof fn lemma_tiles_without(windows: Seq<Window>, workspace_id: u64, at: int)
    requires
        0 <= at < windows.len(),
    ensures
        tiles_of(windows, workspace_id, Seq::empty()).to_multiset() == tiles_of(
            windows.remove(at),
            workspace_id,
            Seq::empty(),
        ).to_multiset().add(tile_bag(windows[at], workspace_id)),
    decreases windows.len(),
{
    broadcast use vstd::seq_lib::group_to_multiset_ensures;

    let none = Seq::<Seq<char>>::empty();
    let front = windows.drop_last();
    let last = windows.last();
    let tiles = tiles_of(windows, workspace_id, none);
    assert(tiles.to_multiset() =~= tiles_of(front, workspace_id, none).to_multiset().add(
        tile_bag(last, workspace_id),
    ));
    if at == windows.len() - 1 {
        assert(windows.remove(at) =~= front);
    } else {
        let rest = windows.remove(at);
        lemma_tiles_without(front, workspace_id, at);
        assert(rest.drop_last() =~= front.remove(at));
        assert(rest.last() == last);
        assert(tiles_of(rest, workspace_id, none).to_multiset() =~= tiles_of(
            front.remove(at),
            workspace_id,
            none,
        ).to_multiset().add(tile_bag(last, workspace_id)));
        assert(tiles.to_multiset() =~= tiles_of(rest, workspace_id, none).to_multiset().add(
            tile_bag(windows[at], workspace_id),
        ));
    }
}

/// The same windows in another turn have the same tiles.
proof fn lemma_same_tiles(a: Seq<Window>, b: Seq<Window>, workspace_id: u64)
    requires
        a.to_multiset() == b.to_multiset(),
    ensures
        tiles_of(a, workspace_id, Seq::empty()).to_multiset() == tiles_of(
            b,
            workspace_id,
            Seq::empty(),
        ).to_multiset(),
    decreases a.len(),
{
    broadcast use vstd::seq_lib::group_to_multiset_ensures;

    assert(a.len() == a.to_multiset().len());
    assert(b.len() == b.to_multiset().len());
    if a.len() > 0 {
        let x = a.last();
        assert(a.contains(x));
        assert(b.to_multiset().contains(x));
        assert(b.contains(x));
        let at = choose|k: int| 0 <= k < b.len() && b[k] == x;
        let front = a.drop_last();
        let rest = b.remove(at);
        assert(a.remove(a.len() - 1) =~= front);
        assert(front.to_multiset() =~= a.to_multiset().remove(x));
        assert(rest.to_multiset() =~= b.to_multiset().remove(x));
        lemma_same_tiles(front, rest, workspace_id);
        lemma_tiles_without(a, workspace_id, a.len() - 1);
        lemma_tiles_without(b, workspace_id, at);
    } else {
        assert(a =~= b);
    }
}

/// Where no two windows stand at the same place, both orders by place tell the
/// tiles apart.
proof fn lemma_places_tell_apart(windows: Seq<Window>, workspace_id: u64, order: TileOrder)
    requires
        distinct_places(windows, workspace_id),
        order is Position || order is Unstack,
    ensures
        tells_apart(order, tiles_of(windows, workspace_id, Seq::empty())),
{
    let none = Seq::<Seq<char>>::empty();
    let tiles = tiles_of(windows, workspace_id, none);
    assert forall|x: Tile, y: Tile|
        #[trigger] tiles.contains(x) && #[trigger] tiles.contains(y) && level(
            order,
            x,
            y,
        ) implies x == y by {
        tiles_come_from_windows(windows, workspace_id, none, x);
        tiles_come_from_windows(windows, workspace_id, none, y);
        let i = choose|i: int|
            0 <= i < windows.len() && takes_part(#[trigger] windows[i], workspace_id, none)
                && tile_of(windows[i]) == x;
        let j = choose|j: int|
            0 <= j < windows.len() && takes_part(#[trigger] windows[j], workspace_id, none)
                && tile_of(windows[j]) == y;
        assert(windows[i].pos_in_scrolling_layout == windows[j].pos_in_scrolling_layout);
    }
}

/// The focused window is one that has the focus; where there is none, no window
/// has it.
proof fn lemma_first_focused(windows: Seq<Window>)
    ensures
        match first_focused(windows) {
            Some(id) => exists|i: int|
                0 <= i < windows.len() && (#[trigger] windows[i]).is_focused && windows[i].id == id,
            None => forall|i: int|
                0 <= i < windows.len() ==> !(#[trigger] windows[i]).is_focused,
        },
    decreases windows.len(),
{
    if windows.len() > 0 && !windows[0].is_focused {
        let rest = windows.drop_first();
        lemma_first_focused(rest);
        match first_focused(windows) {
            Some(id) => {
                let i = choose|i: int|
                    0 <= i < rest.len() && (#[trigger] rest[i]).is_focused && rest[i].id == id;
                assert(windows[i + 1] == rest[i]);
            },
            None => {
                assert forall|i: int| 0 <= i < windows.len() implies !(
                #[trigger] windows[i]).is_focused by {
                    if i > 0 {
                        assert(rest[i - 1] == windows[i]);
                    }
                }
            },
        }
    }
}

/// Where at most one window has the focus, the turn of the windows does not
/// matter for which it is.
proof fn lemma_focus_ignores_the_turn(a: Seq<Window>, b: Seq<Window>)
    requires
        a.to_multiset() == b.to_multiset(),
        one_focus(a),
    ensures
        first_focused(a) == first_focused(b),
{
    broadcast use vstd::seq_lib::group_to_multiset_ensures;

    lemma_first_focused(a);
    lemma_first_focused(b);
    assert forall|w: Window| #[trigger] b.contains(w) implies a.contains(w) by {
        assert(b.to_multiset().contains(w));
    }
    assert forall|w: Window| #[trigger] a.contains(w) implies b.contains(w) by {
        assert(a.to_multiset().contains(w));
    }
    if let Some(id) = first_focused(a) {
        let i = choose|i: int|
            0 <= i < a.len() && (#[trigger] a[i]).is_focused && a[i].id == id;
        assert(a.contains(a[i]));
        let j = choose|j: int| 0 <= j < b.len() && b[j] == a[i];
        assert(b[j].is_focused);
    }
    if let Some(id) = first_focused(b) {
        let j = choose|j: int|
            0 <= j < b.len() && (#[trigger] b[j]).is_focused && b[j].id == id;
        assert(b.contains(b[j]));
        let i = choose|i: int| 0 <= i < a.len() && a[i] == b[j];
        assert(a[i].is_focused);
    }
}

/// The master stack does not depend on the turn in which the windows are listed,
/// where no two stand at the same place and at most one has the focus.
pub proof fn stack_ignores_the_turn(a: Seq<Window>, b: Seq<Window>, workspace_id: u64)
    requires
        a.to_multiset() == b.to_multiset(),
        distinct_places(a, workspace_id),
        one_focus(a),
    ensures
        master_stack_actions(a, workspace_id) == master_stack_actions(b, workspace_id),
{
    lemma_same_tiles(a, b, workspace_id);
    lemma_places_tell_apart(a, workspace_id, TileOrder::Position);
    sorting_ignores_the_turn(
        TileOrder::Position,
        tiles_of(a, workspace_id, Seq::empty()),
        tiles_of(b, workspace_id, Seq::empty()),
    );
    lemma_focus_ignores_the_turn(a, b);
}

/// Two rising rows of the same numbers are the same row.
pub(crate) proof fn lemma_one_rising_row(s: Seq<usize>, t: Seq<usize>)
    requires
        rising(s),
        rising(t),
        forall|x: usize| #[trigger] s.contains(x) <==> t.contains(x),
    ensures
        s == t,
    decreases s.len(),
{
    if s.len() > 0 && t.len() > 0 {
        let x = s.last();
        let y = t.last();
        assert(s.contains(x));
        assert(t.contains(y));
        assert(t.contains(x));
        assert(s.contains(y));
        assert(x == y);
        let a = s.drop_last();
        let b = t.drop_last();
        assert forall|n: usize| #[trigger] a.contains(n) <==> b.contains(n) by {
            if a.contains(n) {
                let i = choose|i: int| 0 <= i < a.len() && a[i] == n;
                assert(s[i] == n && n < x);
                assert(s.contains(n));
                assert(t.contains(n));
                let j = choose|j: int| 0 <= j < t.len() && t[j] == n;
                assert(b[j] == n);
            }
            if b.contains(n) {
                let j = choose|j: int| 0 <= j < b.len() && b[j] == n;
                assert(t[j] == n && n < y);
                assert(t.contains(n));
                assert(s.contains(n));
                let i = choose|i: int| 0 <= i < s.len() && s[i] == n;
                assert(a[i] == n);
            }
        }
        lemma_one_rising_row(a, b);
        assert(a.push(x) =~= s);
        assert(b.push(y) =~= t);
    } else if s.len() > 0 {
        assert(s.contains(s[0]));
        assert(t.contains(s[0]));
    } else if t.len() > 0 {
        assert(t.contains(t[0]));
        assert(s.contains(t[0]));
    } else {
        assert(s =~= t);
    }
}

/// Filtering a row filters what it holds.
proof fn lemma_filtered_bag(tiles: Seq<Tile>, keep: spec_fn(Tile) -> bool)
    ensures
        tiles.filter(keep).to_multiset() == tiles.to_multiset().filter(keep),
    decreases tiles.len(),
{
    broadcast use {
        vstd::seq_lib::group_to_multiset_ensures,
        vstd::multiset::group_multiset_axioms,
    };

    reveal(Seq::filter);
    if tiles.len() > 0 {
        let front = tiles.drop_last();
        lemma_filtered_bag(front, keep);
        assert(front.push(tiles.last()) =~= tiles);
        assert(tiles.to_multiset() =~= front.to_multiset().insert(tiles.last()));
    }
    assert(tiles.filter(keep).to_multiset() =~= tiles.to_multiset().filter(keep));
}

proof fn lemma_columns_ignore_the_turn(a: Seq<Window>, b: Seq<Window>, workspace_id: u64)
    requires
        a.to_multiset() == b.to_multiset(),
        distinct_places(a, workspace_id),
    ensures
        workspace_columns(a, workspace_id) == workspace_columns(b, workspace_id),
{
    broadcast use vstd::seq_lib::group_to_multiset_ensures;

    let s = tiles_of(a, workspace_id, Seq::empty());
    let t = tiles_of(b, workspace_id, Seq::empty());
    lemma_same_tiles(a, b, workspace_id);
    lemma_places_tell_apart(a, workspace_id, TileOrder::Position);
    columns_are_exact(s);
    columns_are_exact(t);
    assert forall|x: Tile| #[trigger] s.contains(x) <==> t.contains(x) by {
        assert(s.contains(x) <==> s.to_multiset().contains(x));
        assert(t.contains(x) <==> t.to_multiset().contains(x));
    }
    assert forall|index: usize| #[trigger]
        column_indices(s).contains(index) <==> column_indices(t).contains(index) by {
        if column_indices(s).contains(index) {
            let i = choose|i: int| 0 <= i < s.len() && (#[trigger] s[i]).column == index;
            assert(s.contains(s[i]));
            let j = choose|j: int| 0 <= j < t.len() && t[j] == s[i];
            assert(t[j].column == index);
        }
        if column_indices(t).contains(index) {
            let j = choose|j: int| 0 <= j < t.len() && (#[trigger] t[j]).column == index;
            assert(t.contains(t[j]));
            assert(s.contains(t[j]));
            let i = choose|i: int| 0 <= i < s.len() && s[i] == t[j];
            assert(s[i].column == index);
        }
    }
    lemma_one_rising_row(column_indices(s), column_indices(t));
    assert forall|index: usize| #[trigger] column_at(s, index) == column_at(t, index) by {
        let here = |x: Tile| x.column == index;
        lemma_filtered_bag(s, here);
        lemma_filtered_bag(t, here);
        assert forall|x: Tile, y: Tile|
            #[trigger] members(s, index).contains(x) && #[trigger] members(s, index).contains(y)
                && level(TileOrder::Row, x, y) implies x == y by {
            let i = choose|i: int| 0 <= i < s.filter(here).len() && s.filter(here)[i] == x;
            let j = choose|j: int| 0 <= j < s.filter(here).len() && s.filter(here)[j] == y;
            s.lemma_filter_pred(here, i);
            s.lemma_filter_pred(here, j);
            s.lemma_filter_contains_rev(here, x);
            s.lemma_filter_contains_rev(here, y);
            assert(level(TileOrder::Position, x, y));
        }
        sorting_ignores_the_turn(TileOrder::Row, members(s, index), members(t, index));
    }
    assert(workspace_columns(a, workspace_id) =~= workspace_columns(b, workspace_id));
}

/// An equal grid does not depend on the turn in which the windows are listed,
/// where no two stand at the same place: columns, widths, requests and font size
/// are the same.
pub proof fn grid_ignores_the_turn(
    a: Seq<Window>,
    b: Seq<Window>,
    workspace_id: u64,
    usable_width: int,
    usable_height: int,
    gap: int,
)
    requires
        a.to_multiset() == b.to_multiset(),
        distinct_places(a, workspace_id),
    ensures
        ({
            let p = grid_plan(a, workspace_id, usable_width, gap);
            let q = grid_plan(b, workspace_id, usable_width, gap);
            &&& p.columns == q.columns
            &&& p.widths == q.widths
            &&& p.actions == q.actions
            &&& p.font_size == q.font_size
        }),
        grid_plan_2d(a, workspace_id, usable_width, usable_height, gap).actions == grid_plan_2d(
            b,
            workspace_id,
            usable_width,
            usable_height,
            gap,
        ).actions,
{
    lemma_columns_ignore_the_turn(a, b, workspace_id);
}

// ---------------------------------------------------------------------------
// Windows elsewhere
// ---------------------------------------------------------------------------

/// The windows that bear on the workspace: those tiled on it, and those that have
/// the focus.
pub open spec fn bearing(windows: Seq<Window>, workspace_id: u64) -> Seq<Window> {
    windows.filter(|w: Window| takes_part(w, workspace_id, Seq::empty()) || w.is_focused)
}

/// A window listed last has the focus where no other has it.
proof fn lemma_first_focused_of_push(windows: Seq<Window>, last: Window)
    ensures
        first_focused(windows.push(last)) == (match first_focused(windows) {
            Some(id) => Some(id),
            None => if last.is_focused {
                Some(last.id)
            } else {
                None
            },
        }),
    decreases windows.len(),
{
    let all = windows.push(last);
    if windows.len() > 0 {
        lemma_first_focused_of_push(windows.drop_first(), last);
        assert(all.drop_first() =~= windows.drop_first().push(last));
        assert(all[0] == windows[0]);
    } else {
        assert(all.drop_first() =~= Seq::<Window>::empty());
        assert(first_focused(all.drop_first()) is None);
    }
}

proof fn lemma_bearing(windows: Seq<Window>, workspace_id: u64)
    ensures
        tiles_of(bearing(windows, workspace_id), workspace_id, Seq::empty()) == tiles_of(
            windows,
            workspace_id,
            Seq::empty(),
        ),
        first_focused(bearing(windows, workspace_id)) == first_focused(windows),
    decreases windows.len(),
{
    reveal(Seq::filter);
    if windows.len() > 0 {
        let front = windows.drop_last();
        let last = windows.last();
        let kept = bearing(front, workspace_id);
        lemma_bearing(front, workspace_id);
        lemma_first_focused_of_push(front, last);
        assert(front.push(last) =~= windows);
        if takes_part(last, workspace_id, Seq::empty()) || last.is_focused {
            lemma_first_focused_of_push(kept, last);
            assert(bearing(windows, workspace_id) == kept.push(last));
            assert(kept.push(last).drop_last() =~= kept);
        }
    }
}

/// The master stack does not depend on windows elsewhere that do not have the
/// focus: with them off the list it is the same.
pub proof fn stack_ignores_windows_elsewhere(windows: Seq<Window>, workspace_id: u64)
    ensures
        master_stack_actions(bearing(windows, workspace_id), workspace_id) == master_stack_actions(
            windows,
            workspace_id,
        ),
{
    let kept = bearing(windows, workspace_id);
    let tiles = tiles_in_reading_order(windows, workspace_id);
    lemma_bearing(windows, workspace_id);
    assert(focus_actions(kept, tiles) == focus_actions(windows, tiles));
}

/// An equal grid does not depend on windows elsewhere: with them off the list its
/// columns, widths, requests and font size are the same.
pub proof fn grid_ignores_windows_elsewhere(
    windows: Seq<Window>,
    workspace_id: u64,
    usable_width: int,
    usable_height: int,
    gap: int,
)
    ensures
        ({
            let kept = bearing(windows, workspace_id);
            let p = grid_plan(kept, workspace_id, usable_width, gap);
            let q = grid_plan(windows, workspace_id, usable_width, gap);
            &&& p.columns == q.columns
            &&& p.widths == q.widths
            &&& p.actions == q.actions
            &&& p.font_size == q.font_size
            &&& grid_plan_2d(kept, workspace_id, usable_width, usable_height, gap).actions
                == grid_plan_2d(windows, workspace_id, usable_width, usable_height, gap).actions
        }),
{
    lemma_bearing(windows, workspace_id);
}

} // verus!
