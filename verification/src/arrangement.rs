//! Arrangements: the tiled windows of a workspace column by column, as the user
//! sees them, and what reading the windows of a workspace makes of them.

use vstd::prelude::*;

verus! {

use crate::layout::{
    column_at,
    column_indices,
    columns_are_exact,
    listed_columns_have_tiles,
    members,
    rising,
    takes_part,
    tile_of,
    tiles_come_from_windows,
    tiles_of,
    ColumnView,
};
use crate::grid::workspace_columns;
use crate::master_stack::{stacked, tiles_in_reading_order};
use crate::model::{Tile, Window};
use crate::order::{
    precedes,
    sort_tiles,
    sorting_keeps_members,
    sorting_orders,
    sorting_permutes,
    TileOrder,
};
use crate::steady::lemma_one_rising_row;

/// The window is tiled on the workspace: it belongs there, does not float, and
/// has a place.
pub open spec fn tiled_here(window: Window, workspace_id: u64) -> bool {
    &&& window.workspace_id == Some(workspace_id)
    &&& !window.is_floating
    &&& window.pos_in_scrolling_layout is Some
}

/// The column in which a window stands.
pub open spec fn column_number(window: Window) -> usize {
    (window.pos_in_scrolling_layout->0).0
}

/// The row in which a window stands.
pub open spec fn row_number(window: Window) -> usize {
    (window.pos_in_scrolling_layout->0).1
}

/// Columns of windows that stand from left to right, each from the top down.
pub open spec fn well_placed(shape: Seq<Seq<Window>>) -> bool {
    &&& forall|c: int| 0 <= c < shape.len() ==> (#[trigger] shape[c]).len() > 0
    &&& forall|c: int, r: int|
        0 <= c < shape.len() && 0 <= r < shape[c].len() ==> column_number(
            #[trigger] shape[c][r],
        ) == column_number(shape[c][0])
    &&& forall|c: int, d: int|
        0 <= c < d < shape.len() ==> column_number(#[trigger] shape[c][0]) < column_number(
            #[trigger] shape[d][0],
        )
    &&& forall|c: int, r: int, q: int|
        0 <= c < shape.len() && 0 <= r < q < shape[c].len() ==> row_number(#[trigger] shape[c][r])
            < row_number(#[trigger] shape[c][q])
}

/// The window stands somewhere in the shape.
pub open spec fn stands_in(shape: Seq<Seq<Window>>, window: Window) -> bool {
    exists|c: int, r: int|
        0 <= c < shape.len() && 0 <= r < shape[c].len() && #[trigger] shape[c][r] == window
}

/// `shape` is how the tiled windows of the workspace stand: every one of them,
/// and nothing else, at the place that it has.
pub open spec fn lined_up(windows: Seq<Window>, workspace_id: u64, shape: Seq<Seq<Window>>) -> bool {
    &&& well_placed(shape)
    &&& forall|c: int, r: int|
        0 <= c < shape.len() && 0 <= r < shape[c].len() ==> tiled_here(
            #[trigger] shape[c][r],
            workspace_id,
        ) && windows.contains(shape[c][r])
    &&& forall|i: int|
        0 <= i < windows.len() && tiled_here(#[trigger] windows[i], workspace_id) ==> stands_in(
            shape,
            windows[i],
        )
    &&& forall|i: int, j: int|
        0 <= i < j < windows.len() && tiled_here(#[trigger] windows[i], workspace_id)
            && tiled_here(#[trigger] windows[j], workspace_id) ==> windows[i] != windows[j]
}

/// The windows of a shape in reading order.
pub open spec fn reading(shape: Seq<Seq<Window>>) -> Seq<Window> {
    shape.flatten()
}

/// The ids of windows.
pub open spec fn ids(windows: Seq<Window>) -> Seq<u64> {
    windows.map_values(|w: Window| w.id)
}

/// Each tile has to stand before those that come later.
spec fn strictly(order: TileOrder, row: Seq<Tile>) -> bool {
    forall|i: int, j: int|
        0 <= i < j < row.len() ==> precedes(order, #[trigger] row[i], #[trigger] row[j])
}

proof fn lemma_one_strict_row(order: TileOrder, s: Seq<Tile>, t: Seq<Tile>)
    requires
        strictly(order, s),
        strictly(order, t),
        forall|x: Tile| #[trigger] s.contains(x) <==> t.contains(x),
    ensures
        s == t,
    decreases s.len(),
{
    if s.len() > 0 && t.len() > 0 {
        let x = s.last();
        let y = t.last();
        assert(s.contains(x));
        assert(t.contains(x));
        assert(t.contains(y));
        assert(s.contains(y));
        let i = choose|i: int| 0 <= i < s.len() && s[i] == y;
        let j = choose|j: int| 0 <= j < t.len() && t[j] == x;
        assert(i < s.len() - 1 ==> precedes(order, s[i], s[s.len() - 1]));
        assert(j < t.len() - 1 ==> precedes(order, t[j], t[t.len() - 1]));
        assert(x == y);
        let a = s.drop_last();
        let b = t.drop_last();
        assert forall|z: Tile| #[trigger] a.contains(z) <==> b.contains(z) by {
            if a.contains(z) {
                let k = choose|k: int| 0 <= k < a.len() && a[k] == z;
                assert(s[k] == z);
                assert(precedes(order, s[k], s[s.len() - 1]));
                assert(s.contains(z));
                assert(t.contains(z));
                let m = choose|m: int| 0 <= m < t.len() && t[m] == z;
                assert(b[m] == z);
            }
            if b.contains(z) {
                let k = choose|k: int| 0 <= k < b.len() && b[k] == z;
                assert(t[k] == z);
                assert(precedes(order, t[k], t[t.len() - 1]));
                assert(t.contains(z));
                assert(s.contains(z));
                let m = choose|m: int| 0 <= m < s.len() && s[m] == z;
                assert(a[m] == z);
            }
        }
        lemma_one_strict_row(order, a, b);
        assert(a.push(x) =~= s);
        assert(b.push(y) =~= t);
    } else if s.len() > 0 {
        assert(s.contains(s[0]));
        assert(t.contains(s[0]));
    } else if t.len() > 0 {
        assert(t.contains(t[0]));
        assert(s.contains(t[0]));
    } else {
        assert(s =~= t);
    }
}

/// Sorting tiles that are listed once gives the row of them that is in order.
proof fn lemma_sorted_is(order: TileOrder, tiles: Seq<Tile>, row: Seq<Tile>)
    requires
        tiles.no_duplicates(),
        strictly(order, row),
        forall|x: Tile| #[trigger] tiles.contains(x) <==> row.contains(x),
    ensures
        sort_tiles(order, tiles) == row,
{
    let sorted = sort_tiles(order, tiles);
    sorting_orders(order, tiles);
    sorting_permutes(order, tiles);
    tiles.lemma_multiset_has_no_duplicates();
    sorted.lemma_multiset_has_no_duplicates_conv();
    assert forall|x: Tile| #[trigger] sorted.contains(x) <==> row.contains(x) by {
        sorting_keeps_members(order, tiles, x);
        assert(tiles.contains(x) <==> row.contains(x));
    }
    assert forall|i: int, j: int| 0 <= i < j < sorted.len() implies precedes(
        order,
        #[trigger] sorted[i],
        #[trigger] sorted[j],
    ) by {
        assert(sorted.contains(sorted[i]) && sorted.contains(sorted[j]));
        let k = choose|k: int| 0 <= k < row.len() && row[k] == sorted[i];
        let m = choose|m: int| 0 <= m < row.len() && row[m] == sorted[j];
        assert(sorted[i] != sorted[j]);
        assert(k < m ==> precedes(order, row[k], row[m]));
        assert(m < k ==> precedes(order, row[m], row[k]));
        assert(!precedes(order, sorted[j], sorted[i]));
    }
    lemma_one_strict_row(order, sorted, row);
}

/// The tiles of windows.
spec fn tiles_for(windows: Seq<Window>) -> Seq<Tile> {
    windows.map_values(|w: Window| tile_of(w))
}

/// What takes part is what is tiled.
proof fn lemma_takes_part(window: Window, workspace_id: u64)
    ensures
        takes_part(window, workspace_id, Seq::empty()) <==> tiled_here(window, workspace_id),
{
}

/// Two windows of a shape at one place are one window.
proof fn lemma_one_per_place(shape: Seq<Seq<Window>>, a: Window, b: Window)
    requires
        well_placed(shape),
        stands_in(shape, a),
        stands_in(shape, b),
        column_number(a) == column_number(b),
        row_number(a) == row_number(b),
    ensures
        a == b,
{
    let (c, r) = choose|c: int, r: int|
        0 <= c < shape.len() && 0 <= r < shape[c].len() && #[trigger] shape[c][r] == a;
    let (d, q) = choose|c: int, r: int|
        0 <= c < shape.len() && 0 <= r < shape[c].len() && #[trigger] shape[c][r] == b;
    assert(column_number(shape[c][r]) == column_number(shape[c][0]));
    assert(column_number(shape[d][q]) == column_number(shape[d][0]));
    if c < d {
        assert(column_number(shape[c][0]) < column_number(shape[d][0]));
    } else if d < c {
        assert(column_number(shape[d][0]) < column_number(shape[c][0]));
    } else if r < q {
        assert(row_number(shape[c][r]) < row_number(shape[c][q]));
    } else if q < r {
        assert(row_number(shape[c][q]) < row_number(shape[c][r]));
    }
}

/// The tiles of the workspace are listed once, and are those of the shape.
proof fn lemma_tiles(windows: Seq<Window>, workspace_id: u64, shape: Seq<Seq<Window>>)
    requires
        lined_up(windows, workspace_id, shape),
    ensures
        tiles_of(windows, workspace_id, Seq::empty()).no_duplicates(),
        forall|x: Tile| #[trigger]
            tiles_of(windows, workspace_id, Seq::empty()).contains(x) <==> exists|w: Window| #[trigger]
                stands_in(shape, w) && tile_of(w) == x,
{
    let tiles = tiles_of(windows, workspace_id, Seq::empty());
    assert forall|i: int, j: int|
        0 <= i < j < windows.len() && takes_part(
            #[trigger] windows[i],
            workspace_id,
            Seq::empty(),
        ) && takes_part(#[trigger] windows[j], workspace_id, Seq::empty()) implies tile_of(
        windows[i],
    ) != tile_of(windows[j]) by {
        lemma_takes_part(windows[i], workspace_id);
        lemma_takes_part(windows[j], workspace_id);
        if tile_of(windows[i]) == tile_of(windows[j]) {
            lemma_one_per_place(shape, windows[i], windows[j]);
        }
    }
    lemma_tiles_once(windows, workspace_id);
    assert forall|x: Tile| #[trigger] tiles.contains(x) <==> exists|w: Window| #[trigger]
        stands_in(shape, w) && tile_of(w) == x by {
        tiles_come_from_windows(windows, workspace_id, Seq::empty(), x);
        if tiles.contains(x) {
            let i = choose|i: int|
                0 <= i < windows.len() && takes_part(
                    #[trigger] windows[i],
                    workspace_id,
                    Seq::empty(),
                ) && tile_of(windows[i]) == x;
            lemma_takes_part(windows[i], workspace_id);
            assert(stands_in(shape, windows[i]));
        }
        if exists|w: Window| #[trigger] stands_in(shape, w) && tile_of(w) == x {
            let w = choose|w: Window| #[trigger] stands_in(shape, w) && tile_of(w) == x;
            let (c, r) = choose|c: int, r: int|
                0 <= c < shape.len() && 0 <= r < shape[c].len() && #[trigger] shape[c][r] == w;
            assert(tiled_here(shape[c][r], workspace_id) && windows.contains(shape[c][r]));
            let i = choose|i: int| 0 <= i < windows.len() && windows[i] == w;
            lemma_takes_part(windows[i], workspace_id);
        }
    }
}

proof fn lemma_tiles_once(windows: Seq<Window>, workspace_id: u64)
    requires
        forall|i: int, j: int|
            0 <= i < j < windows.len() && takes_part(
                #[trigger] windows[i],
                workspace_id,
                Seq::empty(),
            ) && takes_part(#[trigger] windows[j], workspace_id, Seq::empty()) ==> tile_of(
                windows[i],
            ) != tile_of(windows[j]),
    ensures
        tiles_of(windows, workspace_id, Seq::empty()).no_duplicates(),
    decreases windows.len(),
{
    let none = Seq::<Seq<char>>::empty();
    if windows.len() > 0 {
        let front = windows.drop_last();
        let last = windows.last();
        assert forall|i: int, j: int|
            0 <= i < j < front.len() && takes_part(#[trigger] front[i], workspace_id, none)
                && takes_part(#[trigger] front[j], workspace_id, none) implies tile_of(front[i])
            != tile_of(front[j]) by {
            assert(front[i] == windows[i] && front[j] == windows[j]);
        }
        lemma_tiles_once(front, workspace_id);
        if takes_part(last, workspace_id, none) {
            tiles_come_from_windows(front, workspace_id, none, tile_of(last));
            let before = tiles_of(front, workspace_id, none);
            if before.contains(tile_of(last)) {
                let i = choose|i: int|
                    0 <= i < front.len() && takes_part(#[trigger] front[i], workspace_id, none)
                        && tile_of(front[i]) == tile_of(last);
                assert(front[i] == windows[i]);
                assert(windows[windows.len() - 1] == last);
            }
            let all = before.push(tile_of(last));
            assert forall|i: int, j: int|
                0 <= i < all.len() && 0 <= j < all.len() && i != j implies all[i] != all[j] by {
                if i == before.len() {
                    assert(before.contains(all[j]));
                } else if j == before.len() {
                    assert(before.contains(all[i]));
                } else {
                    assert(all[i] == before[i] && all[j] == before[j]);
                }
            }
        }
    }
}

/// A shape is read column by column.
proof fn lemma_reading_back(shape: Seq<Seq<Window>>)
    requires
        shape.len() > 0,
    ensures
        reading(shape) == reading(shape.drop_last()) + shape.last(),
{
    shape.drop_last().lemma_flatten_push(shape.last());
    assert(shape.drop_last().push(shape.last()) =~= shape);
}

proof fn lemma_front_is_well_placed(shape: Seq<Seq<Window>>)
    requires
        well_placed(shape),
        shape.len() > 0,
    ensures
        well_placed(shape.drop_last()),
        forall|w: Window| #[trigger] stands_in(shape, w) <==> stands_in(shape.drop_last(), w)
            || shape.last().contains(w),
        forall|w: Window| #[trigger] stands_in(shape.drop_last(), w) ==> column_number(w)
            < column_number(shape.last()[0]),
        forall|r: int| 0 <= r < shape.last().len() ==> column_number(#[trigger] shape.last()[r])
            == column_number(shape.last()[0]),
        forall|r: int, q: int|
            0 <= r < q < shape.last().len() ==> row_number(#[trigger] shape.last()[r])
                < row_number(#[trigger] shape.last()[q]),
{
    let front = shape.drop_last();
    let last = shape.last();
    let n = shape.len() - 1;
    assert(forall|c: int| 0 <= c < n ==> #[trigger] front[c] == shape[c]);
    assert(shape[n] == last);
    assert forall|w: Window| #[trigger] stands_in(shape, w) <==> stands_in(front, w)
        || last.contains(w) by {
        if stands_in(shape, w) {
            let (c, r) = choose|c: int, r: int|
                0 <= c < shape.len() && 0 <= r < shape[c].len() && #[trigger] shape[c][r] == w;
            if c < n {
                assert(front[c][r] == w);
            } else {
                assert(last[r] == w);
            }
        }
        if stands_in(front, w) {
            let (c, r) = choose|c: int, r: int|
                0 <= c < front.len() && 0 <= r < front[c].len() && #[trigger] front[c][r] == w;
            assert(shape[c][r] == w);
        }
        if last.contains(w) {
            let r = choose|r: int| 0 <= r < last.len() && last[r] == w;
            assert(shape[n][r] == w);
        }
    }
    assert forall|w: Window| #[trigger] stands_in(front, w) implies column_number(w)
        < column_number(last[0]) by {
        let (c, r) = choose|c: int, r: int|
            0 <= c < front.len() && 0 <= r < front[c].len() && #[trigger] front[c][r] == w;
        assert(column_number(shape[c][r]) == column_number(shape[c][0]));
        assert(column_number(shape[c][0]) < column_number(shape[n][0]));
    }
    assert forall|r: int| 0 <= r < last.len() implies column_number(#[trigger] last[r])
        == column_number(last[0]) by {
        assert(column_number(shape[n][r]) == column_number(shape[n][0]));
    }
    assert forall|r: int, q: int| 0 <= r < q < last.len() implies row_number(#[trigger] last[r])
        < row_number(#[trigger] last[q]) by {
        assert(row_number(shape[n][r]) < row_number(shape[n][q]));
    }
    assert forall|c: int, r: int|
        0 <= c < front.len() && 0 <= r < front[c].len() implies column_number(
        #[trigger] front[c][r],
    ) == column_number(front[c][0]) by {
        assert(column_number(shape[c][r]) == column_number(shape[c][0]));
    }
    assert forall|c: int, d: int| 0 <= c < d < front.len() implies column_number(
        #[trigger] front[c][0],
    ) < column_number(#[trigger] front[d][0]) by {
        assert(column_number(shape[c][0]) < column_number(shape[d][0]));
    }
    assert forall|c: int, r: int, q: int|
        0 <= c < front.len() && 0 <= r < q < front[c].len() implies row_number(
        #[trigger] front[c][r],
    ) < row_number(#[trigger] front[c][q]) by {
        assert(row_number(shape[c][r]) < row_number(shape[c][q]));
    }
    assert forall|c: int| 0 <= c < front.len() implies (#[trigger] front[c]).len() > 0 by {
        assert(shape[c].len() > 0);
    }
}

/// Reading meets every window of the shape, from left to right and from the top
/// down.
proof fn lemma_reading(shape: Seq<Seq<Window>>)
    requires
        well_placed(shape),
    ensures
        forall|w: Window| #[trigger] reading(shape).contains(w) <==> stands_in(shape, w),
        strictly(TileOrder::Position, tiles_for(reading(shape))),
    decreases shape.len(),
{
    let all = reading(shape);
    if shape.len() > 0 {
        let front = shape.drop_last();
        let last = shape.last();
        let before = reading(front);
        lemma_front_is_well_placed(shape);
        lemma_reading(front);
        lemma_reading_back(shape);
        assert forall|w: Window| #[trigger] all.contains(w) <==> stands_in(shape, w) by {
            if all.contains(w) {
                let k = choose|k: int| 0 <= k < all.len() && all[k] == w;
                if k < before.len() {
                    assert(before[k] == w);
                    assert(before.contains(w));
                } else {
                    assert(last[k - before.len()] == w);
                }
            }
            if stands_in(shape, w) {
                if stands_in(front, w) {
                    assert(before.contains(w));
                    let k = choose|k: int| 0 <= k < before.len() && before[k] == w;
                    assert(all[k] == w);
                } else {
                    let k = choose|k: int| 0 <= k < last.len() && last[k] == w;
                    assert(all[before.len() + k] == w);
                }
            }
        }
        let tiles = tiles_for(all);
        assert forall|i: int, j: int| 0 <= i < j < tiles.len() implies precedes(
            TileOrder::Position,
            #[trigger] tiles[i],
            #[trigger] tiles[j],
        ) by {
            if j < before.len() {
                assert(tiles_for(before)[i] == tiles[i]);
                assert(tiles_for(before)[j] == tiles[j]);
            } else if i < before.len() {
                assert(before.contains(before[i]));
                assert(all[i] == before[i]);
                assert(all[j] == last[j - before.len()]);
            } else {
                assert(all[i] == last[i - before.len()]);
                assert(all[j] == last[j - before.len()]);
            }
        }
    } else {
        assert(all =~= Seq::<Window>::empty());
        assert forall|w: Window| #[trigger] all.contains(w) <==> stands_in(shape, w) by {}
    }
}

/// The tiles of the workspace in reading order are those of the shape.
pub(crate) proof fn lemma_reading_order(
    windows: Seq<Window>,
    workspace_id: u64,
    shape: Seq<Seq<Window>>,
)
    requires
        lined_up(windows, workspace_id, shape),
    ensures
        tiles_in_reading_order(windows, workspace_id).len() == reading(shape).len(),
        forall|i: int|
            0 <= i < reading(shape).len() ==> #[trigger] tiles_in_reading_order(
                windows,
                workspace_id,
            )[i] == tile_of(reading(shape)[i]),
{
    let tiles = tiles_of(windows, workspace_id, Seq::empty());
    let all = reading(shape);
    let row = tiles_for(all);
    lemma_tiles(windows, workspace_id, shape);
    lemma_reading(shape);
    assert forall|x: Tile| #[trigger] tiles.contains(x) <==> row.contains(x) by {
        if tiles.contains(x) {
            let w = choose|w: Window| #[trigger] stands_in(shape, w) && tile_of(w) == x;
            assert(all.contains(w));
            let k = choose|k: int| 0 <= k < all.len() && all[k] == w;
            assert(row[k] == x);
        }
        if row.contains(x) {
            let k = choose|k: int| 0 <= k < row.len() && row[k] == x;
            assert(all.contains(all[k]));
            assert(stands_in(shape, all[k]));
        }
    }
    lemma_sorted_is(TileOrder::Position, tiles, row);
}

/// The number of each column of a shape.
spec fn numbers(shape: Seq<Seq<Window>>) -> Seq<usize> {
    shape.map_values(|column: Seq<Window>| column_number(column[0]))
}

/// The columns of a workspace are what the user sees: from left to right, each
/// with its number, the ids and heights of its windows from the top down, and the
/// id and the width of the topmost one.
pub proof fn columns_are_what_is_seen(
    windows: Seq<Window>,
    workspace_id: u64,
    shape: Seq<Seq<Window>>,
)
    requires
        lined_up(windows, workspace_id, shape),
    ensures
        workspace_columns(windows, workspace_id).len() == shape.len(),
        forall|c: int|
            0 <= c < shape.len() ==> #[trigger] workspace_columns(windows, workspace_id)[c] == (
            ColumnView {
                column_index: column_number(shape[c][0]),
                lead_window_id: shape[c][0].id,
                window_ids: ids(shape[c]),
                original_pixel_width: shape[c][0].tile_size.0,
                window_heights: shape[c].map_values(|w: Window| w.tile_size.1),
            }),
{
    let tiles = tiles_of(windows, workspace_id, Seq::empty());
    let columns = workspace_columns(windows, workspace_id);
    let wanted = numbers(shape);
    lemma_tiles(windows, workspace_id, shape);
    columns_are_exact(tiles);
    assert(rising(wanted)) by {
        assert forall|i: int, j: int| 0 <= i < j < wanted.len() implies wanted[i] < wanted[j] by {
            assert(column_number(shape[i][0]) < column_number(shape[j][0]));
        }
    }
    assert forall|x: usize| #[trigger] column_indices(tiles).contains(x) <==> wanted.contains(x) by {
        if column_indices(tiles).contains(x) {
            let i = choose|i: int| 0 <= i < tiles.len() && (#[trigger] tiles[i]).column == x;
            assert(tiles.contains(tiles[i]));
            let w = choose|w: Window| #[trigger] stands_in(shape, w) && tile_of(w) == tiles[i];
            let (c, r) = choose|c: int, r: int|
                0 <= c < shape.len() && 0 <= r < shape[c].len() && #[trigger] shape[c][r] == w;
            assert(column_number(shape[c][r]) == column_number(shape[c][0]));
            assert(wanted[c] == x);
        }
        if wanted.contains(x) {
            let c = choose|c: int| 0 <= c < wanted.len() && wanted[c] == x;
            let w = shape[c][0];
            assert(shape[c].len() > 0);
            assert(stands_in(shape, w));
            assert(tiles.contains(tile_of(w)));
            let i = choose|i: int| 0 <= i < tiles.len() && tiles[i] == tile_of(w);
            assert(tiles[i].column == x);
        }
    }
    lemma_one_rising_row(column_indices(tiles), wanted);
    assert forall|c: int| 0 <= c < shape.len() implies #[trigger] columns[c] == (ColumnView {
        column_index: column_number(shape[c][0]),
        lead_window_id: shape[c][0].id,
        window_ids: ids(shape[c]),
        original_pixel_width: shape[c][0].tile_size.0,
        window_heights: shape[c].map_values(|w: Window| w.tile_size.1),
    }) by {
        let index = wanted[c];
        let row = tiles_for(shape[c]);
        lemma_members_are_the_column(windows, workspace_id, shape, c);
        assert(columns[c] == column_at(tiles, index));
        assert(shape[c].len() > 0);
        assert(row[0] == tile_of(shape[c][0]));
        assert(columns[c].window_ids =~= ids(shape[c]));
        assert(columns[c].window_heights =~= shape[c].map_values(|w: Window| w.tile_size.1));
    }
}

/// The members of a column, from the top down, are the windows that stand in it.
proof fn lemma_members_are_the_column(
    windows: Seq<Window>,
    workspace_id: u64,
    shape: Seq<Seq<Window>>,
    c: int,
)
    requires
        lined_up(windows, workspace_id, shape),
        0 <= c < shape.len(),
    ensures
        sort_tiles(
            TileOrder::Row,
            members(
                tiles_of(windows, workspace_id, Seq::empty()),
                column_number(shape[c][0]),
            ),
        ) == tiles_for(shape[c]),
{
    broadcast use vstd::seq_lib::group_filter_ensures;

    let tiles = tiles_of(windows, workspace_id, Seq::empty());
    let index = column_number(shape[c][0]);
    let here = |t: Tile| t.column == index;
    let found = members(tiles, index);
    let row = tiles_for(shape[c]);
    lemma_tiles(windows, workspace_id, shape);
    lemma_filter_once(tiles, here);
    assert forall|i: int, j: int| 0 <= i < j < row.len() implies precedes(
        TileOrder::Row,
        #[trigger] row[i],
        #[trigger] row[j],
    ) by {
        assert(row_number(shape[c][i]) < row_number(shape[c][j]));
    }
    assert forall|x: Tile| #[trigger] found.contains(x) <==> row.contains(x) by {
        if found.contains(x) {
            let k = choose|k: int| 0 <= k < found.len() && found[k] == x;
            assert(here(tiles.filter(here)[k]));
            tiles.lemma_filter_contains_rev(here, x);
            let w = choose|w: Window| #[trigger] stands_in(shape, w) && tile_of(w) == x;
            let (d, r) = choose|d: int, r: int|
                0 <= d < shape.len() && 0 <= r < shape[d].len() && #[trigger] shape[d][r] == w;
            assert(column_number(shape[d][r]) == column_number(shape[d][0]));
            if c < d {
                assert(column_number(shape[c][0]) < column_number(shape[d][0]));
            } else if d < c {
                assert(column_number(shape[d][0]) < column_number(shape[c][0]));
            }
            assert(row[r] == x);
        }
        if row.contains(x) {
            let r = choose|r: int| 0 <= r < row.len() && row[r] == x;
            let w = shape[c][r];
            assert(column_number(shape[c][r]) == column_number(shape[c][0]));
            assert(stands_in(shape, w));
            assert(tiles.contains(x));
            assert(here(x));
        }
    }
    lemma_sorted_is(TileOrder::Row, found, row);
}

/// Filtering lists nothing twice that was listed once.
proof fn lemma_filter_once(tiles: Seq<Tile>, keep: spec_fn(Tile) -> bool)
    requires
        tiles.no_duplicates(),
    ensures
        tiles.filter(keep).no_duplicates(),
    decreases tiles.len(),
{
    reveal(Seq::filter);
    if tiles.len() > 0 {
        let front = tiles.drop_last();
        let last = tiles.last();
        let before = front.filter(keep);
        lemma_filter_once(front, keep);
        if keep(last) {
            if before.contains(last) {
                front.lemma_filter_contains_rev(keep, last);
                let k = choose|k: int| 0 <= k < front.len() && front[k] == last;
                assert(tiles[k] == last);
            }
            let all = before.push(last);
            assert forall|i: int, j: int|
                0 <= i < all.len() && 0 <= j < all.len() && i != j implies all[i] != all[j] by {
                if i == before.len() {
                    assert(before.contains(all[j]));
                } else if j == before.len() {
                    assert(before.contains(all[i]));
                }
            }
        }
    }
}

/// The windows of a shape that stand below another, column by column, each column
/// from its bottom upwards.
pub open spec fn lower_ones(shape: Seq<Seq<Window>>) -> Seq<Window>
    decreases shape.len(),
{
    if shape.len() == 0 {
        Seq::empty()
    } else {
        lower_ones(shape.drop_last()) + shape.last().skip(1).reverse()
    }
}

/// The topmost window of every column stands in the first row.
pub open spec fn begins_at_the_top(shape: Seq<Seq<Window>>) -> bool {
    forall|c: int| 0 <= c < shape.len() ==> row_number(#[trigger] shape[c][0]) == 1
}

proof fn lemma_lower_ones(shape: Seq<Seq<Window>>)
    requires
        well_placed(shape),
        begins_at_the_top(shape),
    ensures
        forall|w: Window| #[trigger]
            lower_ones(shape).contains(w) <==> stands_in(shape, w) && row_number(w) > 1,
        strictly(TileOrder::Unstack, tiles_for(lower_ones(shape))),
    decreases shape.len(),
{
    let all = lower_ones(shape);
    if shape.len() > 0 {
        let front = shape.drop_last();
        let last = shape.last();
        let before = lower_ones(front);
        let low = last.skip(1).reverse();
        let n = shape.len() - 1;
        lemma_front_is_well_placed(shape);
        assert forall|c: int| 0 <= c < front.len() implies row_number(#[trigger] front[c][0])
            == 1 by {
            assert(row_number(shape[c][0]) == 1);
        }
        lemma_lower_ones(front);
        assert(row_number(shape[n][0]) == 1);
        assert(shape[n].len() > 0);
        assert forall|k: int| 0 <= k < low.len() implies #[trigger] low[k] == last[last.len() - 1
            - k] by {}
        assert forall|w: Window| #[trigger] all.contains(w) <==> stands_in(shape, w)
            && row_number(w) > 1 by {
            if all.contains(w) {
                let k = choose|k: int| 0 <= k < all.len() && all[k] == w;
                if k < before.len() {
                    assert(before[k] == w);
                    assert(before.contains(w));
                } else {
                    let j = k - before.len();
                    let r = last.len() - 1 - j;
                    assert(low[j] == w);
                    assert(last[r] == w);
                    assert(last.contains(w));
                    assert(row_number(last[0]) < row_number(last[r]));
                }
            }
            if stands_in(shape, w) && row_number(w) > 1 {
                if stands_in(front, w) {
                    assert(before.contains(w));
                    let k = choose|k: int| 0 <= k < before.len() && before[k] == w;
                    assert(all[k] == w);
                } else {
                    let r = choose|r: int| 0 <= r < last.len() && last[r] == w;
                    let j = last.len() - 1 - r;
                    assert(low[j] == w);
                    assert(all[before.len() + j] == w);
                }
            }
        }
        let tiles = tiles_for(all);
        assert forall|i: int, j: int| 0 <= i < j < tiles.len() implies precedes(
            TileOrder::Unstack,
            #[trigger] tiles[i],
            #[trigger] tiles[j],
        ) by {
            if j < before.len() {
                assert(tiles_for(before)[i] == tiles[i]);
                assert(tiles_for(before)[j] == tiles[j]);
            } else {
                let q = last.len() - 1 - (j - before.len());
                assert(all[j] == low[j - before.len()]);
                assert(all[j] == last[q]);
                if i < before.len() {
                    assert(before.contains(before[i]));
                    assert(all[i] == before[i]);
                } else {
                    let p = last.len() - 1 - (i - before.len());
                    assert(all[i] == low[i - before.len()]);
                    assert(all[i] == last[p]);
                    assert(row_number(last[q]) < row_number(last[p]));
                }
            }
        }
    } else {
        assert forall|w: Window| #[trigger] all.contains(w) <==> stands_in(shape, w)
            && row_number(w) > 1 by {}
    }
}

/// The tiles that are taken out of their columns are those that stand below
/// another.
pub(crate) proof fn lemma_stacked(windows: Seq<Window>, workspace_id: u64, shape: Seq<Seq<Window>>)
    requires
        lined_up(windows, workspace_id, shape),
        begins_at_the_top(shape),
    ensures
        stacked(tiles_in_reading_order(windows, workspace_id)) == lower_ones(shape).map_values(
            |w: Window| tile_of(w),
        ),
{
    broadcast use vstd::seq_lib::group_filter_ensures;

    let tiles = tiles_in_reading_order(windows, workspace_id);
    let listed = tiles_of(windows, workspace_id, Seq::empty());
    let below = |t: Tile| t.row > 1;
    let low = tiles.filter(below);
    let all = lower_ones(shape);
    let row = tiles_for(all);
    lemma_tiles(windows, workspace_id, shape);
    lemma_lower_ones(shape);
    sorting_permutes(TileOrder::Position, listed);
    listed.lemma_multiset_has_no_duplicates();
    tiles.lemma_multiset_has_no_duplicates_conv();
    lemma_filter_once(tiles, below);
    assert forall|x: Tile| #[trigger] low.contains(x) <==> row.contains(x) by {
        sorting_keeps_members(TileOrder::Position, listed, x);
        if low.contains(x) {
            let k = choose|k: int| 0 <= k < low.len() && low[k] == x;
            assert(below(tiles.filter(below)[k]));
            tiles.lemma_filter_contains_rev(below, x);
            assert(listed.contains(x));
            let w = choose|w: Window| #[trigger] stands_in(shape, w) && tile_of(w) == x;
            assert(all.contains(w));
            let m = choose|m: int| 0 <= m < all.len() && all[m] == w;
            assert(row[m] == x);
        }
        if row.contains(x) {
            let m = choose|m: int| 0 <= m < row.len() && row[m] == x;
            assert(all.contains(all[m]));
            assert(stands_in(shape, all[m]));
            assert(listed.contains(x));
            assert(tiles.contains(x));
            assert(below(x));
        }
    }
    lemma_sorted_is(TileOrder::Unstack, low, row);
}

/// A window of the list that is tiled on the workspace and has this tile.
spec fn window_of(windows: Seq<Window>, workspace_id: u64, tile: Tile) -> Window {
    choose|w: Window| #[trigger]
        windows.contains(w) && tiled_here(w, workspace_id) && tile_of(w) == tile
}

/// The tiled windows of a workspace always line up in some way, where no two of
/// them are at one place.
pub proof fn tiled_windows_line_up(windows: Seq<Window>, workspace_id: u64) -> (shape: Seq<
    Seq<Window>,
>)
    requires
        forall|i: int, j: int|
            0 <= i < j < windows.len() && tiled_here(#[trigger] windows[i], workspace_id)
                && tiled_here(#[trigger] windows[j], workspace_id)
                ==> windows[i].pos_in_scrolling_layout != windows[j].pos_in_scrolling_layout,
    ensures
        lined_up(windows, workspace_id, shape),
{
    broadcast use vstd::seq_lib::group_filter_ensures;

    let none = Seq::<Seq<char>>::empty();
    let tiles = tiles_of(windows, workspace_id, none);
    let numbers = column_indices(tiles);
    let find = |t: Tile| window_of(windows, workspace_id, t);
    let stack = |index: usize| sort_tiles(TileOrder::Row, members(tiles, index));
    let shape = numbers.map_values(|index: usize| stack(index).map_values(find));
    assert forall|i: int, j: int|
        0 <= i < j < windows.len() && takes_part(#[trigger] windows[i], workspace_id, none)
            && takes_part(#[trigger] windows[j], workspace_id, none) implies tile_of(windows[i])
        != tile_of(windows[j]) by {
        lemma_takes_part(windows[i], workspace_id);
        lemma_takes_part(windows[j], workspace_id);
    }
    lemma_tiles_once(windows, workspace_id);
    columns_are_exact(tiles);
    assert forall|t: Tile| #[trigger] tiles.contains(t) implies windows.contains(find(t))
        && tiled_here(find(t), workspace_id) && tile_of(find(t)) == t by {
        tiles_come_from_windows(windows, workspace_id, none, t);
        let i = choose|i: int|
            0 <= i < windows.len() && takes_part(#[trigger] windows[i], workspace_id, none)
                && tile_of(windows[i]) == t;
        lemma_takes_part(windows[i], workspace_id);
        assert(windows.contains(windows[i]));
    }
    assert forall|c: int, r: int| 0 <= c < shape.len() && 0 <= r < shape[c].len() implies {
        let t = stack(numbers[c])[r];
        &&& #[trigger] shape[c][r] == find(t)
        &&& tiles.contains(t)
        &&& t.column == numbers[c]
    } by {
        let index = numbers[c];
        let here = |t: Tile| t.column == index;
        let t = stack(index)[r];
        assert(stack(index).contains(t));
        sorting_keeps_members(TileOrder::Row, members(tiles, index), t);
        tiles.lemma_filter_contains_rev(here, t);
        let k = choose|k: int| 0 <= k < members(tiles, index).len() && members(tiles, index)[k] == t;
        assert(here(tiles.filter(here)[k]));
    }
    assert forall|c: int| 0 <= c < shape.len() implies (#[trigger] shape[c]).len() > 0 by {
        let index = numbers[c];
        assert(numbers.contains(index));
        listed_columns_have_tiles(tiles, index);
        sorting_permutes(TileOrder::Row, members(tiles, index));
    }
    assert forall|c: int, r: int| 0 <= c < shape.len() && 0 <= r < shape[c].len() implies
        column_number(#[trigger] shape[c][r]) == column_number(shape[c][0]) by {
        assert(shape[c].len() > 0);
        assert(shape[c][0] == find(stack(numbers[c])[0]));
    }
    assert forall|c: int, d: int| 0 <= c < d < shape.len() implies column_number(
        #[trigger] shape[c][0],
    ) < column_number(#[trigger] shape[d][0]) by {
        assert(shape[c].len() > 0 && shape[d].len() > 0);
        assert(shape[c][0] == find(stack(numbers[c])[0]));
        assert(shape[d][0] == find(stack(numbers[d])[0]));
        assert(numbers[c] < numbers[d]);
    }
    assert forall|c: int, r: int, q: int|
        0 <= c < shape.len() && 0 <= r < q < shape[c].len() implies row_number(
        #[trigger] shape[c][r],
    ) < row_number(#[trigger] shape[c][q]) by {
        let index = numbers[c];
        let here = |t: Tile| t.column == index;
        let column = stack(index);
        let found = members(tiles, index);
        assert(shape[c][r] == find(column[r]) && shape[c][q] == find(column[q]));
        sorting_orders(TileOrder::Row, found);
        lemma_filter_once(tiles, here);
        sorting_permutes(TileOrder::Row, found);
        found.lemma_multiset_has_no_duplicates();
        column.lemma_multiset_has_no_duplicates_conv();
        assert(column[r] != column[q]);
        assert(!precedes(TileOrder::Row, column[q], column[r]));
        if column[r].row == column[q].row {
            let a = shape[c][r];
            let b = shape[c][q];
            let i = choose|i: int| 0 <= i < windows.len() && windows[i] == a;
            let j = choose|j: int| 0 <= j < windows.len() && windows[j] == b;
            assert(a.pos_in_scrolling_layout == b.pos_in_scrolling_layout);
            assert(i == j);
        }
    }
    assert forall|i: int|
        0 <= i < windows.len() && tiled_here(#[trigger] windows[i], workspace_id) implies stands_in(
        shape,
        windows[i],
    ) by {
        let w = windows[i];
        let t = tile_of(w);
        lemma_takes_part(w, workspace_id);
        tiles_come_from_windows(windows, workspace_id, none, t);
        assert(tiles.contains(t));
        let k = choose|k: int| 0 <= k < tiles.len() && tiles[k] == t;
        assert(tiles[k].column == t.column);
        assert(numbers.contains(t.column));
        let c = choose|c: int| 0 <= c < numbers.len() && numbers[c] == t.column;
        let here = |x: Tile| x.column == t.column;
        assert(here(t));
        assert(members(tiles, t.column).contains(t));
        sorting_keeps_members(TileOrder::Row, members(tiles, t.column), t);
        let mine = stack(t.column);
        let r = choose|r: int| 0 <= r < mine.len() && mine[r] == t;
        let other = find(t);
        let j = choose|j: int| 0 <= j < windows.len() && windows[j] == other;
        assert(other.pos_in_scrolling_layout == w.pos_in_scrolling_layout);
        assert(i == j);
        assert(shape[c][r] == w);
    }
    shape
}

} // verus!
