//! Geometry: the usable area of an output, equal shares of it, and the columns
//! of a workspace.

use vstd::prelude::*;

use crate::model::{Tile, Window};
use crate::order::{sort_by_order, TileOrder};
use crate::text::same_ignoring_case;

verus! {

use crate::order::{in_order, insert_tile, precedes, sort_tiles, sorting_orders, sorting_permutes};
use crate::text::{lowered, views};

pub const DEFAULT_GAP: i32 = 10;

pub const DEFAULT_STRUT_LEFT: i32 = 28;

pub const DEFAULT_STRUT_RIGHT: i32 = 0;

pub const DEFAULT_STRUT_TOP: i32 = 0;

pub const DEFAULT_STRUT_BOTTOM: i32 = 0;

// ---------------------------------------------------------------------------
// The usable area
// ---------------------------------------------------------------------------

/// What an extent leaves between two struts, never less than nothing.
pub open spec fn between_struts(extent: int, near: int, far: int) -> int {
    if extent - near - far > 0 {
        extent - near - far
    } else {
        0
    }
}

/// The subtractions of `between_struts` stay within an `i32`.
pub open spec fn struts_fit(extent: i32, near: i32, far: i32) -> bool {
    &&& i32::MIN <= extent - near <= i32::MAX
    &&& i32::MIN <= extent - near - far <= i32::MAX
}

/// Decides whether the subtractions stay within an `i32`.
pub fn check_struts_fit(extent: i32, near: i32, far: i32) -> (fits: bool)
    ensures
        fits == struts_fit(extent, near, far),
{
    let first: i64 = extent as i64 - near as i64;
    let second: i64 = first - far as i64;
    -2147483648 <= first && first <= 2147483647 && -2147483648 <= second && second <= 2147483647
}

/// The width that the struts leave of a monitor.
pub fn calculate_usable_width(monitor_width: i32, strut_left: i32, strut_right: i32) -> (width: i32)
    requires
        struts_fit(monitor_width, strut_left, strut_right),
    ensures
        width == between_struts(monitor_width as int, strut_left as int, strut_right as int),
{
    let left: i32 = monitor_width - strut_left - strut_right;
    if left > 0 {
        left
    } else {
        0
    }
}

/// The height that the struts leave of a monitor.
pub fn calculate_usable_height(monitor_height: i32, strut_top: i32, strut_bottom: i32) -> (height:
    i32)
    requires
        struts_fit(monitor_height, strut_top, strut_bottom),
    ensures
        height == between_struts(monitor_height as int, strut_top as int, strut_bottom as int),
{
    let left: i32 = monitor_height - strut_top - strut_bottom;
    if left > 0 {
        left
    } else {
        0
    }
}

/// The gap between tiles and the struts at the four edges.
#[derive(Clone, Copy, Debug, PartialEq, Eq, Structural)]
pub struct LayoutConfig {
    pub gap: i32,
    pub strut_left: i32,
    pub strut_right: i32,
    pub strut_top: i32,
    pub strut_bottom: i32,
}

/// The configuration that holds where nothing is set.
pub open spec fn default_config() -> LayoutConfig {
    LayoutConfig {
        gap: DEFAULT_GAP,
        strut_left: DEFAULT_STRUT_LEFT,
        strut_right: DEFAULT_STRUT_RIGHT,
        strut_top: DEFAULT_STRUT_TOP,
        strut_bottom: DEFAULT_STRUT_BOTTOM,
    }
}

impl Default for LayoutConfig {
    fn default() -> (config: Self)
        ensures
            config == default_config(),
    {
        LayoutConfig {
            gap: DEFAULT_GAP,
            strut_left: DEFAULT_STRUT_LEFT,
            strut_right: DEFAULT_STRUT_RIGHT,
            strut_top: DEFAULT_STRUT_TOP,
            strut_bottom: DEFAULT_STRUT_BOTTOM,
        }
    }
}

// ---------------------------------------------------------------------------
// Equal shares
// ---------------------------------------------------------------------------

/// What `count` shares and the gaps around them leave to the shares.
pub open spec fn share_space(extent: int, gap: int, count: int) -> int {
    extent - (count + 1) * gap
}

/// Share number `i` of `count` equal shares: the space is dealt out evenly and
/// what is left over goes, a pixel each, to the first shares. Where there is
/// less than a pixel for each, every share is one pixel.
pub open spec fn equal_share(extent: int, gap: int, count: int, i: int) -> int {
    let space = share_space(extent, gap, count);
    if space < count {
        1
    } else if i < space % count {
        space / count + 1
    } else {
        space / count
    }
}

/// All `count` equal shares of `extent`.
pub open spec fn equal_shares(extent: int, gap: int, count: nat) -> Seq<i32> {
    Seq::new(count, |i: int| equal_share(extent, gap, count as int, i) as i32)
}

/// The arithmetic behind `equal_shares` stays within an `i32`.
pub open spec fn shares_fit(extent: int, gap: int, count: nat) -> bool {
    count == 0 || {
        &&& count < i32::MAX
        &&& i32::MIN <= (count + 1) * gap <= i32::MAX
        &&& i32::MIN <= share_space(extent, gap, count as int) <= i32::MAX
    }
}

/// Decides whether the arithmetic stays within an `i32`.
pub fn check_shares_fit(extent: i32, gap: i32, count: usize) -> (fits: bool)
    ensures
        fits == shares_fit(extent as int, gap as int, count as nat),
{
    if count == 0 {
        return true;
    }
    if count >= 2147483647 {
        return false;
    }
    let gaps: i64 = count as i64 + 1;
    assert(-2147483648 * 2147483648 <= gaps * gap <= 2147483648 * 2147483648) by (nonlinear_arith)
        requires
            0 <= gaps <= 2147483648,
            -2147483648 <= gap <= 2147483647,
    ;
    let total: i64 = gaps * gap as i64;
    let space: i64 = extent as i64 - total;
    -2147483648 <= total && total <= 2147483647 && -2147483648 <= space && space <= 2147483647
}

/// Deals an extent out in equal shares.
fn deal_out(extent: i32, gap: i32, count: usize) -> (shares: Vec<i32>)
    requires
        shares_fit(extent as int, gap as int, count as nat),
    ensures
        shares@ == equal_shares(extent as int, gap as int, count as nat),
{
    let mut shares: Vec<i32> = Vec::new();
    if count == 0 {
        assert(shares@ =~= equal_shares(extent as int, gap as int, 0));
        return shares;
    }
    let n: i32 = count as i32;
    let total_gaps: i32 = (n + 1) * gap;
    let space: i32 = extent - total_gaps;
    let mut i: usize = 0;
    if space < n {
        while i < count
            invariant
                i <= count,
                space < n,
                n == count,
                space == share_space(extent as int, gap as int, count as int),
                shares@.len() == i,
                forall|k: int|
                    0 <= k < i ==> #[trigger] shares@[k] == equal_share(
                        extent as int,
                        gap as int,
                        count as int,
                        k,
                    ),
            decreases count - i,
        {
            shares.push(1);
            i = i + 1;
        }
    } else {
        let base: i32 = space / n;
        let remainder: i32 = space % n;
        proof {
            assert(base <= space) by (nonlinear_arith)
                requires
                    base == space as int / n as int,
                    n >= 1,
                    space >= 0,
            ;
            assert(remainder > 0 ==> base < space) by (nonlinear_arith)
                requires
                    base == space as int / n as int,
                    remainder == space as int % n as int,
                    n >= 1,
                    space >= 0,
            ;
        }
        while i < count
            invariant
                i <= count,
                space >= n,
                n == count,
                n >= 1,
                space == share_space(extent as int, gap as int, count as int),
                base == space as int / n as int,
                remainder == space as int % n as int,
                remainder > 0 ==> base < space,
                shares@.len() == i,
                forall|k: int|
                    0 <= k < i ==> #[trigger] shares@[k] == equal_share(
                        extent as int,
                        gap as int,
                        count as int,
                        k,
                    ),
            decreases count - i,
        {
            if (i as i32) < remainder {
                shares.push(base + 1);
            } else {
                shares.push(base);
            }
            i = i + 1;
        }
    }
    assert(shares@ =~= equal_shares(extent as int, gap as int, count as nat));
    shares
}

/// The widths of `num_columns` equal columns.
pub fn calculate_equal_column_widths(usable_width: i32, gap: i32, num_columns: usize) -> (widths:
    Vec<i32>)
    requires
        shares_fit(usable_width as int, gap as int, num_columns as nat),
    ensures
        widths@ == equal_shares(usable_width as int, gap as int, num_columns as nat),
{
    deal_out(usable_width, gap, num_columns)
}

/// The heights of `num_rows` equal rows.
pub fn calculate_equal_row_heights(usable_height: i32, gap: i32, num_rows: usize) -> (heights: Vec<
    i32,
>)
    requires
        shares_fit(usable_height as int, gap as int, num_rows as nat),
    ensures
        heights@ == equal_shares(usable_height as int, gap as int, num_rows as nat),
{
    deal_out(usable_height, gap, num_rows)
}

/// The sum of all items.
pub open spec fn total(items: Seq<i32>) -> int
    decreases items.len(),
{
    if items.len() == 0 {
        0
    } else {
        total(items.drop_last()) + items.last()
    }
}

/// The first `k` shares add up to `k` even parts and the pixels left over that
/// fall among them.
proof fn lemma_total_of_shares(extent: int, gap: int, count: nat, k: nat)
    requires
        0 < count,
        k <= count,
        shares_fit(extent, gap, count),
        share_space(extent, gap, count as int) >= count,
    ensures
        total(equal_shares(extent, gap, count).take(k as int)) == ({
            let space = share_space(extent, gap, count as int);
            k * (space / count as int) + if k < space % count as int {
                k as int
            } else {
                space % count as int
            }
        }),
    decreases k,
{
    let space = share_space(extent, gap, count as int);
    let shares = equal_shares(extent, gap, count);
    let base = space / count as int;
    let rest = space % count as int;
    if k == 0 {
        assert(rest >= 0) by (nonlinear_arith)
            requires
                rest == space % count as int,
                count > 0,
        ;
        assert(0 * base == 0) by (nonlinear_arith);
    } else {
        let j = (k - 1) as nat;
        lemma_total_of_shares(extent, gap, count, j);
        assert(shares.take(k as int).drop_last() =~= shares.take(j as int));
        lemma_share_range(extent, gap, count, j as int);
        assert(shares.take(k as int).last() == equal_share(extent, gap, count as int, j as int));
        assert(k * base == j * base + base) by (nonlinear_arith)
            requires
                k == j + 1,
        ;
    }
}

/// A share is at least a pixel and no more than the space.
proof fn lemma_share_range(extent: int, gap: int, count: nat, i: int)
    requires
        0 <= i < count,
        shares_fit(extent, gap, count),
    ensures
        1 <= equal_share(extent, gap, count as int, i) <= i32::MAX,
{
    let space = share_space(extent, gap, count as int);
    let n = count as int;
    if space >= n {
        assert(space / n >= 1) by (nonlinear_arith)
            requires
                space >= n,
                n > 0,
        ;
        assert(space / n <= space) by (nonlinear_arith)
            requires
                space >= n,
                n > 0,
        ;
        assert(space % n > 0 ==> space / n < space) by (nonlinear_arith)
            requires
                space >= n,
                n > 0,
        ;
    }
}

/// Where there is at least a pixel for each share, the shares and the gaps
/// around them fill the extent exactly.
pub proof fn shares_fill_the_extent(extent: int, gap: int, count: nat)
    requires
        0 < count,
        shares_fit(extent, gap, count),
        share_space(extent, gap, count as int) >= count,
    ensures
        total(equal_shares(extent, gap, count)) + (count + 1) * gap == extent,
{
    let space = share_space(extent, gap, count as int);
    lemma_total_of_shares(extent, gap, count, count);
    assert(equal_shares(extent, gap, count).take(count as int) =~= equal_shares(
        extent,
        gap,
        count,
    ));
    vstd::arithmetic::div_mod::lemma_fundamental_div_mod(space, count as int);
    vstd::arithmetic::div_mod::lemma_mod_bound(space, count as int);
}

/// Every share is at least one pixel, two shares differ by at most one pixel,
/// and no share is smaller than a later one.
pub proof fn shares_are_even(extent: int, gap: int, count: nat, i: int, j: int)
    requires
        0 <= i <= j < count,
        shares_fit(extent, gap, count),
    ensures
        equal_shares(extent, gap, count)[j] >= 1,
        equal_shares(extent, gap, count)[j] <= equal_shares(extent, gap, count)[i],
        equal_shares(extent, gap, count)[i] <= equal_shares(extent, gap, count)[j] + 1,
{
    lemma_share_range(extent, gap, count, i);
    lemma_share_range(extent, gap, count, j);
}

// ---------------------------------------------------------------------------
// Tiles and columns
// ---------------------------------------------------------------------------

/// A window is excluded where it floats or where its application is on the
/// list, whatever the case of the letters.
pub open spec fn excluded(window: Window, apps: Seq<Seq<char>>) -> bool {
    window.is_floating || match window.app_id {
        Some(app) => exists|i: int|
            0 <= i < apps.len() && lowered(app@) == lowered(#[trigger] apps[i]),
        None => false,
    }
}

/// Decides whether `window` is excluded.
pub fn is_window_excluded(window: &Window, excluded_app_ids: &[String]) -> (out: bool)
    ensures
        out == excluded(*window, views(excluded_app_ids@)),
{
    if window.is_floating {
        return true;
    }
    let ghost apps = views(excluded_app_ids@);
    match &window.app_id {
        Some(app) => {
            let mut i: usize = 0;
            while i < excluded_app_ids.len()
                invariant
                    i <= excluded_app_ids.len(),
                    apps == views(excluded_app_ids@),
                    window.app_id == Some(*app),
                    forall|k: int|
                        0 <= k < i ==> lowered(app@) != lowered(#[trigger] apps[k]),
                decreases excluded_app_ids.len() - i,
            {
                assert(apps[i as int] == excluded_app_ids@[i as int]@);
                if same_ignoring_case(app.as_str(), excluded_app_ids[i].as_str()) {
                    return true;
                }
                i = i + 1;
            }
            false
        },
        None => false,
    }
}

/// A window that takes part in the tiling of `workspace_id`.
pub open spec fn takes_part(window: Window, workspace_id: u64, apps: Seq<Seq<char>>) -> bool {
    &&& window.workspace_id == Some(workspace_id)
    &&& !excluded(window, apps)
    &&& window.pos_in_scrolling_layout is Some
}

/// The tile of a window that has a position.
pub open spec fn tile_of(window: Window) -> Tile {
    Tile {
        id: window.id,
        column: (window.pos_in_scrolling_layout->0).0,
        row: (window.pos_in_scrolling_layout->0).1,
        width: window.tile_size.0,
        height: window.tile_size.1,
    }
}

/// The tiles of `workspace_id`, in the order in which the windows are listed.
pub open spec fn tiles_of(windows: Seq<Window>, workspace_id: u64, apps: Seq<Seq<char>>) -> Seq<
    Tile,
>
    decreases windows.len(),
{
    if windows.len() == 0 {
        Seq::empty()
    } else {
        let front = tiles_of(windows.drop_last(), workspace_id, apps);
        if takes_part(windows.last(), workspace_id, apps) {
            front.push(tile_of(windows.last()))
        } else {
            front
        }
    }
}

/// Collects the tiles of a workspace.
pub fn collect_tiles(windows: &[Window], workspace_id: u64, excluded_app_ids: &[String]) -> (tiles:
    Vec<Tile>)
    ensures
        tiles@ == tiles_of(windows@, workspace_id, views(excluded_app_ids@)),
{
    let ghost apps = views(excluded_app_ids@);
    let mut tiles: Vec<Tile> = Vec::new();
    let mut i: usize = 0;
    while i < windows.len()
        invariant
            i <= windows.len(),
            apps == views(excluded_app_ids@),
            tiles@ == tiles_of(windows@.take(i as int), workspace_id, apps),
        decreases windows.len() - i,
    {
        let window: &Window = &windows[i];
        proof {
            let next = windows@.take(i + 1);
            assert(next.drop_last() =~= windows@.take(i as int));
            assert(next.last() == *window);
        }
        let here: bool = match window.workspace_id {
            Some(id) => id == workspace_id,
            None => false,
        };
        if here && !is_window_excluded(window, excluded_app_ids) {
            match window.pos_in_scrolling_layout {
                Some((column, row)) => {
                    tiles.push(
                        Tile {
                            id: window.id,
                            column,
                            row,
                            width: window.tile_size.0,
                            height: window.tile_size.1,
                        },
                    );
                },
                None => {},
            }
        }
        i = i + 1;
    }
    assert(windows@.take(i as int) =~= windows@);
    tiles
}

/// Every tile belongs to a window that takes part.
pub proof fn tiles_come_from_windows(
    windows: Seq<Window>,
    workspace_id: u64,
    apps: Seq<Seq<char>>,
    tile: Tile,
)
    ensures
        tiles_of(windows, workspace_id, apps).contains(tile) <==> exists|i: int|
            0 <= i < windows.len() && takes_part(#[trigger] windows[i], workspace_id, apps)
                && tile_of(windows[i]) == tile,
    decreases windows.len(),
{
    let tiles = tiles_of(windows, workspace_id, apps);
    if windows.len() > 0 {
        let front = windows.drop_last();
        let before = tiles_of(front, workspace_id, apps);
        tiles_come_from_windows(front, workspace_id, apps, tile);
        if tiles.contains(tile) {
            let k = choose|k: int| 0 <= k < tiles.len() && tiles[k] == tile;
            if k < before.len() {
                assert(before[k] == tile);
                assert(before.contains(tile));
                let i = choose|i: int|
                    0 <= i < front.len() && takes_part(#[trigger] front[i], workspace_id, apps)
                        && tile_of(front[i]) == tile;
                assert(windows[i] == front[i]);
            } else {
                assert(takes_part(windows[windows.len() - 1], workspace_id, apps));
            }
        }
        if exists|i: int|
            0 <= i < windows.len() && takes_part(#[trigger] windows[i], workspace_id, apps)
                && tile_of(windows[i]) == tile {
            let i = choose|i: int|
                0 <= i < windows.len() && takes_part(#[trigger] windows[i], workspace_id, apps)
                    && tile_of(windows[i]) == tile;
            if i < front.len() {
                assert(takes_part(front[i], workspace_id, apps) && tile_of(front[i]) == tile);
                assert(before.contains(tile));
                let k = choose|k: int| 0 <= k < before.len() && before[k] == tile;
                assert(tiles[k] == tile);
            } else {
                assert(tiles.last() == tile);
            }
        }
    }
}

/// One column of a workspace.
#[derive(Debug, Clone, PartialEq)]
pub struct ColumnInfo {
    pub column_index: usize,
    pub lead_window_id: u64,
    pub window_ids: Vec<u64>,
    pub original_pixel_width: i32,
    pub window_heights: Vec<i32>,
}

/// The contents of a column: its place, its topmost window and that window's
/// width, and the ids and heights of its windows from top to bottom.
#[verifier::ext_equal]
pub struct ColumnView {
    pub column_index: usize,
    pub lead_window_id: u64,
    pub window_ids: Seq<u64>,
    pub original_pixel_width: i32,
    pub window_heights: Seq<i32>,
}

impl View for ColumnInfo {
    type V = ColumnView;

    open spec fn view(&self) -> ColumnView {
        ColumnView {
            column_index: self.column_index,
            lead_window_id: self.lead_window_id,
            window_ids: self.window_ids@,
            original_pixel_width: self.original_pixel_width,
            window_heights: self.window_heights@,
        }
    }
}

/// The contents of each column.
pub open spec fn column_views(columns: Seq<ColumnInfo>) -> Seq<ColumnView> {
    columns.map_values(|c: ColumnInfo| c@)
}

/// The ids of `tiles`.
pub open spec fn ids_of(tiles: Seq<Tile>) -> Seq<u64> {
    tiles.map_values(|t: Tile| t.id)
}

/// The heights of `tiles`.
pub open spec fn heights_of(tiles: Seq<Tile>) -> Seq<i32> {
    tiles.map_values(|t: Tile| t.height)
}

/// The tiles that stand in column `index`.
pub open spec fn members(tiles: Seq<Tile>, index: usize) -> Seq<Tile> {
    tiles.filter(|t: Tile| t.column == index)
}

/// Column `index` of a workspace with the given tiles.
pub open spec fn column_at(tiles: Seq<Tile>, index: usize) -> ColumnView {
    let stack = sort_tiles(TileOrder::Row, members(tiles, index));
    ColumnView {
        column_index: index,
        lead_window_id: stack[0].id,
        window_ids: ids_of(stack),
        original_pixel_width: stack[0].width,
        window_heights: heights_of(stack),
    }
}

/// `indices`, which rise, with `index` put in its place unless it is there.
pub open spec fn add_index(indices: Seq<usize>, index: usize) -> Seq<usize>
    decreases indices.len(),
{
    if indices.len() == 0 || indices.last() < index {
        indices.push(index)
    } else if indices.last() == index {
        indices
    } else {
        add_index(indices.drop_last(), index).push(indices.last())
    }
}

/// The columns in which tiles stand, from left to right.
pub open spec fn column_indices(tiles: Seq<Tile>) -> Seq<usize>
    decreases tiles.len(),
{
    if tiles.len() == 0 {
        Seq::empty()
    } else {
        add_index(column_indices(tiles.drop_last()), tiles.last().column)
    }
}

/// All columns of a workspace with the given tiles, from left to right.
pub open spec fn columns_of(tiles: Seq<Tile>) -> Seq<ColumnView> {
    column_indices(tiles).map_values(|index: usize| column_at(tiles, index))
}

/// Each item is larger than those before it.
pub open spec fn rising(indices: Seq<usize>) -> bool {
    forall|i: int, j: int| 0 <= i < j < indices.len() ==> indices[i] < indices[j]
}

proof fn lemma_add_index(indices: Seq<usize>, index: usize)
    requires
        rising(indices),
    ensures
        rising(add_index(indices, index)),
        forall|x: usize| #[trigger]
            add_index(indices, index).contains(x) <==> indices.contains(x) || x == index,
    decreases indices.len(),
{
    let out = add_index(indices, index);
    if indices.len() == 0 || indices.last() < index {
        assert forall|x: usize| #[trigger] out.contains(x) <==> indices.contains(x) || x
            == index by {
            if indices.contains(x) {
                let k = choose|k: int| 0 <= k < indices.len() && indices[k] == x;
                assert(out[k] == x);
            }
            if x == index {
                assert(out[indices.len() as int] == x);
            }
        }
    } else if indices.last() > index {
        let front = indices.drop_last();
        lemma_add_index(front, index);
        let inner = add_index(front, index);
        let last = indices.last();
        assert forall|i: int, j: int| 0 <= i < j < out.len() implies out[i] < out[j] by {
            if j == inner.len() {
                assert(inner.contains(inner[i]));
                if front.contains(inner[i]) {
                    let k = choose|k: int| 0 <= k < front.len() && front[k] == inner[i];
                    assert(indices[k] < indices[indices.len() - 1]);
                }
            }
        }
        assert forall|x: usize| #[trigger] out.contains(x) <==> indices.contains(x) || x
            == index by {
            if out.contains(x) {
                let k = choose|k: int| 0 <= k < out.len() && out[k] == x;
                if k < inner.len() {
                    assert(inner.contains(x));
                    if front.contains(x) {
                        let m = choose|m: int| 0 <= m < front.len() && front[m] == x;
                        assert(indices[m] == x);
                    }
                } else {
                    assert(indices[indices.len() - 1] == x);
                }
            }
            if indices.contains(x) || x == index {
                if x == last {
                    assert(out[inner.len() as int] == x);
                } else {
                    if indices.contains(x) {
                        let m = choose|m: int| 0 <= m < indices.len() && indices[m] == x;
                        assert(front[m] == x);
                    }
                    assert(inner.contains(x));
                    let k = choose|k: int| 0 <= k < inner.len() && inner[k] == x;
                    assert(out[k] == x);
                }
            }
        }
    } else {
        assert(indices[indices.len() - 1] == index);
    }
}

/// The columns come from left to right, none twice, and they are exactly those
/// in which a tile stands.
pub proof fn columns_are_exact(tiles: Seq<Tile>)
    ensures
        rising(column_indices(tiles)),
        forall|index: usize| #[trigger]
            column_indices(tiles).contains(index) <==> exists|i: int|
                0 <= i < tiles.len() && (#[trigger] tiles[i]).column == index,
    decreases tiles.len(),
{
    let all = column_indices(tiles);
    if tiles.len() > 0 {
        let front = tiles.drop_last();
        columns_are_exact(front);
        lemma_add_index(column_indices(front), tiles.last().column);
        assert forall|index: usize| #[trigger]
            all.contains(index) <==> exists|i: int|
                0 <= i < tiles.len() && (#[trigger] tiles[i]).column == index by {
            if all.contains(index) {
                if column_indices(front).contains(index) {
                    let i = choose|i: int|
                        0 <= i < front.len() && (#[trigger] front[i]).column == index;
                    assert(tiles[i].column == index);
                } else {
                    assert(tiles[tiles.len() - 1].column == index);
                }
            }
            if exists|i: int| 0 <= i < tiles.len() && (#[trigger] tiles[i]).column == index {
                let i = choose|i: int|
                    0 <= i < tiles.len() && (#[trigger] tiles[i]).column == index;
                if i < front.len() {
                    assert(front[i].column == index);
                    assert(column_indices(front).contains(index));
                }
            }
        }
    }
}

/// A column that is listed has at least one tile.
pub proof fn listed_columns_have_tiles(tiles: Seq<Tile>, index: usize)
    requires
        column_indices(tiles).contains(index),
    ensures
        members(tiles, index).len() > 0,
        column_at(tiles, index).window_ids.len() == members(tiles, index).len(),
{
    broadcast use vstd::seq_lib::group_filter_ensures;

    columns_are_exact(tiles);
    let i = choose|i: int| 0 <= i < tiles.len() && (#[trigger] tiles[i]).column == index;
    assert(members(tiles, index).contains(tiles[i]));
    sorting_permutes(TileOrder::Row, members(tiles, index));
}

/// Collects the columns in which tiles stand.
fn collect_indices(tiles: &Vec<Tile>) -> (indices: Vec<usize>)
    ensures
        indices@ == column_indices(tiles@),
{
    let mut indices: Vec<usize> = Vec::new();
    let mut i: usize = 0;
    while i < tiles.len()
        invariant
            i <= tiles.len(),
            indices@ == column_indices(tiles@.take(i as int)),
        decreases tiles.len() - i,
    {
        let index: usize = tiles[i].column;
        let mut at: usize = indices.len();
        while at > 0 && indices[at - 1] > index
            invariant
                at <= indices.len(),
                forall|k: int| at <= k < indices.len() ==> #[trigger] indices@[k] > index,
            decreases at,
        {
            at = at - 1;
        }
        proof {
            lemma_add_index_at(indices@, index, at as int);
            assert(tiles@.take(i + 1).drop_last() =~= tiles@.take(i as int));
            assert(tiles@.take(i + 1).last() == tiles@[i as int]);
        }
        if at == 0 || indices[at - 1] != index {
            indices.insert(at, index);
        }
        i = i + 1;
    }
    assert(tiles@.take(i as int) =~= tiles@);
    indices
}

proof fn lemma_add_index_at(indices: Seq<usize>, index: usize, at: int)
    requires
        0 <= at <= indices.len(),
        forall|k: int| at <= k < indices.len() ==> #[trigger] indices[k] > index,
        at > 0 ==> indices[at - 1] <= index,
    ensures
        add_index(indices, index) == (if at > 0 && indices[at - 1] == index {
            indices
        } else {
            indices.insert(at, index)
        }),
    decreases indices.len(),
{
    if at == indices.len() {
        assert(indices.insert(at, index) =~= indices.push(index));
    } else {
        assert(indices[indices.len() - 1] > index);
        let front = indices.drop_last();
        lemma_add_index_at(front, index, at);
        assert(front.push(indices.last()) =~= indices);
        assert(front.insert(at, index).push(indices.last()) =~= indices.insert(at, index));
    }
}

/// Collects the tiles of one column.
fn collect_members(tiles: &Vec<Tile>, index: usize) -> (found: Vec<Tile>)
    ensures
        found@ == members(tiles@, index),
{
    let ghost stands = |t: Tile| t.column == index;
    let mut found: Vec<Tile> = Vec::new();
    let mut i: usize = 0;
    proof {
        reveal(Seq::filter);
    }
    while i < tiles.len()
        invariant
            i <= tiles.len(),
            stands == (|t: Tile| t.column == index),
            found@ == tiles@.take(i as int).filter(stands),
        decreases tiles.len() - i,
    {
        let tile: Tile = tiles[i];
        proof {
            tiles@.take(i as int).lemma_filter_push(tile, stands);
            assert(tiles@.take(i + 1) =~= tiles@.take(i as int).push(tile));
        }
        if tile.column == index {
            found.push(tile);
        }
        i = i + 1;
    }
    assert(tiles@.take(i as int) =~= tiles@);
    found
}

/// Describes one column from its tiles, which stand from top to bottom.
fn describe_column(index: usize, stack: &Vec<Tile>) -> (column: ColumnInfo)
    requires
        stack.len() > 0,
    ensures
        column.column_index == index,
        column.lead_window_id == stack@[0].id,
        column.window_ids@ == ids_of(stack@),
        column.original_pixel_width == stack@[0].width,
        column.window_heights@ == heights_of(stack@),
{
    let mut window_ids: Vec<u64> = Vec::new();
    let mut window_heights: Vec<i32> = Vec::new();
    let mut i: usize = 0;
    while i < stack.len()
        invariant
            i <= stack.len(),
            window_ids@ == ids_of(stack@.take(i as int)),
            window_heights@ == heights_of(stack@.take(i as int)),
        decreases stack.len() - i,
    {
        window_ids.push(stack[i].id);
        window_heights.push(stack[i].height);
        assert(window_ids@ =~= ids_of(stack@.take(i + 1)));
        assert(window_heights@ =~= heights_of(stack@.take(i + 1)));
        i = i + 1;
    }
    assert(stack@.take(i as int) =~= stack@);
    ColumnInfo {
        column_index: index,
        lead_window_id: stack[0].id,
        window_ids,
        original_pixel_width: stack[0].width,
        window_heights,
    }
}

/// The columns of a workspace, without the windows of the listed applications.
pub fn parse_workspace_columns_with_exclusions(
    windows: &[Window],
    workspace_id: u64,
    excluded_app_ids: &[String],
) -> (columns: Vec<ColumnInfo>)
    ensures
        column_views(columns@) == columns_of(
            tiles_of(windows@, workspace_id, views(excluded_app_ids@)),
        ),
{
    let tiles: Vec<Tile> = collect_tiles(windows, workspace_id, excluded_app_ids);
    let indices: Vec<usize> = collect_indices(&tiles);
    let mut columns: Vec<ColumnInfo> = Vec::new();
    let mut i: usize = 0;
    while i < indices.len()
        invariant
            i <= indices.len(),
            indices@ == column_indices(tiles@),
            column_views(columns@) == columns_of(tiles@).take(i as int),
        decreases indices.len() - i,
    {
        let index: usize = indices[i];
        proof {
            assert(column_indices(tiles@).contains(index));
            listed_columns_have_tiles(tiles@, index);
            sorting_permutes(TileOrder::Row, members(tiles@, index));
        }
        let stack: Vec<Tile> = sort_by_order(TileOrder::Row, &collect_members(&tiles, index));
        let column: ColumnInfo = describe_column(index, &stack);
        proof {
            assert(column@ == column_at(tiles@, index));
            assert(column_views(columns@.push(column)) =~= column_views(columns@).push(column@));
            assert(columns_of(tiles@).take(i + 1) =~= columns_of(tiles@).take(i as int).push(
                column@,
            ));
        }
        columns.push(column);
        i = i + 1;
    }
    assert(columns_of(tiles@).take(i as int) =~= columns_of(tiles@));
    columns
}

/// The columns of a workspace.
pub fn parse_workspace_columns(windows: &[Window], workspace_id: u64) -> (columns: Vec<ColumnInfo>)
    ensures
        column_views(columns@) == columns_of(tiles_of(windows@, workspace_id, Seq::empty())),
{
    let none: Vec<String> = Vec::new();
    assert(views(none@) =~= Seq::<Seq<char>>::empty());
    parse_workspace_columns_with_exclusions(windows, workspace_id, none.as_slice())
}

// ---------------------------------------------------------------------------
// Every tile stands in exactly one column
// ---------------------------------------------------------------------------

/// The ids of the windows of all columns, column by column.
pub open spec fn all_window_ids(columns: Seq<ColumnView>) -> Seq<u64>
    decreases columns.len(),
{
    if columns.len() == 0 {
        Seq::empty()
    } else {
        all_window_ids(columns.drop_last()) + columns.last().window_ids
    }
}

proof fn lemma_ids_push(tiles: Seq<Tile>, tile: Tile)
    ensures
        ids_of(tiles.push(tile)) == ids_of(tiles).push(tile.id),
{
    assert(ids_of(tiles.push(tile)) =~= ids_of(tiles).push(tile.id));
}

proof fn lemma_ids_of_inserted(order: TileOrder, sorted: Seq<Tile>, tile: Tile)
    ensures
        ids_of(insert_tile(order, sorted, tile)).to_multiset() == ids_of(
            sorted,
        ).to_multiset().insert(tile.id),
    decreases sorted.len(),
{
    broadcast use vstd::seq_lib::group_to_multiset_ensures;

    if sorted.len() == 0 || !precedes(order, tile, sorted.last()) {
        lemma_ids_push(sorted, tile);
    } else {
        let front = sorted.drop_last();
        lemma_ids_of_inserted(order, front, tile);
        assert(front.push(sorted.last()) =~= sorted);
        lemma_ids_push(front, sorted.last());
        lemma_ids_push(insert_tile(order, front, tile), sorted.last());
        assert(ids_of(insert_tile(order, sorted, tile)).to_multiset() =~= ids_of(
            sorted,
        ).to_multiset().insert(tile.id));
    }
}

proof fn lemma_ids_of_sorted(order: TileOrder, tiles: Seq<Tile>)
    ensures
        ids_of(sort_tiles(order, tiles)).to_multiset() == ids_of(tiles).to_multiset(),
    decreases tiles.len(),
{
    broadcast use vstd::seq_lib::group_to_multiset_ensures;

    if tiles.len() > 0 {
        let front = tiles.drop_last();
        lemma_ids_of_sorted(order, front);
        lemma_ids_of_inserted(order, sort_tiles(order, front), tiles.last());
        assert(front.push(tiles.last()) =~= tiles);
        lemma_ids_push(front, tiles.last());
    }
}

/// The columns at `indices`.
spec fn columns_at(tiles: Seq<Tile>, indices: Seq<usize>) -> Seq<ColumnView> {
    indices.map_values(|index: usize| column_at(tiles, index))
}

/// One more tile adds its id where its column is listed, and nothing elsewhere.
proof fn lemma_one_more_tile(tiles: Seq<Tile>, tile: Tile, indices: Seq<usize>)
    requires
        rising(indices),
    ensures
        all_window_ids(columns_at(tiles.push(tile), indices)).to_multiset() == (if indices.contains(
            tile.column,
        ) {
            all_window_ids(columns_at(tiles, indices)).to_multiset().insert(tile.id)
        } else {
            all_window_ids(columns_at(tiles, indices)).to_multiset()
        }),
    decreases indices.len(),
{
    broadcast use vstd::seq_lib::group_to_multiset_ensures;

    let longer = tiles.push(tile);
    if indices.len() > 0 {
        let front = indices.drop_last();
        let index = indices.last();
        lemma_one_more_tile(tiles, tile, front);
        assert(columns_at(longer, indices).drop_last() =~= columns_at(longer, front));
        assert(columns_at(tiles, indices).drop_last() =~= columns_at(tiles, front));
        let new_ids = column_at(longer, index).window_ids;
        let old_ids = column_at(tiles, index).window_ids;
        let new_rest = all_window_ids(columns_at(longer, front));
        let old_rest = all_window_ids(columns_at(tiles, front));
        lemma_ids_of_sorted(TileOrder::Row, members(longer, index));
        lemma_ids_of_sorted(TileOrder::Row, members(tiles, index));
        tiles.lemma_filter_push(tile, |t: Tile| t.column == index);
        if tile.column == index {
            lemma_ids_push(members(tiles, index), tile);
            assert(new_ids.to_multiset() =~= old_ids.to_multiset().insert(tile.id));
            assert(!front.contains(index)) by {
                if front.contains(index) {
                    let k = choose|k: int| 0 <= k < front.len() && front[k] == index;
                    assert(indices[k] < indices[indices.len() - 1]);
                }
            }
            assert(indices.contains(index));
        } else {
            assert(new_ids.to_multiset() == old_ids.to_multiset());
            assert(indices.contains(tile.column) <==> front.contains(tile.column)) by {
                if indices.contains(tile.column) {
                    let k = choose|k: int| 0 <= k < indices.len() && indices[k] == tile.column;
                    assert(front[k] == tile.column);
                }
                if front.contains(tile.column) {
                    let k = choose|k: int| 0 <= k < front.len() && front[k] == tile.column;
                    assert(indices[k] == tile.column);
                }
            }
        }
        vstd::seq_lib::lemma_multiset_commutative(new_rest, new_ids);
        vstd::seq_lib::lemma_multiset_commutative(old_rest, old_ids);
        assert(all_window_ids(columns_at(longer, indices)) == new_rest + new_ids);
        assert(all_window_ids(columns_at(tiles, indices)) == old_rest + old_ids);
        assert(all_window_ids(columns_at(longer, indices)).to_multiset() =~= (if indices.contains(
            tile.column,
        ) {
            all_window_ids(columns_at(tiles, indices)).to_multiset().insert(tile.id)
        } else {
            all_window_ids(columns_at(tiles, indices)).to_multiset()
        }));
    }
}

proof fn lemma_listed_tiles(tiles: Seq<Tile>, indices: Seq<usize>)
    requires
        rising(indices),
        forall|i: int| 0 <= i < tiles.len() ==> indices.contains((#[trigger] tiles[i]).column),
    ensures
        all_window_ids(columns_at(tiles, indices)).to_multiset() == ids_of(tiles).to_multiset(),
    decreases tiles.len(),
{
    broadcast use vstd::seq_lib::group_to_multiset_ensures;

    if tiles.len() == 0 {
        lemma_no_tiles(tiles, indices);
        assert(ids_of(tiles) =~= Seq::<u64>::empty());
    } else {
        let front = tiles.drop_last();
        assert forall|i: int| 0 <= i < front.len() implies indices.contains(
            (#[trigger] front[i]).column,
        ) by {
            assert(front[i] == tiles[i]);
        }
        lemma_listed_tiles(front, indices);
        lemma_one_more_tile(front, tiles.last(), indices);
        assert(front.push(tiles.last()) =~= tiles);
        lemma_ids_push(front, tiles.last());
        assert(indices.contains(tiles[tiles.len() - 1].column));
    }
}

proof fn lemma_no_tiles(tiles: Seq<Tile>, indices: Seq<usize>)
    requires
        tiles.len() == 0,
    ensures
        all_window_ids(columns_at(tiles, indices)) == Seq::<u64>::empty(),
    decreases indices.len(),
{
    if indices.len() > 0 {
        let front = indices.drop_last();
        lemma_no_tiles(tiles, front);
        assert(columns_at(tiles, indices).drop_last() =~= columns_at(tiles, front));
        reveal(Seq::filter);
        assert(members(tiles, indices.last()).len() == 0);
        assert(column_at(tiles, indices.last()).window_ids =~= Seq::<u64>::empty());
        assert(all_window_ids(columns_at(tiles, indices)) =~= Seq::<u64>::empty());
    }
}

/// The columns hold every tile once: no window is lost and none is added.
pub proof fn columns_keep_every_window(tiles: Seq<Tile>)
    ensures
        all_window_ids(columns_of(tiles)).to_multiset() == ids_of(tiles).to_multiset(),
{
    columns_are_exact(tiles);
    let indices = column_indices(tiles);
    assert forall|i: int| 0 <= i < tiles.len() implies indices.contains(
        (#[trigger] tiles[i]).column,
    ) by {
        assert(tiles[i].column == tiles[i].column);
    }
    lemma_listed_tiles(tiles, indices);
    assert(columns_at(tiles, indices) =~= columns_of(tiles));
}

/// The windows of a column come from top to bottom.
pub proof fn columns_run_downwards(tiles: Seq<Tile>, index: usize)
    ensures
        column_at(tiles, index).window_ids == ids_of(
            sort_tiles(TileOrder::Row, members(tiles, index)),
        ),
        in_order(TileOrder::Row, sort_tiles(TileOrder::Row, members(tiles, index))),
{
    sorting_orders(TileOrder::Row, members(tiles, index));
}

// ---------------------------------------------------------------------------
// What these notions come to
// ---------------------------------------------------------------------------

/// The struts are taken off the extent, which is not made less than nothing.
pub proof fn struts_are_taken_off(extent: int, near: int, far: int)
    ensures
        near + far + between_struts(extent, near, far) == extent || (between_struts(
            extent,
            near,
            far,
        ) == 0 && extent < near + far),
        between_struts(extent, near, far) >= 0,
{
}

/// Two texts are the same but for the case of the letters `A` to `Z`.
pub open spec fn alike(a: Seq<char>, b: Seq<char>) -> bool {
    &&& a.len() == b.len()
    &&& forall|k: int|
        #![trigger a[k]]
        #![trigger b[k]]
        0 <= k < a.len() ==> {
            ||| a[k] == b[k]
            ||| 'A' <= a[k] <= 'Z' && b[k] as u32 == a[k] as u32 + 32
            ||| 'A' <= b[k] <= 'Z' && a[k] as u32 == b[k] as u32 + 32
        }
}

/// The window is of one of the listed applications.
pub open spec fn is_listed(window: Window, apps: Seq<Seq<char>>) -> bool {
    window.app_id is Some && exists|i: int|
        0 <= i < apps.len() && alike((window.app_id->0)@, #[trigger] apps[i])
}

pub(crate) proof fn lemma_alike(a: Seq<char>, b: Seq<char>)
    ensures
        alike(a, b) <==> lowered(a) == lowered(b),
{
    if alike(a, b) {
        assert forall|k: int| 0 <= k < a.len() implies lowered(a)[k] == lowered(b)[k] by {
            crate::text::capitals_have_small_letters(a[k]);
            crate::text::capitals_have_small_letters(b[k]);
        }
        assert(lowered(a) =~= lowered(b));
    }
    if lowered(a) == lowered(b) {
        assert(lowered(a).len() == a.len() && lowered(b).len() == b.len());
        assert forall|k: int|
            #![trigger a[k]]
            #![trigger b[k]]
            0 <= k < a.len() implies {
            ||| a[k] == b[k]
            ||| 'A' <= a[k] <= 'Z' && b[k] as u32 == a[k] as u32 + 32
            ||| 'A' <= b[k] <= 'Z' && a[k] as u32 == b[k] as u32 + 32
        } by {
            assert(lowered(a)[k] == lowered(b)[k]);
        }
    }
}

/// A window is excluded exactly where it floats or is of a listed application,
/// whatever the case of the letters.
pub proof fn floating_and_listed_windows_are_excluded(window: Window, apps: Seq<Seq<char>>)
    ensures
        excluded(window, apps) <==> window.is_floating || is_listed(window, apps),
{
    if let Some(app) = window.app_id {
        if exists|i: int| 0 <= i < apps.len() && lowered(app@) == lowered(#[trigger] apps[i]) {
            let i = choose|i: int|
                0 <= i < apps.len() && lowered(app@) == lowered(#[trigger] apps[i]);
            lemma_alike(app@, apps[i]);
            assert(is_listed(window, apps));
        }
        if is_listed(window, apps) {
            let i = choose|i: int| 0 <= i < apps.len() && alike(app@, #[trigger] apps[i]);
            lemma_alike(app@, apps[i]);
        }
    }
}

/// Excluding applications gives the columns that the workspace would have without
/// their windows.
pub proof fn excluding_is_leaving_out(
    windows: Seq<Window>,
    workspace_id: u64,
    apps: Seq<Seq<char>>,
)
    ensures
        columns_of(tiles_of(windows, workspace_id, apps)) == columns_of(
            tiles_of(
                windows.filter(|w: Window| !is_listed(w, apps)),
                workspace_id,
                Seq::empty(),
            ),
        ),
{
    lemma_tiles_left_out(windows, workspace_id, apps);
}

proof fn lemma_tiles_left_out(windows: Seq<Window>, workspace_id: u64, apps: Seq<Seq<char>>)
    ensures
        tiles_of(windows, workspace_id, apps) == tiles_of(
            windows.filter(|w: Window| !is_listed(w, apps)),
            workspace_id,
            Seq::empty(),
        ),
    decreases windows.len(),
{
    let keep = |w: Window| !is_listed(w, apps);
    reveal(Seq::filter);
    if windows.len() > 0 {
        let front = windows.drop_last();
        let last = windows.last();
        lemma_tiles_left_out(front, workspace_id, apps);
        floating_and_listed_windows_are_excluded(last, apps);
        floating_and_listed_windows_are_excluded(last, Seq::empty());
        if keep(last) {
            assert(front.filter(keep).push(last).drop_last() =~= front.filter(keep));
        }
    }
}

} // verus!
