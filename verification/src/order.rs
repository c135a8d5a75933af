//! Stable sorting of tiles.

use vstd::prelude::*;

use crate::model::Tile;

verus! {

/// The three orders in which a plan walks tiles.
#[derive(Clone, Copy, Debug, PartialEq, Eq, Structural)]
pub enum TileOrder {
    /// Top to bottom, columns ignored.
    Row,
    /// Left to right, then top to bottom.
    Position,
    /// Left to right, then bottom to top.
    Unstack,
}

/// Whether `a` has to stand before `b`.
pub open spec fn precedes(order: TileOrder, a: Tile, b: Tile) -> bool {
    match order {
        TileOrder::Row => a.row < b.row,
        TileOrder::Position => a.column < b.column || (a.column == b.column && a.row < b.row),
        TileOrder::Unstack => a.column < b.column || (a.column == b.column && a.row > b.row),
    }
}

/// Whether neither tile has to stand before the other.
pub open spec fn level(order: TileOrder, a: Tile, b: Tile) -> bool {
    !precedes(order, a, b) && !precedes(order, b, a)
}

/// `sorted` with `tile` put behind every tile that it does not precede.
pub open spec fn insert_tile(order: TileOrder, sorted: Seq<Tile>, tile: Tile) -> Seq<Tile>
    decreases sorted.len(),
{
    if sorted.len() == 0 || !precedes(order, tile, sorted.last()) {
        sorted.push(tile)
    } else {
        insert_tile(order, sorted.drop_last(), tile).push(sorted.last())
    }
}

/// The tiles of `tiles` in `order`; tiles that are level keep their turn.
pub open spec fn sort_tiles(order: TileOrder, tiles: Seq<Tile>) -> Seq<Tile>
    decreases tiles.len(),
{
    if tiles.len() == 0 {
        tiles
    } else {
        insert_tile(order, sort_tiles(order, tiles.drop_last()), tiles.last())
    }
}

/// No tile has to stand before one that comes earlier.
pub open spec fn in_order(order: TileOrder, tiles: Seq<Tile>) -> bool {
    forall|i: int, j: int|
        0 <= i < j < tiles.len() ==> !precedes(order, #[trigger] tiles[j], #[trigger] tiles[i])
}

/// Inserting keeps the order.
proof fn lemma_insert_in_order(order: TileOrder, sorted: Seq<Tile>, tile: Tile)
    requires
        in_order(order, sorted),
    ensures
        in_order(order, insert_tile(order, sorted, tile)),
        insert_tile(order, sorted, tile).len() == sorted.len() + 1,
        forall|x: Tile| #[trigger]
            insert_tile(order, sorted, tile).contains(x) ==> sorted.contains(x) || x == tile,
    decreases sorted.len(),
{
    let out = insert_tile(order, sorted, tile);
    if sorted.len() == 0 || !precedes(order, tile, sorted.last()) {
        assert forall|i: int, j: int| 0 <= i < j < out.len() implies !precedes(
            order,
            #[trigger] out[j],
            #[trigger] out[i],
        ) by {
            if j == sorted.len() {
                assert(!precedes(order, sorted.last(), sorted[i]) || i == sorted.len() - 1);
            }
        }
        assert forall|x: Tile| #[trigger] out.contains(x) implies sorted.contains(x) || x
            == tile by {
            let k = choose|k: int| 0 <= k < out.len() && out[k] == x;
            if k < sorted.len() {
                assert(sorted[k] == x);
            }
        }
    } else {
        let front = sorted.drop_last();
        lemma_insert_in_order(order, front, tile);
        let inner = insert_tile(order, front, tile);
        assert forall|i: int, j: int| 0 <= i < j < out.len() implies !precedes(
            order,
            #[trigger] out[j],
            #[trigger] out[i],
        ) by {
            if j == inner.len() {
                assert(inner.contains(inner[i]));
                if inner[i] != tile {
                    let k = choose|k: int| 0 <= k < front.len() && front[k] == inner[i];
                    assert(sorted[k] == inner[i]);
                }
            }
        }
        assert forall|x: Tile| #[trigger] out.contains(x) implies sorted.contains(x) || x
            == tile by {
            let k = choose|k: int| 0 <= k < out.len() && out[k] == x;
            if k < inner.len() {
                assert(inner.contains(x));
                if x != tile {
                    let m = choose|m: int| 0 <= m < front.len() && front[m] == x;
                    assert(sorted[m] == x);
                }
            } else {
                assert(sorted[sorted.len() - 1] == x);
            }
        }
    }
}

/// Sorting puts the tiles in order.
pub proof fn sorting_orders(order: TileOrder, tiles: Seq<Tile>)
    ensures
        in_order(order, sort_tiles(order, tiles)),
    decreases tiles.len(),
{
    if tiles.len() > 0 {
        sorting_orders(order, tiles.drop_last());
        lemma_insert_in_order(order, sort_tiles(order, tiles.drop_last()), tiles.last());
    }
}

/// Inserting adds the tile and nothing else.
proof fn lemma_insert_multiset(order: TileOrder, sorted: Seq<Tile>, tile: Tile)
    ensures
        insert_tile(order, sorted, tile).to_multiset() == sorted.to_multiset().insert(tile),
        insert_tile(order, sorted, tile).len() == sorted.len() + 1,
    decreases sorted.len(),
{
    broadcast use vstd::seq_lib::group_to_multiset_ensures;

    if sorted.len() == 0 || !precedes(order, tile, sorted.last()) {
    } else {
        let front = sorted.drop_last();
        lemma_insert_multiset(order, front, tile);
        assert(front.push(sorted.last()) =~= sorted);
        assert(sorted.to_multiset() =~= front.to_multiset().insert(sorted.last()));
        assert(insert_tile(order, sorted, tile).to_multiset() =~= sorted.to_multiset().insert(
            tile,
        ));
    }
}

/// Sorting loses no tile and adds none.
pub proof fn sorting_permutes(order: TileOrder, tiles: Seq<Tile>)
    ensures
        sort_tiles(order, tiles).to_multiset() == tiles.to_multiset(),
        sort_tiles(order, tiles).len() == tiles.len(),
    decreases tiles.len(),
{
    broadcast use vstd::seq_lib::group_to_multiset_ensures;

    if tiles.len() > 0 {
        let front = tiles.drop_last();
        sorting_permutes(order, front);
        lemma_insert_multiset(order, sort_tiles(order, front), tiles.last());
        assert(front.push(tiles.last()) =~= tiles);
        assert(tiles.to_multiset() =~= front.to_multiset().insert(tiles.last()));
    }
}

/// A tile is among the sorted ones exactly where it was among them before.
pub proof fn sorting_keeps_members(order: TileOrder, tiles: Seq<Tile>, tile: Tile)
    ensures
        sort_tiles(order, tiles).contains(tile) <==> tiles.contains(tile),
{
    broadcast use vstd::seq_lib::group_to_multiset_ensures;

    let sorted = sort_tiles(order, tiles);
    sorting_permutes(order, tiles);
    assert(sorted.contains(tile) <==> sorted.to_multiset().contains(tile));
    assert(tiles.contains(tile) <==> tiles.to_multiset().contains(tile));
}

/// No two different ones of the tiles are level.
pub open spec fn tells_apart(order: TileOrder, tiles: Seq<Tile>) -> bool {
    forall|x: Tile, y: Tile|
        #[trigger] tiles.contains(x) && #[trigger] tiles.contains(y) && level(order, x, y) ==> x
            == y
}

/// Two rows of the same tiles that are in order, and that the order tells apart,
/// are the same row.
proof fn lemma_one_row_in_order(order: TileOrder, s: Seq<Tile>, t: Seq<Tile>)
    requires
        in_order(order, s),
        in_order(order, t),
        s.to_multiset() == t.to_multiset(),
        tells_apart(order, s),
    ensures
        s == t,
    decreases s.len(),
{
    broadcast use vstd::seq_lib::group_to_multiset_ensures;

    assert(s.len() == s.to_multiset().len());
    assert(t.len() == t.to_multiset().len());
    if s.len() > 0 {
        let x = s.last();
        let y = t.last();
        assert(s.contains(x));
        assert(t.contains(y));
        assert(s.to_multiset().contains(x) && t.to_multiset().contains(x));
        assert(t.to_multiset().contains(y) && s.to_multiset().contains(y));
        assert(s.contains(y));
        assert(t.contains(x));
        if x != y {
            let i = choose|i: int| 0 <= i < s.len() && s[i] == y;
            let m = choose|m: int| 0 <= m < t.len() && t[m] == x;
            assert(!precedes(order, s[s.len() - 1], s[i]));
            assert(!precedes(order, t[t.len() - 1], t[m]));
            assert(level(order, x, y));
        }
        let a = s.drop_last();
        let b = t.drop_last();
        assert(a.push(x) =~= s);
        assert(b.push(y) =~= t);
        assert(a.to_multiset() =~= s.to_multiset().remove(x));
        assert(b.to_multiset() =~= t.to_multiset().remove(y));
        assert forall|p: Tile| #[trigger] a.contains(p) implies s.contains(p) by {
            let k = choose|k: int| 0 <= k < a.len() && a[k] == p;
            assert(s[k] == p);
        }
        lemma_one_row_in_order(order, a, b);
    } else {
        assert(s =~= t);
    }
}

/// What sorting gives does not depend on the turn in which the tiles come, where
/// the order tells them apart.
pub proof fn sorting_ignores_the_turn(order: TileOrder, a: Seq<Tile>, b: Seq<Tile>)
    requires
        a.to_multiset() == b.to_multiset(),
        tells_apart(order, a),
    ensures
        sort_tiles(order, a) == sort_tiles(order, b),
{
    sorting_orders(order, a);
    sorting_orders(order, b);
    sorting_permutes(order, a);
    sorting_permutes(order, b);
    assert forall|x: Tile, y: Tile|
        #[trigger] sort_tiles(order, a).contains(x) && #[trigger] sort_tiles(order, a).contains(y)
            && level(order, x, y) implies x == y by {
        sorting_keeps_members(order, a, x);
        sorting_keeps_members(order, a, y);
    }
    lemma_one_row_in_order(order, sort_tiles(order, a), sort_tiles(order, b));
}

/// Inserting puts the tile behind the tiles that it is level with.
proof fn lemma_insert_stable(order: TileOrder, sorted: Seq<Tile>, tile: Tile, like: Tile)
    ensures
        insert_tile(order, sorted, tile).filter(|t: Tile| level(order, t, like))
            == sorted.push(tile).filter(|t: Tile| level(order, t, like)),
    decreases sorted.len(),
{
    let keep = |t: Tile| level(order, t, like);
    sorted.lemma_filter_push(tile, keep);
    if sorted.len() > 0 && precedes(order, tile, sorted.last()) {
        let front = sorted.drop_last();
        let last = sorted.last();
        lemma_insert_stable(order, front, tile, like);
        front.lemma_filter_push(tile, keep);
        front.lemma_filter_push(last, keep);
        insert_tile(order, front, tile).lemma_filter_push(last, keep);
        assert(front.push(last) =~= sorted);
    }
}

/// Sorting is stable: the tiles that are level with a given one come out in
/// the turn in which they went in.
pub proof fn sorting_is_stable(order: TileOrder, tiles: Seq<Tile>, like: Tile)
    ensures
        sort_tiles(order, tiles).filter(|t: Tile| level(order, t, like)) == tiles.filter(
            |t: Tile| level(order, t, like),
        ),
    decreases tiles.len(),
{
    if tiles.len() > 0 {
        let keep = |t: Tile| level(order, t, like);
        let front = tiles.drop_last();
        let last = tiles.last();
        sorting_is_stable(order, front, like);
        lemma_insert_stable(order, sort_tiles(order, front), last, like);
        sort_tiles(order, front).lemma_filter_push(last, keep);
        front.lemma_filter_push(last, keep);
        assert(front.push(last) =~= tiles);
    }
}

/// Where the insertion point is known, inserting is plain insertion.
proof fn lemma_insert_at(order: TileOrder, sorted: Seq<Tile>, tile: Tile, at: int)
    requires
        0 <= at <= sorted.len(),
        forall|i: int| at <= i < sorted.len() ==> precedes(order, tile, #[trigger] sorted[i]),
        at > 0 ==> !precedes(order, tile, sorted[at - 1]),
    ensures
        insert_tile(order, sorted, tile) == sorted.insert(at, tile),
    decreases sorted.len(),
{
    if at == sorted.len() {
        assert(sorted.insert(at, tile) =~= sorted.push(tile));
    } else {
        let front = sorted.drop_last();
        assert(precedes(order, tile, sorted[sorted.len() - 1]));
        lemma_insert_at(order, front, tile, at);
        assert(sorted.insert(at, tile) =~= front.insert(at, tile).push(sorted.last()));
    }
}

/// Decides whether `a` has to stand before `b`.
pub fn comes_before(order: TileOrder, a: &Tile, b: &Tile) -> (before: bool)
    ensures
        before == precedes(order, *a, *b),
{
    match order {
        TileOrder::Row => a.row < b.row,
        TileOrder::Position => a.column < b.column || (a.column == b.column && a.row < b.row),
        TileOrder::Unstack => a.column < b.column || (a.column == b.column && a.row > b.row),
    }
}

/// Sorts `tiles` by insertion.
pub fn sort_by_order(order: TileOrder, tiles: &Vec<Tile>) -> (sorted: Vec<Tile>)
    ensures
        sorted@ == sort_tiles(order, tiles@),
{
    let mut sorted: Vec<Tile> = Vec::new();
    let mut i: usize = 0;
    assert(tiles@.take(0) =~= Seq::<Tile>::empty());
    while i < tiles.len()
        invariant
            i <= tiles.len(),
            sorted@ == sort_tiles(order, tiles@.take(i as int)),
        decreases tiles.len() - i,
    {
        let tile: Tile = tiles[i];
        let mut at: usize = sorted.len();
        while at > 0 && comes_before(order, &tile, &sorted[at - 1])
            invariant
                at <= sorted.len(),
                forall|k: int|
                    at <= k < sorted.len() ==> precedes(order, tile, #[trigger] sorted@[k]),
            decreases at,
        {
            at = at - 1;
        }
        proof {
            lemma_insert_at(order, sorted@, tile, at as int);
            assert(tiles@.take(i + 1).drop_last() =~= tiles@.take(i as int));
            assert(tiles@.take(i + 1).last() == tile);
        }
        sorted.insert(at, tile);
        i = i + 1;
    }
    assert(tiles@.take(i as int) =~= tiles@);
    sorted
}

} // verus!
