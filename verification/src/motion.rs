//! What requests do to the columns of a workspace, and where the master-stack
//! layout leaves its windows.

use vstd::prelude::*;

verus! {

use crate::arrangement::{
    begins_at_the_top,
    ids,
    lemma_reading_order,
    lemma_stacked,
    lined_up,
    lower_ones,
    reading,
};
use crate::master_stack::{
    couple_actions,
    first_focused,
    focus_actions,
    focus_ids,
    group_actions,
    group_end,
    groups_before,
    lemma_first_focused,
    lemma_place_of,
    master_stack_actions,
    stack_actions,
    tiles_in_reading_order,
    unstack_actions,
    without_repeats,
};
use crate::model::{Action, SizeChange, Tile, Window};

// ---------------------------------------------------------------------------
// Columns of window ids, and what the compositor makes of a request
// ---------------------------------------------------------------------------

/// The column that holds the window.
pub open spec fn column_with(columns: Seq<Seq<u64>>, id: u64) -> int {
    choose|c: int| 0 <= c < columns.len() && (#[trigger] columns[c]).contains(id)
}

/// The columns after a request. A window that shares its column leaves it for a
/// column of its own next to it; a window that has its column to itself joins the
/// next column at the bottom. Other requests move nothing.
pub open spec fn moved(columns: Seq<Seq<u64>>, action: Action) -> Seq<Seq<u64>> {
    match action {
        Action::ConsumeOrExpelWindowRight { id } => {
            let c = column_with(columns, id);
            let rest = columns[c].remove(columns[c].index_of(id));
            if columns[c].len() > 1 {
                columns.update(c, rest).insert(c + 1, seq![id])
            } else if c + 1 < columns.len() {
                columns.update(c + 1, columns[c + 1].push(id)).remove(c)
            } else {
                columns
            }
        },
        Action::ConsumeOrExpelWindowLeft { id } => {
            let c = column_with(columns, id);
            let rest = columns[c].remove(columns[c].index_of(id));
            if columns[c].len() > 1 {
                columns.update(c, rest).insert(c, seq![id])
            } else if c > 0 {
                columns.update(c - 1, columns[c - 1].push(id)).remove(c)
            } else {
                columns
            }
        },
        _ => columns,
    }
}

/// The columns after all requests, one behind the other.
pub open spec fn after_all(columns: Seq<Seq<u64>>, actions: Seq<Action>) -> Seq<Seq<u64>>
    decreases actions.len(),
{
    if actions.len() == 0 {
        columns
    } else {
        after_all(moved(columns, actions.first()), actions.drop_first())
    }
}

/// A column for each window.
pub open spec fn apart(windows: Seq<u64>) -> Seq<Seq<u64>> {
    windows.map_values(|id: u64| seq![id])
}

/// The windows of one group in columns: a column of one, and one of the other two;
/// where there is no third, a column for each.
pub open spec fn in_group(group: Seq<u64>) -> Seq<Seq<u64>> {
    if group.len() == 3 {
        seq![seq![group[0]], seq![group[1], group[2]]]
    } else {
        apart(group)
    }
}

/// Windows in groups of three, column by column.
pub open spec fn in_groups(windows: Seq<u64>) -> Seq<Seq<u64>>
    decreases windows.len(),
{
    if windows.len() == 0 {
        Seq::empty()
    } else {
        let start = windows.len() - 1 - (windows.len() - 1) % 3;
        in_groups(windows.take(start)) + in_group(windows.skip(start))
    }
}

/// Where the master-stack layout means to have the windows: four of them in two
/// columns of two, any other number in groups of three.
pub open spec fn master_stack(windows: Seq<u64>) -> Seq<Seq<u64>> {
    if windows.len() == 4 {
        seq![seq![windows[0], windows[1]], seq![windows[2], windows[3]]]
    } else {
        in_groups(windows)
    }
}

// ---------------------------------------------------------------------------
// Single steps
// ---------------------------------------------------------------------------

proof fn lemma_after_both(columns: Seq<Seq<u64>>, a: Seq<Action>, b: Seq<Action>)
    ensures
        after_all(columns, a + b) == after_all(after_all(columns, a), b),
    decreases a.len(),
{
    if a.len() == 0 {
        assert(a + b =~= b);
    } else {
        assert((a + b).first() == a.first());
        assert((a + b).drop_first() =~= a.drop_first() + b);
        lemma_after_both(moved(columns, a.first()), a.drop_first(), b);
    }
}

proof fn lemma_flat_holds(columns: Seq<Seq<u64>>, c: int, id: u64)
    requires
        0 <= c < columns.len(),
        columns[c].contains(id),
    ensures
        columns.flatten().contains(id),
    decreases columns.len(),
{
    let first = columns.first();
    let rest = columns.drop_first();
    if c == 0 {
        let k = choose|k: int| 0 <= k < first.len() && first[k] == id;
        assert(columns.flatten()[k] == id);
    } else {
        assert(rest[c - 1] == columns[c]);
        lemma_flat_holds(rest, c - 1, id);
        let k = choose|k: int| 0 <= k < rest.flatten().len() && rest.flatten()[k] == id;
        assert(columns.flatten()[first.len() + k] == id);
    }
}

proof fn lemma_flat_parts(a: Seq<Seq<u64>>, column: Seq<u64>, b: Seq<Seq<u64>>)
    ensures
        (a + seq![column] + b).flatten() == a.flatten() + column + b.flatten(),
{
    vstd::seq_lib::lemma_flatten_concat(a + seq![column], b);
    vstd::seq_lib::lemma_flatten_concat(a, seq![column]);
    seq![column].lemma_flatten_one_element();
}

/// A window that is listed once is in one column, and once in it.
proof fn lemma_found(a: Seq<Seq<u64>>, column: Seq<u64>, b: Seq<Seq<u64>>, k: int)
    requires
        0 <= k < column.len(),
        (a + seq![column] + b).flatten().no_duplicates(),
    ensures
        column_with(a + seq![column] + b, column[k]) == a.len(),
        column.index_of(column[k]) == k,
{
    let all = a + seq![column] + b;
    let flat = all.flatten();
    let id = column[k];
    lemma_flat_parts(a, column, b);
    assert(all[a.len() as int] == column);
    assert(column.contains(id));
    assert(flat[a.flatten().len() + k] == id);
    let c = column_with(all, id);
    assert(0 <= c < all.len() && all[c].contains(id));
    if c < a.len() {
        assert(a[c].contains(id));
        lemma_flat_holds(a, c, id);
        let m = choose|m: int| 0 <= m < a.flatten().len() && a.flatten()[m] == id;
        assert(flat[m] == id);
    } else if c > a.len() {
        assert(b[c - a.len() - 1].contains(id));
        lemma_flat_holds(b, c - a.len() - 1, id);
        let m = choose|m: int| 0 <= m < b.flatten().len() && b.flatten()[m] == id;
        assert(flat[a.flatten().len() + column.len() + m] == id);
    }
    let i = column.index_of(id);
    assert(0 <= i < column.len() && column[i] == id);
    assert(flat[a.flatten().len() + i] == id);
}

/// The lowest window of a column leaves it for a column at its right.
proof fn lemma_leaves(a: Seq<Seq<u64>>, upper: Seq<u64>, id: u64, b: Seq<Seq<u64>>)
    requires
        upper.len() > 0,
        (a + seq![upper.push(id)] + b).flatten().no_duplicates(),
    ensures
        moved(a + seq![upper.push(id)] + b, Action::ConsumeOrExpelWindowRight { id }) == a + seq![
            upper,
        ] + (seq![seq![id]] + b),
        (a + seq![upper] + (seq![seq![id]] + b)).flatten() == (a + seq![upper.push(id)]
            + b).flatten(),
{
    let column = upper.push(id);
    let all = a + seq![column] + b;
    lemma_found(a, column, b, upper.len() as int);
    assert(all[a.len() as int] == column);
    assert(column.remove(upper.len() as int) =~= upper);
    assert(all.update(a.len() as int, upper).insert(a.len() as int + 1, seq![id]) =~= a + seq![
        upper,
    ] + (seq![seq![id]] + b));
    lemma_flat_parts(a, column, b);
    lemma_flat_parts(a, upper, seq![seq![id]] + b);
    vstd::seq_lib::lemma_flatten_concat(seq![seq![id]], b);
    seq![seq![id]].lemma_flatten_one_element();
    assert(a.flatten() + column + b.flatten() =~= a.flatten() + upper + (seq![id] + b.flatten()));
}

/// A window alone in its column joins a column of one at its left.
proof fn lemma_joins(a: Seq<Seq<u64>>, top: u64, id: u64, b: Seq<Seq<u64>>)
    requires
        (a + seq![seq![top], seq![id]] + b).flatten().no_duplicates(),
    ensures
        moved(a + seq![seq![top], seq![id]] + b, Action::ConsumeOrExpelWindowLeft { id }) == a
            + seq![seq![top, id]] + b,
        (a + seq![seq![top, id]] + b).flatten() == (a + seq![seq![top], seq![id]] + b).flatten(),
{
    let one = seq![id];
    let all = a + seq![seq![top], one] + b;
    let left = a + seq![seq![top]];
    assert(all =~= left + seq![one] + b);
    lemma_found(left, one, b, 0);
    assert(all[left.len() as int] == one);
    assert(all[a.len() as int] == seq![top]);
    assert(seq![top].push(id) =~= seq![top, id]);
    assert(all.update(a.len() as int, seq![top, id]).remove(left.len() as int) =~= a + seq![
        seq![top, id],
    ] + b);
    lemma_flat_parts(left, one, b);
    vstd::seq_lib::lemma_flatten_concat(a, seq![seq![top]]);
    seq![seq![top]].lemma_flatten_one_element();
    lemma_flat_parts(a, seq![top, id], b);
    assert(a.flatten() + seq![top] + one + b.flatten() =~= a.flatten() + seq![top, id]
        + b.flatten());
}

// ---------------------------------------------------------------------------
// Taking the columns apart
// ---------------------------------------------------------------------------

/// The windows of a column below its topmost one, from the bottom upwards.
spec fn climb(column: Seq<u64>) -> Seq<u64> {
    column.skip(1).reverse()
}

/// Sends each window to the right.
spec fn rights(windows: Seq<u64>) -> Seq<Action> {
    windows.map_values(|id: u64| Action::ConsumeOrExpelWindowRight { id })
}

proof fn lemma_column_falls_apart(a: Seq<Seq<u64>>, column: Seq<u64>, b: Seq<Seq<u64>>)
    requires
        column.len() > 0,
        (a + seq![column] + b).flatten().no_duplicates(),
    ensures
        after_all(a + seq![column] + b, rights(climb(column))) == a + apart(column) + b,
    decreases column.len(),
{
    let acts = rights(climb(column));
    if column.len() == 1 {
        assert(acts =~= Seq::<Action>::empty());
        assert(apart(column) =~= seq![column]) by {
            assert(seq![column[0]] =~= column);
        }
    } else {
        let upper = column.drop_last();
        let id = column.last();
        let tail = seq![seq![id]] + b;
        assert(upper.push(id) =~= column);
        lemma_leaves(a, upper, id, b);
        assert(climb(column) =~= seq![id] + climb(upper));
        assert(acts.first() == (Action::ConsumeOrExpelWindowRight { id }));
        assert(acts.drop_first() =~= rights(climb(upper)));
        lemma_column_falls_apart(a, upper, tail);
        assert(a + apart(upper) + tail =~= a + apart(column) + b);
    }
}

/// The columns as ids.
pub open spec fn id_columns(shape: Seq<Seq<Window>>) -> Seq<Seq<u64>> {
    shape.map_values(|column: Seq<Window>| ids(column))
}

proof fn lemma_flat_ids(shape: Seq<Seq<Window>>)
    ensures
        id_columns(shape).flatten() == ids(reading(shape)),
    decreases shape.len(),
{
    if shape.len() > 0 {
        let rest = shape.drop_first();
        lemma_flat_ids(rest);
        assert(id_columns(shape).first() == ids(shape.first()));
        assert(id_columns(shape).drop_first() =~= id_columns(rest));
        assert(ids(reading(shape)) =~= ids(shape.first()) + ids(reading(rest)));
    } else {
        assert(id_columns(shape).flatten() =~= ids(reading(shape)));
    }
}

proof fn lemma_all_fall_apart(shape: Seq<Seq<Window>>, b: Seq<Seq<u64>>)
    requires
        forall|c: int| 0 <= c < shape.len() ==> (#[trigger] shape[c]).len() > 0,
        (id_columns(shape) + b).flatten().no_duplicates(),
    ensures
        after_all(id_columns(shape) + b, rights(ids(lower_ones(shape)))) == apart(
            ids(reading(shape)),
        ) + b,
        (apart(ids(reading(shape))) + b).flatten() == (id_columns(shape) + b).flatten(),
    decreases shape.len(),
{
    lemma_flat_ids(shape);
    lemma_apart_is_flat(ids(reading(shape)));
    vstd::seq_lib::lemma_flatten_concat(apart(ids(reading(shape))), b);
    vstd::seq_lib::lemma_flatten_concat(id_columns(shape), b);
    if shape.len() > 0 {
        let front = shape.drop_last();
        let last = ids(shape.last());
        let tail = seq![last] + b;
        let before = apart(ids(reading(front)));
        assert(shape[shape.len() - 1].len() > 0);
        assert(id_columns(shape) + b =~= id_columns(front) + tail);
        assert forall|c: int| 0 <= c < front.len() implies (#[trigger] front[c]).len() > 0 by {
            assert(shape[c].len() > 0);
        }
        lemma_all_fall_apart(front, tail);
        assert(before + tail =~= before + seq![last] + b);
        lemma_column_falls_apart(before, last, b);
        assert(ids(lower_ones(shape)) =~= ids(lower_ones(front)) + climb(last));
        assert(rights(ids(lower_ones(shape))) =~= rights(ids(lower_ones(front))) + rights(
            climb(last),
        ));
        lemma_after_both(
            id_columns(shape) + b,
            rights(ids(lower_ones(front))),
            rights(climb(last)),
        );
        shape.drop_last().lemma_flatten_push(shape.last());
        assert(front.push(shape.last()) =~= shape);
        assert(ids(reading(shape)) =~= ids(reading(front)) + last);
        assert(apart(ids(reading(shape))) =~= before + apart(last));
    } else {
        assert(rights(ids(lower_ones(shape))) =~= Seq::<Action>::empty());
        assert(id_columns(shape) =~= Seq::<Seq<u64>>::empty());
        assert(apart(ids(reading(shape))) =~= Seq::<Seq<u64>>::empty());
    }
}

proof fn lemma_apart_is_flat(windows: Seq<u64>)
    ensures
        apart(windows).flatten() == windows,
    decreases windows.len(),
{
    if windows.len() > 0 {
        let rest = windows.drop_first();
        lemma_apart_is_flat(rest);
        assert(apart(windows).drop_first() =~= apart(rest));
        assert(apart(windows).flatten() =~= windows);
    } else {
        assert(apart(windows).flatten() =~= windows);
    }
}

// ---------------------------------------------------------------------------
// Regrouping
// ---------------------------------------------------------------------------

/// The request moves no window from one column to another.
spec fn moves_nothing(action: Action) -> bool {
    !(action is ConsumeOrExpelWindowLeft) && !(action is ConsumeOrExpelWindowRight)
}

proof fn lemma_nothing_moves(columns: Seq<Seq<u64>>, actions: Seq<Action>)
    requires
        forall|i: int| 0 <= i < actions.len() ==> moves_nothing(#[trigger] actions[i]),
    ensures
        after_all(columns, actions) == columns,
    decreases actions.len(),
{
    if actions.len() > 0 {
        assert(moves_nothing(actions[0]));
        let rest = actions.drop_first();
        assert forall|i: int| 0 <= i < rest.len() implies moves_nothing(#[trigger] rest[i]) by {
            assert(moves_nothing(actions[i + 1]));
        }
        lemma_nothing_moves(columns, rest);
    }
}

/// Requests one of which sends a window to the left join it to the window before.
proof fn lemma_one_joins(
    a: Seq<Seq<u64>>,
    top: u64,
    id: u64,
    b: Seq<Seq<u64>>,
    actions: Seq<Action>,
    at: int,
)
    requires
        (a + seq![seq![top], seq![id]] + b).flatten().no_duplicates(),
        0 <= at < actions.len(),
        actions[at] == (Action::ConsumeOrExpelWindowLeft { id }),
        forall|i: int|
            0 <= i < actions.len() && i != at ==> moves_nothing(#[trigger] actions[i]),
    ensures
        after_all(a + seq![seq![top], seq![id]] + b, actions) == a + seq![seq![top, id]] + b,
        (a + seq![seq![top, id]] + b).flatten() == (a + seq![seq![top], seq![id]] + b).flatten(),
{
    let all = a + seq![seq![top], seq![id]] + b;
    let before = actions.take(at);
    let rest = actions.skip(at);
    assert(before + rest =~= actions);
    assert forall|i: int| 0 <= i < before.len() implies moves_nothing(#[trigger] before[i]) by {
        assert(moves_nothing(actions[i]));
    }
    let later = rest.drop_first();
    assert forall|i: int| 0 <= i < later.len() implies moves_nothing(#[trigger] later[i]) by {
        assert(later[i] == actions[at + 1 + i]);
    }
    lemma_after_both(all, before, rest);
    lemma_nothing_moves(all, before);
    assert(rest.first() == actions[at]);
    lemma_joins(a, top, id, b);
    lemma_nothing_moves(a + seq![seq![top, id]] + b, later);
}

proof fn lemma_in_groups_back(windows: Seq<u64>, start: int)
    requires
        0 <= start < windows.len() <= start + 3,
        start % 3 == 0,
    ensures
        in_groups(windows) == in_groups(windows.take(start)) + in_group(windows.skip(start)),
{
    assert((windows.len() - 1) % 3 == windows.len() - 1 - start);
}

proof fn lemma_groups_move(tiles: Seq<Tile>, windows: Seq<u64>, end: int)
    requires
        tiles.len() == windows.len(),
        forall|i: int| 0 <= i < tiles.len() ==> (#[trigger] tiles[i]).id == windows[i],
        windows.no_duplicates(),
        0 <= end <= tiles.len(),
        end % 3 == 0 || end == tiles.len(),
    ensures
        after_all(apart(windows), groups_before(tiles, end)) == in_groups(windows.take(end))
            + apart(windows.skip(end)),
        (in_groups(windows.take(end)) + apart(windows.skip(end))).flatten() == windows,
    decreases end,
{
    lemma_apart_is_flat(windows);
    if end <= 0 {
        assert(windows.take(end) =~= Seq::<u64>::empty());
        assert(windows.skip(end) =~= windows);
        assert(in_groups(windows.take(end)) + apart(windows.skip(end)) =~= apart(windows));
    } else {
        let start = (end - 1) / 3 * 3;
        let last = group_end(start, tiles.len() as int);
        assert(last == end);
        let group = tiles.subrange(start, end);
        let mine = windows.subrange(start, end);
        let a = in_groups(windows.take(start));
        let b = apart(windows.skip(end));
        let acts = group_actions(group);
        lemma_groups_move(tiles, windows, start);
        lemma_after_both(apart(windows), groups_before(tiles, start), acts);
        lemma_in_groups_back(windows.take(end), start);
        assert(windows.take(end).take(start) =~= windows.take(start));
        assert(windows.take(end).skip(start) =~= mine);
        assert forall|i: int| 0 <= i < group.len() implies (#[trigger] group[i]).id == mine[i] by {
            assert(tiles[start + i].id == windows[start + i]);
        }
        let state = a + apart(windows.skip(start));
        assert(apart(windows.skip(start)) =~= apart(mine) + b);
        assert(state =~= a + apart(mine) + b);
        if end - start == 3 {
            assert(apart(mine) =~= seq![seq![mine[0]]] + seq![seq![mine[1]], seq![mine[2]]]);
            let left = a + seq![seq![mine[0]]];
            assert(state =~= left + seq![seq![mine[1]], seq![mine[2]]] + b);
            lemma_one_joins(left, mine[1], mine[2], b, acts, 2);
            assert(left + seq![seq![mine[1], mine[2]]] + b =~= a + in_group(mine) + b);
        } else {
            lemma_nothing_moves(state, acts);
        }
    }
}

proof fn lemma_focus_moves_nothing(windows: Seq<Window>, tiles: Seq<Tile>)
    ensures
        forall|i: int|
            0 <= i < focus_actions(windows, tiles).len() ==> moves_nothing(
                #[trigger] focus_actions(windows, tiles)[i],
            ),
{
}

/// Carrying the master-stack layout out, from whatever columns the windows stand
/// in, brings them in reading order into the columns that the layout means: four
/// windows into two columns of two, any other number into groups of three.
pub proof fn stack_ends_in_its_columns(
    windows: Seq<Window>,
    workspace_id: u64,
    shape: Seq<Seq<Window>>,
)
    requires
        lined_up(windows, workspace_id, shape),
        begins_at_the_top(shape),
        ids(reading(shape)).no_duplicates(),
    ensures
        after_all(id_columns(shape), master_stack_actions(windows, workspace_id)) == master_stack(
            ids(reading(shape)),
        ),
{
    let tiles = tiles_in_reading_order(windows, workspace_id);
    let all = ids(reading(shape));
    let start = id_columns(shape);
    let actions = stack_actions(windows, tiles);
    let first = unstack_actions(tiles);
    lemma_reading_order(windows, workspace_id, shape);
    lemma_stacked(windows, workspace_id, shape);
    lemma_flat_ids(shape);
    lemma_apart_is_flat(all);
    assert(first =~= rights(ids(lower_ones(shape))));
    assert(start + Seq::<Seq<u64>>::empty() =~= start);
    assert(apart(all) + Seq::<Seq<u64>>::empty() =~= apart(all));
    lemma_all_fall_apart(shape, Seq::empty());
    assert(after_all(start, first) == apart(all));
    assert forall|i: int| 0 <= i < tiles.len() implies (#[trigger] tiles[i]).id == all[i] by {}
    let none = Seq::<Seq<u64>>::empty();
    if all.len() == 0 {
        assert(shape.len() == 0) by {
            if shape.len() > 0 {
                assert(shape[0].len() > 0);
                assert(reading(shape).len() >= shape[0].len());
            }
        }
        assert(start =~= none);
        assert(actions =~= Seq::<Action>::empty());
    } else if all.len() == 1 {
        lemma_lone_column(shape);
        lemma_nothing_moves(start, actions);
        lemma_in_groups_back(all, 0);
        assert(all.take(0) =~= Seq::<u64>::empty());
        assert(all.skip(0) =~= all);
        assert(apart(all) =~= seq![seq![all[0]]]);
        assert(in_groups(all) =~= start) by {
            assert(start[0] =~= seq![all[0]]);
        }
    } else if all.len() == 2 {
        let rest = actions.skip(first.len() as int);
        assert(actions =~= first + rest);
        lemma_after_both(start, first, rest);
        lemma_nothing_moves(apart(all), rest);
        lemma_in_groups_back(all, 0);
        assert(all.take(0) =~= Seq::<u64>::empty());
        assert(all.skip(0) =~= all);
        assert(in_groups(all) =~= apart(all));
    } else if all.len() == 3 {
        let rest = actions.skip(first.len() as int);
        assert(actions =~= first + rest);
        lemma_after_both(start, first, rest);
        let a = seq![seq![all[0]]];
        assert(apart(all) =~= a + seq![seq![all[1]], seq![all[2]]] + none);
        assert(rest[3] == (Action::ConsumeOrExpelWindowLeft { id: all[2] }));
        lemma_one_joins(a, all[1], all[2], none, rest, 3);
        lemma_in_groups_back(all, 0);
        assert(all.take(0) =~= Seq::<u64>::empty());
        assert(all.skip(0) =~= all);
        assert(in_groups(all) =~= a + seq![seq![all[1], all[2]]] + none);
    } else if all.len() == 4 {
        let one = couple_actions(tiles[0].id, tiles[1].id);
        let two = couple_actions(tiles[2].id, tiles[3].id);
        assert(actions =~= first + (one + two));
        lemma_after_both(start, first, one + two);
        lemma_after_both(apart(all), one, two);
        let b = seq![seq![all[2]], seq![all[3]]];
        assert(apart(all) =~= none + seq![seq![all[0]], seq![all[1]]] + b);
        lemma_one_joins(none, all[0], all[1], b, one, 1);
        let a = seq![seq![all[0], all[1]]];
        assert(none + seq![seq![all[0], all[1]]] + b =~= a + b + none);
        lemma_one_joins(a, all[2], all[3], none, two, 1);
        assert(a + seq![seq![all[2], all[3]]] + none =~= master_stack(all));
    } else {
        let groups = groups_before(tiles, tiles.len() as int);
        let focus = focus_actions(windows, tiles);
        lemma_after_both(start, first + groups, focus);
        lemma_after_both(start, first, groups);
        lemma_groups_move(tiles, all, tiles.len() as int);
        assert(all.take(tiles.len() as int) =~= all);
        assert(apart(all.skip(tiles.len() as int)) =~= none);
        assert(in_groups(all) + none =~= in_groups(all));
        lemma_focus_moves_nothing(windows, tiles);
        lemma_nothing_moves(in_groups(all), focus);
    }
}

/// One window stands in one column.
proof fn lemma_lone_column(shape: Seq<Seq<Window>>)
    requires
        forall|c: int| 0 <= c < shape.len() ==> (#[trigger] shape[c]).len() > 0,
        reading(shape).len() == 1,
    ensures
        id_columns(shape) == seq![ids(reading(shape))],
{
    let first = shape.first();
    let rest = shape.drop_first();
    assert(shape[0].len() > 0);
    if rest.len() > 0 {
        assert(shape[1].len() > 0);
        assert(rest[0] == shape[1]);
        assert(rest.flatten().len() >= rest[0].len());
    }
    assert(rest.flatten() =~= Seq::<Window>::empty());
    assert(reading(shape) =~= first);
    assert(id_columns(shape) =~= seq![ids(first)]);
}

// ---------------------------------------------------------------------------
// What is asked for, request by request
// ---------------------------------------------------------------------------

/// The topmost window of each column.
pub open spec fn tops(columns: Seq<Seq<u64>>) -> Seq<u64> {
    columns.map_values(|column: Seq<u64>| column[0])
}

/// The columns that hold two windows.
pub open spec fn pairs(columns: Seq<Seq<u64>>) -> Seq<Seq<u64>> {
    columns.filter(|column: Seq<u64>| column.len() == 2)
}

/// The lower window of each column.
pub open spec fn bottoms(columns: Seq<Seq<u64>>) -> Seq<u64> {
    columns.map_values(|column: Seq<u64>| column[1])
}

/// Asks for that share of the width for each window.
pub open spec fn asks_width(windows: Seq<u64>, percent: u32) -> Seq<Action> {
    windows.map_values(
        |id: u64| Action::SetWindowWidth { id, change: SizeChange::SetProportion(percent) },
    )
}

/// Asks for the automatic height of each window.
pub open spec fn asks_reset(windows: Seq<u64>) -> Seq<Action> {
    windows.map_values(|id: u64| Action::ResetWindowHeight { id })
}

/// Sends each window to the left.
pub open spec fn asks_left(windows: Seq<u64>) -> Seq<Action> {
    windows.map_values(|id: u64| Action::ConsumeOrExpelWindowLeft { id })
}

/// Sends each window to the right.
pub open spec fn asks_right(windows: Seq<u64>) -> Seq<Action> {
    windows.map_values(|id: u64| Action::ConsumeOrExpelWindowRight { id })
}

/// The requests that set a width.
pub open spec fn width_requests(actions: Seq<Action>) -> Seq<Action> {
    actions.filter(|a: Action| a is SetWindowWidth)
}

/// The requests that reset a height.
pub open spec fn reset_requests(actions: Seq<Action>) -> Seq<Action> {
    actions.filter(|a: Action| a is ResetWindowHeight)
}

/// The requests that set a height.
pub open spec fn height_requests(actions: Seq<Action>) -> Seq<Action> {
    actions.filter(|a: Action| a is SetWindowHeight)
}

/// The requests that send a window to the left.
pub open spec fn left_requests(actions: Seq<Action>) -> Seq<Action> {
    actions.filter(|a: Action| a is ConsumeOrExpelWindowLeft)
}

/// The requests that send a window to the right.
pub open spec fn right_requests(actions: Seq<Action>) -> Seq<Action> {
    actions.filter(|a: Action| a is ConsumeOrExpelWindowRight)
}

/// The requests that move the focus.
pub open spec fn focus_requests(actions: Seq<Action>) -> Seq<Action> {
    actions.filter(|a: Action| a is FocusWindow)
}

/// Requests sorted by what they ask for.
struct Sorted {
    widths: Seq<Action>,
    resets: Seq<Action>,
    heights: Seq<Action>,
    lefts: Seq<Action>,
    rights: Seq<Action>,
    focus: Seq<Action>,
    centred: Seq<Action>,
}

#[verifier::opaque]
spec fn sorted(actions: Seq<Action>) -> Sorted {
    Sorted {
        widths: width_requests(actions),
        resets: reset_requests(actions),
        heights: height_requests(actions),
        lefts: left_requests(actions),
        rights: right_requests(actions),
        focus: focus_requests(actions),
        centred: actions.filter(|a: Action| a is CenterVisibleColumns),
    }
}

spec fn joined(a: Sorted, b: Sorted) -> Sorted {
    Sorted {
        widths: a.widths + b.widths,
        resets: a.resets + b.resets,
        heights: a.heights + b.heights,
        lefts: a.lefts + b.lefts,
        rights: a.rights + b.rights,
        focus: a.focus + b.focus,
        centred: a.centred + b.centred,
    }
}

spec fn nothing() -> Sorted {
    Sorted {
        widths: Seq::empty(),
        resets: Seq::empty(),
        heights: Seq::empty(),
        lefts: Seq::empty(),
        rights: Seq::empty(),
        focus: Seq::empty(),
        centred: Seq::empty(),
    }
}

proof fn lemma_sorted_fields(actions: Seq<Action>)
    ensures
        sorted(actions).widths == width_requests(actions),
        sorted(actions).resets == reset_requests(actions),
        sorted(actions).heights == height_requests(actions),
        sorted(actions).lefts == left_requests(actions),
        sorted(actions).rights == right_requests(actions),
        sorted(actions).focus == focus_requests(actions),
{
    reveal(sorted);
}

proof fn lemma_sorted_parts(a: Seq<Action>, b: Seq<Action>)
    ensures
        sorted(a + b) == joined(sorted(a), sorted(b)),
{
    reveal(sorted);
    Seq::filter_distributes_over_add(a, b, |a: Action| a is SetWindowWidth);
    Seq::filter_distributes_over_add(a, b, |a: Action| a is ResetWindowHeight);
    Seq::filter_distributes_over_add(a, b, |a: Action| a is SetWindowHeight);
    Seq::filter_distributes_over_add(a, b, |a: Action| a is ConsumeOrExpelWindowLeft);
    Seq::filter_distributes_over_add(a, b, |a: Action| a is ConsumeOrExpelWindowRight);
    Seq::filter_distributes_over_add(a, b, |a: Action| a is FocusWindow);
    Seq::filter_distributes_over_add(a, b, |a: Action| a is CenterVisibleColumns);
}

proof fn lemma_sorted_push(a: Seq<Action>, x: Action)
    ensures
        sorted(a.push(x)) == ({
            let s = sorted(a);
            match x {
                Action::SetWindowWidth { .. } => Sorted { widths: s.widths.push(x), ..s },
                Action::ResetWindowHeight { .. } => Sorted { resets: s.resets.push(x), ..s },
                Action::SetWindowHeight { .. } => Sorted { heights: s.heights.push(x), ..s },
                Action::ConsumeOrExpelWindowLeft { .. } => Sorted { lefts: s.lefts.push(x), ..s },
                Action::ConsumeOrExpelWindowRight { .. } => Sorted {
                    rights: s.rights.push(x),
                    ..s
                },
                Action::FocusWindow { .. } => Sorted { focus: s.focus.push(x), ..s },
                Action::CenterVisibleColumns => Sorted { centred: s.centred.push(x), ..s },
            }
        }),
{
    reveal(sorted);
    a.lemma_filter_push(x, |a: Action| a is SetWindowWidth);
    a.lemma_filter_push(x, |a: Action| a is ResetWindowHeight);
    a.lemma_filter_push(x, |a: Action| a is SetWindowHeight);
    a.lemma_filter_push(x, |a: Action| a is ConsumeOrExpelWindowLeft);
    a.lemma_filter_push(x, |a: Action| a is ConsumeOrExpelWindowRight);
    a.lemma_filter_push(x, |a: Action| a is FocusWindow);
    a.lemma_filter_push(x, |a: Action| a is CenterVisibleColumns);
}

proof fn lemma_sorted_none()
    ensures
        sorted(Seq::empty()) == nothing(),
{
    reveal(sorted);
    reveal(Seq::filter);
}

/// What a group of at most three asks for.
proof fn lemma_sorted_group(group: Seq<Tile>, mine: Seq<u64>)
    requires
        0 < group.len() <= 3,
        group.len() == mine.len(),
        forall|i: int| 0 <= i < group.len() ==> (#[trigger] group[i]).id == mine[i],
    ensures
        sorted(group_actions(group)) == (Sorted {
            widths: asks_width(tops(in_group(mine)), 50),
            resets: asks_reset(pairs(in_group(mine)).flatten()),
            lefts: asks_left(bottoms(pairs(in_group(mine)))),
            ..nothing()
        }),
{
    let none = Seq::<Action>::empty();
    let w = |k: int| -> Action
        { Action::SetWindowWidth { id: mine[k], change: SizeChange::SetProportion(50) } };
    lemma_sorted_none();
    assert(group[0].id == mine[0]);
    let s1 = none.push(w(0));
    lemma_sorted_push(none, w(0));
    lemma_pairs_of_group(mine);
    let got = sorted(group_actions(group));
    if group.len() == 1 {
        assert(group_actions(group) =~= s1);
        assert(got.widths =~= asks_width(tops(in_group(mine)), 50));
        assert(got.resets =~= asks_reset(pairs(in_group(mine)).flatten()));
        assert(got.lefts =~= asks_left(bottoms(pairs(in_group(mine)))));
    } else {
        assert(group[1].id == mine[1]);
        let s2 = s1.push(w(1));
        lemma_sorted_push(s1, w(1));
        if group.len() == 2 {
            assert(group_actions(group) =~= s2);
            assert(got.widths =~= asks_width(tops(in_group(mine)), 50));
            assert(got.resets =~= asks_reset(pairs(in_group(mine)).flatten()));
            assert(got.lefts =~= asks_left(bottoms(pairs(in_group(mine)))));
        } else {
            assert(group[2].id == mine[2]);
            let l = Action::ConsumeOrExpelWindowLeft { id: mine[2] };
            let r = Action::ResetWindowHeight { id: mine[1] };
            let q = Action::ResetWindowHeight { id: mine[2] };
            let s3 = s2.push(l);
            let s4 = s3.push(r);
            let s5 = s4.push(q);
            lemma_sorted_push(s2, l);
            lemma_sorted_push(s3, r);
            lemma_sorted_push(s4, q);
            assert(group_actions(group) =~= s5);
            assert(got.widths =~= asks_width(tops(in_group(mine)), 50));
            assert(got.resets =~= asks_reset(pairs(in_group(mine)).flatten()));
            assert(got.lefts =~= asks_left(bottoms(pairs(in_group(mine)))));
        }
    }
}

proof fn lemma_pairs_of_group(mine: Seq<u64>)
    requires
        0 < mine.len() <= 3,
    ensures
        mine.len() == 3 ==> pairs(in_group(mine)) == seq![seq![mine[1], mine[2]]]
            && pairs(in_group(mine)).flatten() == seq![mine[1], mine[2]],
        mine.len() < 3 ==> pairs(in_group(mine)) == Seq::<Seq<u64>>::empty()
            && pairs(in_group(mine)).flatten() == Seq::<u64>::empty(),
{
    let none = Seq::<Seq<u64>>::empty();
    let two = |column: Seq<u64>| column.len() == 2;
    reveal(Seq::filter);
    assert(none.filter(two) =~= none);
    if mine.len() == 3 {
        let a = none.push(seq![mine[0]]);
        let b = a.push(seq![mine[1], mine[2]]);
        none.lemma_filter_push(seq![mine[0]], two);
        a.lemma_filter_push(seq![mine[1], mine[2]], two);
        assert(in_group(mine) =~= b);
        assert(pairs(in_group(mine)) =~= seq![seq![mine[1], mine[2]]]);
        seq![seq![mine[1], mine[2]]].lemma_flatten_one_element();
    } else if mine.len() == 2 {
        let a = none.push(seq![mine[0]]);
        let b = a.push(seq![mine[1]]);
        none.lemma_filter_push(seq![mine[0]], two);
        a.lemma_filter_push(seq![mine[1]], two);
        assert(in_group(mine) =~= b);
    } else {
        let a = none.push(seq![mine[0]]);
        none.lemma_filter_push(seq![mine[0]], two);
        assert(in_group(mine) =~= a);
    }
}

proof fn lemma_sorted_groups(tiles: Seq<Tile>, windows: Seq<u64>, end: int)
    requires
        tiles.len() == windows.len(),
        forall|i: int| 0 <= i < tiles.len() ==> (#[trigger] tiles[i]).id == windows[i],
        0 <= end <= tiles.len(),
        end % 3 == 0 || end == tiles.len(),
    ensures
        sorted(groups_before(tiles, end)) == ({
            let columns = in_groups(windows.take(end));
            Sorted {
                widths: asks_width(tops(columns), 50),
                resets: asks_reset(pairs(columns).flatten()),
                lefts: asks_left(bottoms(pairs(columns))),
                ..nothing()
            }
        }),
    decreases end,
{
    let columns = in_groups(windows.take(end));
    let two = |column: Seq<u64>| column.len() == 2;
    let got = sorted(groups_before(tiles, end));
    if end <= 0 {
        lemma_sorted_none();
        reveal(Seq::filter);
        assert(columns =~= Seq::<Seq<u64>>::empty());
        assert(pairs(columns) =~= Seq::<Seq<u64>>::empty());
        assert(got.widths =~= asks_width(tops(columns), 50));
        assert(got.resets =~= asks_reset(pairs(columns).flatten()));
        assert(got.lefts =~= asks_left(bottoms(pairs(columns))));
    } else {
        let start = (end - 1) / 3 * 3;
        assert(group_end(start, tiles.len() as int) == end);
        let group = tiles.subrange(start, end);
        let mine = windows.subrange(start, end);
        let before = in_groups(windows.take(start));
        lemma_sorted_groups(tiles, windows, start);
        lemma_in_groups_back(windows.take(end), start);
        assert(windows.take(end).take(start) =~= windows.take(start));
        assert(windows.take(end).skip(start) =~= mine);
        assert forall|i: int| 0 <= i < group.len() implies (#[trigger] group[i]).id == mine[i] by {
            assert(tiles[start + i].id == windows[start + i]);
        }
        lemma_sorted_group(group, mine);
        lemma_sorted_parts(groups_before(tiles, start), group_actions(group));
        Seq::filter_distributes_over_add(before, in_group(mine), two);
        vstd::seq_lib::lemma_flatten_concat(pairs(before), pairs(in_group(mine)));
        assert(columns == before + in_group(mine));
        assert(got.widths =~= asks_width(tops(columns), 50));
        assert(got.resets =~= asks_reset(pairs(columns).flatten()));
        assert(got.lefts =~= asks_left(bottoms(pairs(columns))));
        assert(got.heights =~= Seq::<Action>::empty());
        assert(got.rights =~= Seq::<Action>::empty());
        assert(got.focus =~= Seq::<Action>::empty());
        assert(got.centred =~= Seq::<Action>::empty());
    }
}

proof fn lemma_sorted_rights(windows: Seq<u64>)
    ensures
        sorted(asks_right(windows)) == (Sorted { rights: asks_right(windows), ..nothing() }),
    decreases windows.len(),
{
    lemma_sorted_none();
    if windows.len() > 0 {
        let front = windows.drop_last();
        let last = Action::ConsumeOrExpelWindowRight { id: windows.last() };
        lemma_sorted_rights(front);
        lemma_sorted_push(asks_right(front), last);
        assert(asks_right(windows) =~= asks_right(front).push(last));
    } else {
        assert(asks_right(windows) =~= Seq::<Action>::empty());
    }
}

proof fn lemma_sorted_focus(windows: Seq<u64>)
    ensures
        ({
            let actions = windows.map_values(|id: u64| Action::FocusWindow { id });
            sorted(actions) == (Sorted { focus: actions, ..nothing() })
        }),
    decreases windows.len(),
{
    let actions = windows.map_values(|id: u64| Action::FocusWindow { id });
    lemma_sorted_none();
    if windows.len() > 0 {
        let front = windows.drop_last();
        let before = front.map_values(|id: u64| Action::FocusWindow { id });
        let last = Action::FocusWindow { id: windows.last() };
        lemma_sorted_focus(front);
        lemma_sorted_push(before, last);
        assert(actions =~= before.push(last));
    } else {
        assert(actions =~= Seq::<Action>::empty());
    }
}

/// What the master-stack layout asks for, whatever columns the windows stand in.
/// Every window below another is sent to the right, once, and before anything
/// else. The topmost window of every column that the layout means gets its share
/// of the width, and no other does; the lower window of every column of two is
/// sent to the left. Up to four windows all get their automatic height, of more
/// those in columns of two. No height is set, and the focus is moved only where
/// there are more than four windows.
pub proof fn stack_asks_for_its_columns(
    windows: Seq<Window>,
    workspace_id: u64,
    shape: Seq<Seq<Window>>,
)
    requires
        lined_up(windows, workspace_id, shape),
        begins_at_the_top(shape),
    ensures
        ({
            let actions = master_stack_actions(windows, workspace_id);
            let all = ids(reading(shape));
            let columns = master_stack(all);
            let lower = ids(lower_ones(shape));
            &&& width_requests(actions) == asks_width(
                tops(columns),
                if all.len() == 1 {
                    100
                } else {
                    50
                },
            )
            &&& reset_requests(actions) == asks_reset(
                if all.len() <= 4 {
                    all
                } else {
                    pairs(columns).flatten()
                },
            )
            &&& left_requests(actions) == asks_left(bottoms(pairs(columns)))
            &&& right_requests(actions) == asks_right(lower)
            &&& actions.len() >= lower.len() && actions.take(lower.len() as int) == asks_right(
                lower,
            )
            &&& height_requests(actions) == Seq::<Action>::empty()
            &&& all.len() <= 4 ==> focus_requests(actions) == Seq::<Action>::empty()
        }),
{
    let tiles = tiles_in_reading_order(windows, workspace_id);
    let all = ids(reading(shape));
    let actions = stack_actions(windows, tiles);
    let lower = ids(lower_ones(shape));
    lemma_reading_order(windows, workspace_id, shape);
    lemma_stacked(windows, workspace_id, shape);
    assert(unstack_actions(tiles) =~= asks_right(lower));
    assert forall|i: int| 0 <= i < tiles.len() implies (#[trigger] tiles[i]).id == all[i] by {}
    if all.len() == 0 {
        lemma_no_columns(shape);
        lemma_stack_of_none(windows, tiles, all, lower);
    } else if all.len() == 1 {
        lemma_lone_column(shape);
        lemma_no_lower_ones(shape);
        lemma_stack_of_one(windows, tiles, all, lower);
    } else {
        lemma_stack_of_more(windows, tiles, all, lower);
    }
    lemma_sorted_fields(actions);
}

/// The requests sorted, and those that come first.
spec fn stack_goal(actions: Seq<Action>, all: Seq<u64>, lower: Seq<u64>) -> bool {
    let got = sorted(actions);
    let columns = master_stack(all);
    &&& got.widths == asks_width(
        tops(columns),
        if all.len() == 1 {
            100
        } else {
            50
        },
    )
    &&& got.resets == reset_goal(all)
    &&& got.lefts == asks_left(bottoms(pairs(columns)))
    &&& got.rights == asks_right(lower)
    &&& actions.len() >= lower.len() && actions.take(lower.len() as int) == asks_right(lower)
    &&& got.heights == Seq::<Action>::empty()
    &&& all.len() <= 4 ==> got.focus == Seq::<Action>::empty()
}

proof fn lemma_stack_of_none(
    windows: Seq<Window>,
    tiles: Seq<Tile>,
    all: Seq<u64>,
    lower: Seq<u64>,
)
    requires
        tiles.len() == 0,
        all.len() == 0,
        lower.len() == 0,
    ensures
        stack_goal(stack_actions(windows, tiles), all, lower),
{
    let none = Seq::<Action>::empty();
    let columns = master_stack(all);
    let actions = stack_actions(windows, tiles);
    lemma_sorted_none();
    assert(actions =~= none);
    assert(columns =~= Seq::<Seq<u64>>::empty());
    lemma_no_pairs(columns);
    assert(none =~= asks_width(tops(columns), 50));
    assert(none =~= reset_goal(all));
    assert(none =~= asks_left(bottoms(pairs(columns))));
    assert(none =~= asks_right(lower));
    assert(actions.take(0) =~= none);
}

proof fn lemma_stack_of_one(windows: Seq<Window>, tiles: Seq<Tile>, all: Seq<u64>, lower: Seq<u64>)
    requires
        tiles.len() == 1,
        all.len() == 1,
        tiles[0].id == all[0],
        lower.len() == 0,
    ensures
        stack_goal(stack_actions(windows, tiles), all, lower),
{
    let none = Seq::<Action>::empty();
    let columns = master_stack(all);
    let actions = stack_actions(windows, tiles);
    let w = Action::SetWindowWidth { id: all[0], change: SizeChange::SetProportion(100) };
    let r = Action::ResetWindowHeight { id: all[0] };
    lemma_sorted_none();
    lemma_sorted_push(none, w);
    lemma_sorted_push(none.push(w), r);
    assert(actions =~= none.push(w).push(r));
    lemma_in_groups_back(all, 0);
    assert(all.take(0) =~= Seq::<u64>::empty());
    assert(all.skip(0) =~= all);
    assert(columns =~= in_group(all));
    lemma_pairs_of_group(all);
    let got = sorted(actions);
    assert(got.widths =~= asks_width(tops(columns), 100));
    assert(got.resets =~= reset_goal(all));
    assert(got.lefts =~= asks_left(bottoms(pairs(columns))));
    assert(got.rights =~= asks_right(lower));
    assert(actions.take(0) =~= asks_right(lower));
}

proof fn lemma_stack_of_more(windows: Seq<Window>, tiles: Seq<Tile>, all: Seq<u64>, lower: Seq<u64>)
    requires
        tiles.len() == all.len(),
        all.len() >= 2,
        forall|i: int| 0 <= i < tiles.len() ==> (#[trigger] tiles[i]).id == all[i],
        unstack_actions(tiles) == asks_right(lower),
    ensures
        stack_goal(stack_actions(windows, tiles), all, lower),
{
    let actions = stack_actions(windows, tiles);
    let first = unstack_actions(tiles);
    let rest = actions.skip(first.len() as int);
    if all.len() <= 3 {
        lemma_sorted_rest_two_three(windows, tiles, all);
    } else if all.len() == 4 {
        lemma_sorted_rest_four(windows, tiles, all);
    } else {
        lemma_sorted_rest_many(windows, tiles, all);
    }
    lemma_goal_from_rest(actions, rest, all, lower);
}

proof fn lemma_goal_from_rest(
    actions: Seq<Action>,
    rest: Seq<Action>,
    all: Seq<u64>,
    lower: Seq<u64>,
)
    requires
        actions.len() >= lower.len(),
        actions.take(lower.len() as int) == asks_right(lower),
        rest == actions.skip(lower.len() as int),
        asks_for(rest, all),
        all.len() >= 2,
    ensures
        stack_goal(actions, all, lower),
{
    let first = asks_right(lower);
    let none = Seq::<Action>::empty();
    assert(first + rest =~= actions);
    lemma_sorted_rights(lower);
    lemma_sorted_parts(first, rest);
    let want = sorted(rest);
    assert(none + want.widths =~= want.widths);
    assert(none + want.resets =~= want.resets);
    assert(none + want.lefts =~= want.lefts);
    assert(none + want.heights =~= want.heights);
    assert(none + want.focus =~= want.focus);
    assert(first + want.rights =~= first);
}

spec fn reset_goal(all: Seq<u64>) -> Seq<Action> {
    asks_reset(
        if all.len() <= 4 {
            all
        } else {
            pairs(master_stack(all)).flatten()
        },
    )
}

/// What follows on taking the columns apart asks for the columns that are meant.
spec fn asks_for(rest: Seq<Action>, all: Seq<u64>) -> bool {
    let got = sorted(rest);
    let columns = master_stack(all);
    &&& got.widths == asks_width(tops(columns), 50)
    &&& got.resets == reset_goal(all)
    &&& got.lefts == asks_left(bottoms(pairs(columns)))
    &&& got.rights == Seq::<Action>::empty()
    &&& got.heights == Seq::<Action>::empty()
    &&& all.len() <= 4 ==> got.focus == Seq::<Action>::empty()
}

spec fn wide(id: u64) -> Action {
    Action::SetWindowWidth { id, change: SizeChange::SetProportion(50) }
}

proof fn lemma_sorted_rest_two_three(windows: Seq<Window>, tiles: Seq<Tile>, all: Seq<u64>)
    requires
        tiles.len() == all.len(),
        all.len() == 2 || all.len() == 3,
        forall|i: int| 0 <= i < tiles.len() ==> (#[trigger] tiles[i]).id == all[i],
    ensures
        asks_for(stack_actions(windows, tiles).skip(unstack_actions(tiles).len() as int), all),
        stack_actions(windows, tiles).len() >= unstack_actions(tiles).len(),
        stack_actions(windows, tiles).take(unstack_actions(tiles).len() as int)
            == unstack_actions(tiles),
{
    let none = Seq::<Action>::empty();
    let actions = stack_actions(windows, tiles);
    let first = unstack_actions(tiles);
    let rest = actions.skip(first.len() as int);
    let columns = master_stack(all);
    let r = |k: int| -> Action { Action::ResetWindowHeight { id: all[k] } };
    assert(tiles[0].id == all[0] && tiles[1].id == all[1]);
    lemma_sorted_none();
    lemma_in_groups_back(all, 0);
    assert(all.take(0) =~= Seq::<u64>::empty());
    assert(all.skip(0) =~= all);
    assert(columns =~= in_group(all));
    lemma_pairs_of_group(all);
    let s1 = none.push(wide(all[0]));
    let s2 = s1.push(r(0));
    let s3 = s2.push(wide(all[1]));
    lemma_sorted_push(none, wide(all[0]));
    lemma_sorted_push(s1, r(0));
    lemma_sorted_push(s2, wide(all[1]));
    assert(actions.take(first.len() as int) =~= first);
    if all.len() == 2 {
        lemma_sorted_push(s3, r(1));
        assert(rest =~= s3.push(r(1)));
    } else {
        assert(tiles[2].id == all[2]);
        let l = Action::ConsumeOrExpelWindowLeft { id: all[2] };
        let s4 = s3.push(l);
        let s5 = s4.push(r(1));
        lemma_sorted_push(s3, l);
        lemma_sorted_push(s4, r(1));
        lemma_sorted_push(s5, r(2));
        assert(rest =~= s5.push(r(2)));
    }
    let got = sorted(rest);
    assert(got.widths =~= asks_width(tops(columns), 50));
    assert(got.resets =~= reset_goal(all));
    assert(got.lefts =~= asks_left(bottoms(pairs(columns))));
}

proof fn lemma_sorted_rest_four(windows: Seq<Window>, tiles: Seq<Tile>, all: Seq<u64>)
    requires
        tiles.len() == all.len(),
        all.len() == 4,
        forall|i: int| 0 <= i < tiles.len() ==> (#[trigger] tiles[i]).id == all[i],
    ensures
        asks_for(stack_actions(windows, tiles).skip(unstack_actions(tiles).len() as int), all),
        stack_actions(windows, tiles).len() >= unstack_actions(tiles).len(),
        stack_actions(windows, tiles).take(unstack_actions(tiles).len() as int)
            == unstack_actions(tiles),
{
    let none = Seq::<Action>::empty();
    let actions = stack_actions(windows, tiles);
    let first = unstack_actions(tiles);
    let rest = actions.skip(first.len() as int);
    let columns = master_stack(all);
    let r = |k: int| -> Action { Action::ResetWindowHeight { id: all[k] } };
    let l = |k: int| -> Action { Action::ConsumeOrExpelWindowLeft { id: all[k] } };
    assert(tiles[0].id == all[0] && tiles[1].id == all[1]);
    assert(tiles[2].id == all[2] && tiles[3].id == all[3]);
    let s1 = none.push(wide(all[0]));
    let s2 = s1.push(l(1));
    let s3 = s2.push(r(0));
    let s4 = s3.push(r(1));
    let s5 = s4.push(wide(all[2]));
    let s6 = s5.push(l(3));
    let s7 = s6.push(r(2));
    lemma_sorted_none();
    lemma_sorted_push(none, wide(all[0]));
    lemma_sorted_push(s1, l(1));
    lemma_sorted_push(s2, r(0));
    lemma_sorted_push(s3, r(1));
    lemma_sorted_push(s4, wide(all[2]));
    lemma_sorted_push(s5, l(3));
    lemma_sorted_push(s6, r(2));
    lemma_sorted_push(s7, r(3));
    assert(actions.take(first.len() as int) =~= first);
    assert(rest =~= s7.push(r(3)));
    lemma_all_pairs(all);
    let got = sorted(rest);
    assert(got.widths =~= asks_width(tops(columns), 50));
    assert(got.resets =~= reset_goal(all));
    assert(got.lefts =~= asks_left(bottoms(pairs(columns))));
}

proof fn lemma_sorted_rest_many(windows: Seq<Window>, tiles: Seq<Tile>, all: Seq<u64>)
    requires
        tiles.len() == all.len(),
        all.len() > 4,
        forall|i: int| 0 <= i < tiles.len() ==> (#[trigger] tiles[i]).id == all[i],
    ensures
        asks_for(stack_actions(windows, tiles).skip(unstack_actions(tiles).len() as int), all),
        sorted(
            stack_actions(windows, tiles).skip(unstack_actions(tiles).len() as int),
        ).focus == focus_actions(windows, tiles),
        stack_actions(windows, tiles).len() >= unstack_actions(tiles).len(),
        stack_actions(windows, tiles).take(unstack_actions(tiles).len() as int)
            == unstack_actions(tiles),
{
    let actions = stack_actions(windows, tiles);
    let first = unstack_actions(tiles);
    let rest = actions.skip(first.len() as int);
    let columns = master_stack(all);
    let groups = groups_before(tiles, tiles.len() as int);
    let focus = focus_actions(windows, tiles);
    assert(actions.take(first.len() as int) =~= first);
    assert(rest =~= groups + focus);
    lemma_sorted_parts(groups, focus);
    lemma_sorted_groups(tiles, all, tiles.len() as int);
    assert(all.take(tiles.len() as int) =~= all);
    lemma_focus_is_focus(windows, tiles);
    let got = sorted(rest);
    assert(got.widths =~= asks_width(tops(columns), 50));
    assert(got.resets =~= reset_goal(all));
    assert(got.lefts =~= asks_left(bottoms(pairs(columns))));
    assert(got.rights =~= Seq::<Action>::empty());
    assert(got.heights =~= Seq::<Action>::empty());
    assert(got.focus =~= focus);
}

proof fn lemma_focus_is_focus(windows: Seq<Window>, tiles: Seq<Tile>)
    ensures
        sorted(focus_actions(windows, tiles)) == (Sorted {
            focus: focus_actions(windows, tiles),
            ..nothing()
        }),
{
    lemma_sorted_none();
    match first_focused(windows) {
        Some(focused) => {
            lemma_sorted_focus(focus_ids(tiles, focused));
        },
        None => {},
    }
}

proof fn lemma_no_columns(shape: Seq<Seq<Window>>)
    requires
        forall|c: int| 0 <= c < shape.len() ==> (#[trigger] shape[c]).len() > 0,
        reading(shape).len() == 0,
    ensures
        shape.len() == 0,
{
    if shape.len() > 0 {
        assert(shape[0].len() > 0);
        assert(reading(shape).len() >= shape[0].len());
    }
}

proof fn lemma_no_lower_ones(shape: Seq<Seq<Window>>)
    requires
        id_columns(shape).len() == 1,
        ids(shape[0]).len() == 1,
    ensures
        lower_ones(shape) == Seq::<Window>::empty(),
{
    assert(lower_ones(shape.drop_last()) =~= Seq::<Window>::empty());
    assert(shape.last() == shape[0]);
    assert(shape.last().skip(1).reverse() =~= Seq::<Window>::empty());
}

proof fn lemma_no_pairs(columns: Seq<Seq<u64>>)
    requires
        columns.len() == 0,
    ensures
        pairs(columns) == Seq::<Seq<u64>>::empty(),
{
    reveal(Seq::filter);
    assert(columns =~= Seq::<Seq<u64>>::empty());
}

proof fn lemma_all_pairs(all: Seq<u64>)
    requires
        all.len() == 4,
    ensures
        pairs(master_stack(all)) == master_stack(all),
{
    let none = Seq::<Seq<u64>>::empty();
    let two = |column: Seq<u64>| column.len() == 2;
    let a = none.push(seq![all[0], all[1]]);
    lemma_no_pairs(none);
    none.lemma_filter_push(seq![all[0], all[1]], two);
    a.lemma_filter_push(seq![all[2], all[3]], two);
    assert(master_stack(all) =~= a.push(seq![all[2], all[3]]));
}

// ---------------------------------------------------------------------------
// The focus
// ---------------------------------------------------------------------------

/// Gives each window the focus in turn.
pub open spec fn asks_focus(windows: Seq<u64>) -> Seq<Action> {
    windows.map_values(|id: u64| Action::FocusWindow { id })
}

/// The first of the windows that has the focus.
pub open spec fn has_focus(windows: Seq<Window>, at: int) -> bool {
    &&& 0 <= at < windows.len()
    &&& windows[at].is_focused
    &&& forall|i: int| 0 <= i < at ==> !(#[trigger] windows[i]).is_focused
}

/// Where more than four windows are tiled and the focused window is one of them,
/// the first two windows of its group get the focus in turn, and last the window
/// that had it; a window is not given the focus twice in a row.
pub proof fn stack_shows_the_group_of_the_focus(
    windows: Seq<Window>,
    workspace_id: u64,
    shape: Seq<Seq<Window>>,
    at: int,
    place: int,
)
    requires
        lined_up(windows, workspace_id, shape),
        begins_at_the_top(shape),
        ids(reading(shape)).no_duplicates(),
        reading(shape).len() > 4,
        has_focus(windows, at),
        0 <= place < reading(shape).len(),
        reading(shape)[place].id == windows[at].id,
    ensures
        ({
            let all = ids(reading(shape));
            focus_requests(master_stack_actions(windows, workspace_id)) == asks_focus(
                if place % 3 == 2 {
                    seq![all[place - 2], all[place - 1], all[place]]
                } else if place % 3 == 1 {
                    seq![all[place - 1], all[place]]
                } else if place + 1 < all.len() {
                    seq![all[place], all[place + 1], all[place]]
                } else {
                    seq![all[place]]
                },
            )
        }),
{
    let all = ids(reading(shape));
    let tiles = tiles_in_reading_order(windows, workspace_id);
    let focused = windows[at].id;
    lemma_reading_order(windows, workspace_id, shape);
    assert forall|i: int| 0 <= i < tiles.len() implies (#[trigger] tiles[i]).id == all[i] by {}
    assert(all[place] == focused);
    lemma_first_focused(windows, at);
    lemma_place_of(tiles, focused, place);
    reveal_with_fuel(without_repeats, 4);
    let start = place / 3 * 3;
    assert(tiles[start].id == all[start]);
    let wanted = if place % 3 == 2 {
        seq![all[place - 2], all[place - 1], all[place]]
    } else if place % 3 == 1 {
        seq![all[place - 1], all[place]]
    } else if place + 1 < all.len() {
        seq![all[place], all[place + 1], all[place]]
    } else {
        seq![all[place]]
    };
    if start + 1 < all.len() {
        assert(tiles[start + 1].id == all[start + 1]);
        let row = seq![tiles[start].id, tiles[start + 1].id, focused];
        assert(row.drop_last() =~= seq![all[start], all[start + 1]]);
        assert(row.drop_last().drop_last() =~= seq![all[start]]);
        assert(all[start] != all[start + 1]);
        assert(without_repeats(row) =~= wanted);
    } else {
        let row = seq![tiles[start].id, focused];
        assert(row.drop_last() =~= seq![all[start]]);
        assert(without_repeats(row) =~= wanted);
    }
    assert(focus_actions(windows, tiles) =~= asks_focus(wanted));
    lemma_focus_of_stack(windows, workspace_id, shape);
}

/// Where no window has the focus, or the one that has it is not tiled on the
/// workspace, the focus is not moved.
pub proof fn stack_leaves_other_focus_alone(
    windows: Seq<Window>,
    workspace_id: u64,
    shape: Seq<Seq<Window>>,
)
    requires
        lined_up(windows, workspace_id, shape),
        begins_at_the_top(shape),
        forall|at: int, k: int|
            has_focus(windows, at) && 0 <= k < reading(shape).len() ==> (#[trigger] reading(
                shape,
            )[k]).id != (#[trigger] windows[at]).id,
    ensures
        focus_requests(master_stack_actions(windows, workspace_id)) == Seq::<Action>::empty(),
{
    let all = ids(reading(shape));
    let tiles = tiles_in_reading_order(windows, workspace_id);
    lemma_reading_order(windows, workspace_id, shape);
    if all.len() <= 4 {
        stack_asks_for_its_columns(windows, workspace_id, shape);
    } else {
        match first_focused(windows) {
            Some(focused) => {
                let at = lemma_focus_found(windows);
                assert forall|i: int| 0 <= i < tiles.len() implies (#[trigger] tiles[i]).id
                    != focused by {
                    assert(reading(shape)[i].id != windows[at].id);
                }
                lemma_place_of(tiles, focused, tiles.len() as int);
                assert(focus_actions(windows, tiles) =~= Seq::<Action>::empty());
            },
            None => {},
        }
        lemma_focus_of_stack(windows, workspace_id, shape);
    }
}

proof fn lemma_focus_found(windows: Seq<Window>) -> (at: int)
    requires
        first_focused(windows) is Some,
    ensures
        has_focus(windows, at),
        first_focused(windows) == Some(windows[at].id),
    decreases windows.len(),
{
    if windows[0].is_focused {
        0
    } else {
        let rest = windows.drop_first();
        let k = lemma_focus_found(rest);
        assert forall|i: int| 0 <= i < k + 1 implies !(#[trigger] windows[i]).is_focused by {
            if i > 0 {
                assert(rest[i - 1] == windows[i]);
            }
        }
        assert(rest[k] == windows[k + 1]);
        k + 1
    }
}

proof fn lemma_focus_of_stack(windows: Seq<Window>, workspace_id: u64, shape: Seq<Seq<Window>>)
    requires
        lined_up(windows, workspace_id, shape),
        begins_at_the_top(shape),
        reading(shape).len() > 4,
    ensures
        focus_requests(master_stack_actions(windows, workspace_id)) == focus_actions(
            windows,
            tiles_in_reading_order(windows, workspace_id),
        ),
{
    let all = ids(reading(shape));
    let tiles = tiles_in_reading_order(windows, workspace_id);
    let actions = stack_actions(windows, tiles);
    let first = unstack_actions(tiles);
    let rest = actions.skip(first.len() as int);
    let lower = ids(lower_ones(shape));
    lemma_reading_order(windows, workspace_id, shape);
    lemma_stacked(windows, workspace_id, shape);
    assert(first =~= asks_right(lower));
    lemma_sorted_rest_many(windows, tiles, all);
    assert(first + rest =~= actions) by {
        assert(actions.take(first.len() as int) == first);
    }
    lemma_sorted_rights(lower);
    lemma_sorted_parts(first, rest);
    assert(Seq::<Action>::empty() + sorted(rest).focus =~= sorted(rest).focus);
    lemma_sorted_fields(actions);
}

// ---------------------------------------------------------------------------
// The turn of the requests
// ---------------------------------------------------------------------------

/// The requests for `n` windows in groups of three: the first two windows of a
/// group get half the width each, the third joins the second, and these two get
/// their automatic height. Each whole group takes five requests, and what is left
/// over one for each window.
pub open spec fn group_by_group(requests: Seq<Action>, windows: Seq<u64>) -> bool {
    let whole = windows.len() as int / 3;
    let left = windows.len() as int % 3;
    &&& requests.len() == 5 * whole + left
    &&& forall|g: int|
        #![trigger windows[3 * g]]
        0 <= g < whole ==> {
            &&& requests[5 * g] == (Action::SetWindowWidth {
                id: windows[3 * g],
                change: SizeChange::SetProportion(50),
            })
            &&& requests[5 * g + 1] == (Action::SetWindowWidth {
                id: windows[3 * g + 1],
                change: SizeChange::SetProportion(50),
            })
            &&& requests[5 * g + 2] == (Action::ConsumeOrExpelWindowLeft {
                id: windows[3 * g + 2],
            })
            &&& requests[5 * g + 3] == (Action::ResetWindowHeight { id: windows[3 * g + 1] })
            &&& requests[5 * g + 4] == (Action::ResetWindowHeight { id: windows[3 * g + 2] })
        }
    &&& forall|k: int|
        0 <= k < left ==> #[trigger] requests[5 * whole + k] == (Action::SetWindowWidth {
            id: windows[3 * whole + k],
            change: SizeChange::SetProportion(50),
        })
}

proof fn lemma_group_by_group(tiles: Seq<Tile>, windows: Seq<u64>, end: int)
    requires
        tiles.len() == windows.len(),
        forall|i: int| 0 <= i < tiles.len() ==> (#[trigger] tiles[i]).id == windows[i],
        0 <= end <= tiles.len(),
        end % 3 == 0 || end == tiles.len(),
    ensures
        group_by_group(groups_before(tiles, end), windows.take(end)),
    decreases end,
{
    let all = groups_before(tiles, end);
    let mine = windows.take(end);
    if end > 0 {
        let start = (end - 1) / 3 * 3;
        assert(group_end(start, tiles.len() as int) == end);
        let group = tiles.subrange(start, end);
        let before = groups_before(tiles, start);
        let acts = group_actions(group);
        let m = start / 3;
        lemma_group_by_group(tiles, windows, start);
        assert(before.len() == 5 * m);
        assert(all == before + acts);
        assert forall|i: int| 0 <= i < group.len() implies (#[trigger] group[i]).id == windows[start
            + i] by {
            assert(tiles[start + i].id == windows[start + i]);
        }
        let front = windows.take(start);
        let whole = end / 3;
        assert forall|g: int|
            #![trigger mine[3 * g]]
            0 <= g < whole implies {
            &&& all[5 * g] == (Action::SetWindowWidth {
                id: mine[3 * g],
                change: SizeChange::SetProportion(50),
            })
            &&& all[5 * g + 1] == (Action::SetWindowWidth {
                id: mine[3 * g + 1],
                change: SizeChange::SetProportion(50),
            })
            &&& all[5 * g + 2] == (Action::ConsumeOrExpelWindowLeft { id: mine[3 * g + 2] })
            &&& all[5 * g + 3] == (Action::ResetWindowHeight { id: mine[3 * g + 1] })
            &&& all[5 * g + 4] == (Action::ResetWindowHeight { id: mine[3 * g + 2] })
        } by {
            if g < m {
                assert(front[3 * g] == windows[3 * g]);
                assert(before[5 * g] == all[5 * g]);
                assert(before[5 * g + 1] == all[5 * g + 1]);
                assert(before[5 * g + 2] == all[5 * g + 2]);
                assert(before[5 * g + 3] == all[5 * g + 3]);
                assert(before[5 * g + 4] == all[5 * g + 4]);
            } else {
                assert(g == m && end == start + 3);
                assert(group[0].id == windows[start]);
                assert(group[1].id == windows[start + 1]);
                assert(group[2].id == windows[start + 2]);
                assert(all[5 * g] == acts[0]);
                assert(all[5 * g + 1] == acts[1]);
                assert(all[5 * g + 2] == acts[2]);
                assert(all[5 * g + 3] == acts[3]);
                assert(all[5 * g + 4] == acts[4]);
            }
        }
        let left = end % 3;
        assert forall|k: int| 0 <= k < left implies #[trigger] all[5 * whole + k] == (
        Action::SetWindowWidth {
            id: mine[3 * whole + k],
            change: SizeChange::SetProportion(50),
        }) by {
            assert(whole == m);
            assert(group[k].id == windows[start + k]);
            assert(all[5 * whole + k] == acts[k]);
        }
    }
}

/// More than four windows are taken apart first, then brought into groups of
/// three, group by group from left to right, and the focus moves last.
pub proof fn many_windows_go_group_by_group(
    windows: Seq<Window>,
    workspace_id: u64,
    shape: Seq<Seq<Window>>,
)
    requires
        lined_up(windows, workspace_id, shape),
        begins_at_the_top(shape),
        reading(shape).len() > 4,
    ensures
        ({
            let actions = master_stack_actions(windows, workspace_id);
            let all = ids(reading(shape));
            let apart = lower_ones(shape).len() as int;
            let grouped = apart + 5 * (all.len() as int / 3) + all.len() as int % 3;
            &&& actions.take(apart) == asks_right(ids(lower_ones(shape)))
            &&& apart <= grouped <= actions.len()
            &&& group_by_group(actions.subrange(apart, grouped), all)
            &&& forall|i: int|
                grouped <= i < actions.len() ==> #[trigger] actions[i] is FocusWindow
        }),
{
    let tiles = tiles_in_reading_order(windows, workspace_id);
    let all = ids(reading(shape));
    let actions = stack_actions(windows, tiles);
    let first = unstack_actions(tiles);
    let lower = ids(lower_ones(shape));
    let groups = groups_before(tiles, tiles.len() as int);
    let focus = focus_actions(windows, tiles);
    lemma_reading_order(windows, workspace_id, shape);
    lemma_stacked(windows, workspace_id, shape);
    assert(first =~= asks_right(lower));
    assert forall|i: int| 0 <= i < tiles.len() implies (#[trigger] tiles[i]).id == all[i] by {}
    lemma_group_by_group(tiles, all, tiles.len() as int);
    assert(all.take(tiles.len() as int) =~= all);
    let apart = first.len() as int;
    let grouped = apart + groups.len();
    assert(actions.take(apart) =~= first);
    assert(actions.subrange(apart, grouped) =~= groups);
    assert forall|i: int| grouped <= i < actions.len() implies #[trigger] actions[i] is FocusWindow by {
        assert(actions[i] == focus[i - grouped]);
    }
}

/// Up to four windows, once taken apart, are asked for in this turn: one window
/// gets the whole width; each of two gets half of it; of three the first stands
/// alone and the third joins the second; of four the second joins the first and
/// the fourth the third.
pub proof fn few_windows_go_in_turn(
    windows: Seq<Window>,
    workspace_id: u64,
    shape: Seq<Seq<Window>>,
)
    requires
        lined_up(windows, workspace_id, shape),
        begins_at_the_top(shape),
        reading(shape).len() <= 4,
    ensures
        ({
            let actions = master_stack_actions(windows, workspace_id);
            let rest = actions.skip(lower_ones(shape).len() as int);
            let all = ids(reading(shape));
            let half = |k: int|
                Action::SetWindowWidth { id: all[k], change: SizeChange::SetProportion(50) };
            let join = |k: int| Action::ConsumeOrExpelWindowLeft { id: all[k] };
            let reset = |k: int| Action::ResetWindowHeight { id: all[k] };
            &&& actions.take(lower_ones(shape).len() as int) == asks_right(ids(lower_ones(shape)))
            &&& all.len() == 0 ==> rest == Seq::<Action>::empty()
            &&& all.len() == 1 ==> rest == seq![
                Action::SetWindowWidth { id: all[0], change: SizeChange::SetProportion(100) },
                reset(0),
            ]
            &&& all.len() == 2 ==> rest == seq![half(0), reset(0), half(1), reset(1)]
            &&& all.len() == 3 ==> rest == seq![
                half(0),
                reset(0),
                half(1),
                join(2),
                reset(1),
                reset(2),
            ]
            &&& all.len() == 4 ==> rest == seq![
                half(0),
                join(1),
                reset(0),
                reset(1),
                half(2),
                join(3),
                reset(2),
                reset(3),
            ]
        }),
{
    let tiles = tiles_in_reading_order(windows, workspace_id);
    let all = ids(reading(shape));
    let actions = stack_actions(windows, tiles);
    let lower = ids(lower_ones(shape));
    let n = lower.len() as int;
    let rest = actions.skip(n);
    lemma_reading_order(windows, workspace_id, shape);
    lemma_stacked(windows, workspace_id, shape);
    assert(unstack_actions(tiles) =~= asks_right(lower));
    assert forall|i: int| 0 <= i < tiles.len() implies (#[trigger] tiles[i]).id == all[i] by {}
    let half = |k: int|
        Action::SetWindowWidth { id: all[k], change: SizeChange::SetProportion(50) };
    let join = |k: int| Action::ConsumeOrExpelWindowLeft { id: all[k] };
    let reset = |k: int| Action::ResetWindowHeight { id: all[k] };
    if all.len() == 0 {
        lemma_no_columns(shape);
        assert(rest =~= Seq::<Action>::empty());
    } else if all.len() == 1 {
        lemma_lone_column(shape);
        lemma_no_lower_ones(shape);
        assert(rest =~= actions);
        assert(tiles[0].id == all[0]);
    } else if all.len() == 2 {
        assert(tiles[0].id == all[0] && tiles[1].id == all[1]);
        assert(rest =~= seq![half(0), reset(0), half(1), reset(1)]);
    } else if all.len() == 3 {
        assert(tiles[0].id == all[0] && tiles[1].id == all[1] && tiles[2].id == all[2]);
        assert(rest =~= seq![half(0), reset(0), half(1), join(2), reset(1), reset(2)]);
    } else {
        assert(tiles[0].id == all[0] && tiles[1].id == all[1]);
        assert(tiles[2].id == all[2] && tiles[3].id == all[3]);
        assert(rest =~= seq![
            half(0),
            join(1),
            reset(0),
            reset(1),
            half(2),
            join(3),
            reset(2),
            reset(3),
        ]);
    }
    stack_asks_for_its_columns(windows, workspace_id, shape);
}

} // verus!
