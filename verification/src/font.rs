//! Terminal font sizes: how large they are, and which processes they concern.
//!
//! Sizes are counted in tenths of a point, the precision with which they are
//! written into the configuration.

use vstd::prelude::*;

use crate::model::Window;
use crate::text::{chars_of, contains_part, lower_char};

verus! {

broadcast use vstd::string::group_string_axioms;

use crate::layout::{alike, lemma_alike};
use crate::text::{has_part, lowered, stands_at};

/// The size that is scaled down as the grid gets denser.
pub const DEFAULT_FONT_SIZE: u32 = 120;

/// No grid makes the font smaller than this.
pub const FONT_SIZE_FLOOR: u32 = 85;

/// What each column beyond the second takes off the size.
pub const COLUMN_PENALTY: u32 = 7;

/// What each row beyond the second takes off the size.
pub const ROW_PENALTY: u32 = 5;

// ---------------------------------------------------------------------------
// Sizes
// ---------------------------------------------------------------------------

/// How many of `count` lie beyond the second.
pub open spec fn beyond_two(count: int) -> int {
    if count > 2 {
        count - 2
    } else {
        0
    }
}

/// The smallest size for a given base.
pub open spec fn floor_for(base: int) -> int {
    if base < FONT_SIZE_FLOOR {
        base
    } else {
        FONT_SIZE_FLOOR as int
    }
}

/// The size for a grid: the base less the penalties, but not below the floor.
pub open spec fn scaled_size(base: int, num_cols: int, max_rows: int) -> int {
    let size = base - beyond_two(num_cols) * COLUMN_PENALTY - beyond_two(max_rows) * ROW_PENALTY;
    if size < floor_for(base) {
        floor_for(base)
    } else {
        size
    }
}

/// The smallest size that scaling gives.
pub fn get_font_size_floor() -> (floor: u32)
    ensures
        floor == FONT_SIZE_FLOOR,
{
    FONT_SIZE_FLOOR
}

/// What remains of `count` steps of `step`, taken off `size` without passing zero.
fn take_off(size: u32, count: usize, step: u32) -> (left: u32)
    requires
        step > 0,
    ensures
        left as int == if size - beyond_two(count as int) * step > 0 {
            size - beyond_two(count as int) * step
        } else {
            0
        },
{
    if count <= 2 {
        assert(0 * step == 0);
        return size;
    }
    let extra: u64 = (count - 2) as u64;
    if extra > size as u64 {
        assert(extra * step >= extra) by (nonlinear_arith)
            requires
                step >= 1,
                extra >= 0,
        ;
        return 0;
    }
    assert(0 <= extra * step <= 0xffff_ffff * 0xffff_ffff) by (nonlinear_arith)
        requires
            0 <= extra <= 0xffff_ffff,
            0 <= step <= 0xffff_ffff,
    ;
    let off: u64 = extra * step as u64;
    if off >= size as u64 {
        0
    } else {
        size - off as u32
    }
}

/// The font size for a grid, scaled down from `base`.
pub fn calculate_font_size_with_base(base: u32, num_cols: usize, max_rows: usize) -> (size: u32)
    ensures
        size == scaled_size(base as int, num_cols as int, max_rows as int),
{
    let after_columns: u32 = take_off(base, num_cols, COLUMN_PENALTY);
    let after_rows: u32 = take_off(after_columns, max_rows, ROW_PENALTY);
    let floor: u32 = if base < FONT_SIZE_FLOOR {
        base
    } else {
        FONT_SIZE_FLOOR
    };
    if after_rows < floor {
        floor
    } else {
        after_rows
    }
}

/// The font size for a grid, scaled down from the default.
pub fn calculate_font_size(num_cols: usize, max_rows: usize) -> (size: u32)
    ensures
        size == scaled_size(DEFAULT_FONT_SIZE as int, num_cols as int, max_rows as int),
{
    calculate_font_size_with_base(DEFAULT_FONT_SIZE, num_cols, max_rows)
}

/// A scaled size is at most the base and at least the floor; where the base
/// itself is below the floor it is the base.
pub proof fn sizes_are_bounded(base: nat, num_cols: nat, max_rows: nat)
    ensures
        floor_for(base as int) <= scaled_size(base as int, num_cols as int, max_rows as int) <= base,
{
}

/// More columns or more rows never make the font larger.
pub proof fn denser_is_not_larger(
    base: nat,
    num_cols: nat,
    max_rows: nat,
    more_cols: nat,
    more_rows: nat,
)
    requires
        num_cols <= more_cols,
        max_rows <= more_rows,
    ensures
        scaled_size(base as int, more_cols as int, more_rows as int) <= scaled_size(
            base as int,
            num_cols as int,
            max_rows as int,
        ),
{
}

// ---------------------------------------------------------------------------
// Terminal processes
// ---------------------------------------------------------------------------

/// An application id names the terminal where it holds the terminal's name,
/// whatever the case of the letters.
pub open spec fn names_terminal(app: Seq<char>) -> bool {
    has_part(lowered(app), "ghostty"@)
}

/// A window counts for `scope`: for a workspace, where it is tiled there; for
/// no workspace in particular, always.
pub open spec fn in_scope(window: Window, scope: Option<u64>) -> bool {
    scope is Some ==> window.workspace_id == scope && !window.is_floating
}

/// The process of a terminal window in scope, if it is known and positive.
pub open spec fn terminal_pid(window: Window, scope: Option<u64>) -> Option<i32> {
    match (window.app_id, window.pid) {
        (Some(app), Some(pid)) => if in_scope(window, scope) && names_terminal(app@) && pid > 0 {
            Some(pid)
        } else {
            None
        },
        _ => None,
    }
}

/// The processes of the terminal windows in scope, each once, in the order in
/// which the windows are listed.
pub open spec fn terminal_pids(windows: Seq<Window>, scope: Option<u64>) -> Seq<i32>
    decreases windows.len(),
{
    if windows.len() == 0 {
        Seq::empty()
    } else {
        let front = terminal_pids(windows.drop_last(), scope);
        match terminal_pid(windows.last(), scope) {
            Some(pid) => if front.contains(pid) {
                front
            } else {
                front.push(pid)
            },
            None => front,
        }
    }
}

/// Decides whether an application id names the terminal.
pub fn is_ghostty(app: &str) -> (yes: bool)
    ensures
        yes == names_terminal(app@),
{
    let chars: Vec<char> = chars_of(app);
    let mut small: Vec<char> = Vec::new();
    let mut i: usize = 0;
    while i < chars.len()
        invariant
            i <= chars.len(),
            small@ == lowered(chars@.take(i as int)),
        decreases chars.len() - i,
    {
        small.push(lower_char(chars[i]));
        assert(small@ =~= lowered(chars@.take(i + 1)));
        i = i + 1;
    }
    assert(chars@.take(i as int) =~= chars@);
    contains_part(&small, &chars_of("ghostty"))
}

/// Decides whether `pid` is among `pids`.
fn holds_pid(pids: &Vec<i32>, pid: i32) -> (found: bool)
    ensures
        found == pids@.contains(pid),
{
    let mut i: usize = 0;
    while i < pids.len()
        invariant
            i <= pids.len(),
            forall|k: int| 0 <= k < i ==> pids@[k] != pid,
        decreases pids.len() - i,
    {
        if pids[i] == pid {
            return true;
        }
        i = i + 1;
    }
    false
}

/// Decides whether a window counts for `scope`.
fn counts_for(window: &Window, scope: Option<u64>) -> (counts: bool)
    ensures
        counts == in_scope(*window, scope),
{
    match scope {
        Some(wanted) => match window.workspace_id {
            Some(id) => id == wanted && !window.is_floating,
            None => false,
        },
        None => true,
    }
}

/// Collects the processes of the terminal windows in scope.
fn collect_pids(windows: &[Window], scope: Option<u64>) -> (pids: Vec<i32>)
    ensures
        pids@ == terminal_pids(windows@, scope),
{
    let mut pids: Vec<i32> = Vec::new();
    let mut i: usize = 0;
    while i < windows.len()
        invariant
            i <= windows.len(),
            pids@ == terminal_pids(windows@.take(i as int), scope),
        decreases windows.len() - i,
    {
        let window: &Window = &windows[i];
        proof {
            assert(windows@.take(i + 1).drop_last() =~= windows@.take(i as int));
            assert(windows@.take(i + 1).last() == *window);
        }
        if counts_for(window, scope) {
            let terminal: bool = match &window.app_id {
                Some(app) => is_ghostty(app.as_str()),
                None => false,
            };
            match window.pid {
                Some(pid) => {
                    if terminal && pid > 0 && !holds_pid(&pids, pid) {
                        pids.push(pid);
                    }
                },
                None => {},
            }
        }
        i = i + 1;
    }
    assert(windows@.take(i as int) =~= windows@);
    pids
}

/// The processes of all terminal windows.
pub fn get_ghostty_pids(windows: &[Window]) -> (pids: Vec<i32>)
    ensures
        pids@ == terminal_pids(windows@, None),
{
    collect_pids(windows, None)
}

/// The processes of the terminal windows that are tiled on one workspace.
pub fn get_ghostty_pids_for_workspace(windows: &[Window], workspace_id: u64) -> (pids: Vec<i32>)
    ensures
        pids@ == terminal_pids(windows@, Some(workspace_id)),
{
    collect_pids(windows, Some(workspace_id))
}

/// The processes that may be signalled: those with a positive id.
pub open spec fn signal_targets(pids: Seq<i32>) -> Seq<i32> {
    pids.filter(|pid: i32| pid > 0)
}

/// Picks the processes that may be signalled.
pub fn signal_ghostty_pids(pids: &[i32]) -> (targets: Vec<i32>)
    ensures
        targets@ == signal_targets(pids@),
{
    let ghost positive = |pid: i32| pid > 0;
    let mut targets: Vec<i32> = Vec::new();
    let mut i: usize = 0;
    proof {
        reveal(Seq::filter);
    }
    while i < pids.len()
        invariant
            i <= pids.len(),
            positive == (|pid: i32| pid > 0),
            targets@ == pids@.take(i as int).filter(positive),
        decreases pids.len() - i,
    {
        let pid: i32 = pids[i];
        proof {
            pids@.take(i as int).lemma_filter_push(pid, positive);
            assert(pids@.take(i + 1) =~= pids@.take(i as int).push(pid));
        }
        if pid > 0 {
            targets.push(pid);
        }
        i = i + 1;
    }
    assert(pids@.take(i as int) =~= pids@);
    targets
}

/// Every listed process is positive and listed once.
pub proof fn pids_are_positive_and_distinct(windows: Seq<Window>, scope: Option<u64>)
    ensures
        terminal_pids(windows, scope).no_duplicates(),
        forall|i: int|
            0 <= i < terminal_pids(windows, scope).len() ==> #[trigger] terminal_pids(
                windows,
                scope,
            )[i] > 0,
    decreases windows.len(),
{
    if windows.len() > 0 {
        pids_are_positive_and_distinct(windows.drop_last(), scope);
    }
}

/// A process is listed where one of the windows in scope has it, and only there.
pub proof fn pids_come_from_windows(windows: Seq<Window>, scope: Option<u64>, pid: i32)
    ensures
        terminal_pids(windows, scope).contains(pid) <==> exists|i: int|
            0 <= i < windows.len() && terminal_pid(#[trigger] windows[i], scope) == Some(pid),
    decreases windows.len(),
{
    let all = terminal_pids(windows, scope);
    if windows.len() > 0 {
        let front = windows.drop_last();
        let before = terminal_pids(front, scope);
        pids_come_from_windows(front, scope, pid);
        if all.contains(pid) {
            if before.contains(pid) {
                let i = choose|i: int|
                    0 <= i < front.len() && terminal_pid(#[trigger] front[i], scope) == Some(pid);
                assert(terminal_pid(windows[i], scope) == Some(pid));
            } else {
                assert(terminal_pid(windows[windows.len() - 1], scope) == Some(pid));
            }
        }
        if exists|i: int|
            0 <= i < windows.len() && terminal_pid(#[trigger] windows[i], scope) == Some(pid) {
            let i = choose|i: int|
                0 <= i < windows.len() && terminal_pid(#[trigger] windows[i], scope) == Some(pid);
            if i < front.len() {
                assert(terminal_pid(front[i], scope) == Some(pid));
                assert(before.contains(pid));
                let k = choose|k: int| 0 <= k < before.len() && before[k] == pid;
                assert(all[k] == pid);
            } else {
                if before.contains(pid) {
                    let k = choose|k: int| 0 <= k < before.len() && before[k] == pid;
                    assert(all[k] == pid);
                } else {
                    assert(all.last() == pid);
                }
            }
        }
    }
}

/// The processes of one workspace are among those of all windows.
pub proof fn workspace_pids_are_among_all(windows: Seq<Window>, workspace_id: u64, pid: i32)
    requires
        terminal_pids(windows, Some(workspace_id)).contains(pid),
    ensures
        terminal_pids(windows, None).contains(pid),
{
    pids_come_from_windows(windows, Some(workspace_id), pid);
    pids_come_from_windows(windows, None, pid);
    let i = choose|i: int|
        0 <= i < windows.len() && terminal_pid(#[trigger] windows[i], Some(workspace_id)) == Some(
            pid,
        );
    assert(terminal_pid(windows[i], None) == Some(pid));
}

/// The terminal's full application id names it, whatever the case of the letters.
pub proof fn full_id_names_terminal(app: Seq<char>)
    requires
        lowered(app) == lowered("com.mitchellh.ghostty"@),
    ensures
        names_terminal(app),
{
    reveal_strlit("com.mitchellh.ghostty");
    reveal_strlit("ghostty");
    let full = lowered("com.mitchellh.ghostty"@);
    assert(full.subrange(14, 21) =~= "ghostty"@);
    assert(stands_at(full, "ghostty"@, 14));
}

/// The application id holds the terminal's name, whatever the case of its letters.
pub open spec fn holds_the_name(app: Seq<char>) -> bool {
    exists|a: Seq<char>, name: Seq<char>, b: Seq<char>|
        app == #[trigger] (a + name + b) && alike(name, "ghostty"@)
}

proof fn lemma_holds_the_name(app: Seq<char>)
    ensures
        names_terminal(app) <==> holds_the_name(app),
{
    let wanted = "ghostty"@;
    reveal_strlit("ghostty");
    assert(lowered(wanted) =~= wanted);
    if names_terminal(app) {
        let at = choose|at: int| stands_at(lowered(app), wanted, at);
        let a = app.take(at);
        let name = app.subrange(at, at + wanted.len());
        let b = app.skip(at + wanted.len());
        assert(app =~= a + name + b);
        assert(lowered(name) =~= lowered(app).subrange(at, at + wanted.len()));
        lemma_alike(name, wanted);
    }
    if holds_the_name(app) {
        let (a, name, b) = choose|a: Seq<char>, name: Seq<char>, b: Seq<char>|
            app == #[trigger] (a + name + b) && alike(name, wanted);
        lemma_alike(name, wanted);
        let at = a.len() as int;
        assert(app.subrange(at, at + wanted.len()) =~= name);
        assert(lowered(app).subrange(at, at + wanted.len()) =~= lowered(name));
        assert(stands_at(lowered(app), wanted, at));
    }
}

/// The process of a window counts: the window is a terminal's, its process is
/// known and positive, and where a workspace is named it is tiled there.
pub open spec fn counts(window: Window, scope: Option<u64>, pid: i32) -> bool {
    &&& window.app_id is Some && holds_the_name((window.app_id->0)@)
    &&& window.pid == Some(pid)
    &&& pid > 0
    &&& match scope {
        Some(workspace_id) => window.workspace_id == Some(workspace_id) && !window.is_floating,
        None => true,
    }
}

/// The processes are those of the terminal windows, each once, in the turn in
/// which the windows first name them: those that the first windows name come
/// first, whatever windows follow.
pub proof fn terminals_are_listed_in_turn(windows: Seq<Window>, scope: Option<u64>, n: int, pid: i32)
    requires
        0 <= n <= windows.len(),
    ensures
        terminal_pids(windows, scope).contains(pid) <==> exists|i: int|
            0 <= i < windows.len() && counts(#[trigger] windows[i], scope, pid),
        terminal_pids(windows, scope).no_duplicates(),
        terminal_pids(windows.take(n), scope).len() <= terminal_pids(windows, scope).len(),
        terminal_pids(windows.take(n), scope) == terminal_pids(windows, scope).take(
            terminal_pids(windows.take(n), scope).len() as int,
        ),
{
    pids_are_positive_and_distinct(windows, scope);
    pids_come_from_windows(windows, scope, pid);
    assert forall|i: int| 0 <= i < windows.len() implies counts(#[trigger] windows[i], scope, pid)
        == (terminal_pid(windows[i], scope) == Some(pid)) by {
        if let Some(app) = windows[i].app_id {
            lemma_holds_the_name(app@);
        }
    }
    lemma_first_pids_first(windows, scope, n);
}

proof fn lemma_first_pids_first(windows: Seq<Window>, scope: Option<u64>, n: int)
    requires
        0 <= n <= windows.len(),
    ensures
        terminal_pids(windows.take(n), scope).len() <= terminal_pids(windows, scope).len(),
        terminal_pids(windows.take(n), scope) == terminal_pids(windows, scope).take(
            terminal_pids(windows.take(n), scope).len() as int,
        ),
    decreases windows.len(),
{
    if n == windows.len() {
        assert(windows.take(n) =~= windows);
        assert(terminal_pids(windows, scope).take(terminal_pids(windows, scope).len() as int)
            =~= terminal_pids(windows, scope));
    } else {
        let front = windows.drop_last();
        lemma_first_pids_first(front, scope, n);
        assert(front.take(n) =~= windows.take(n));
        let some = terminal_pids(windows.take(n), scope);
        assert(terminal_pids(windows, scope).take(some.len() as int) =~= some);
    }
}

/// Only positive processes are signalled, in their turn.
pub proof fn only_positive_processes_are_signalled(pids: Seq<i32>, pid: i32)
    ensures
        signal_targets(pids) == pids.filter(|p: i32| p > 0),
        signal_targets(pids).contains(pid) <==> pids.contains(pid) && pid > 0,
{
    broadcast use vstd::seq_lib::group_filter_ensures;

    let positive = |p: i32| p > 0;
    assert(signal_targets(pids) =~= pids.filter(positive));
    if pids.filter(positive).contains(pid) {
        let k = choose|k: int|
            0 <= k < pids.filter(positive).len() && pids.filter(positive)[k] == pid;
        assert(positive(pids.filter(positive)[k]));
        pids.lemma_filter_contains_rev(positive, pid);
    }
    if pids.contains(pid) && pid > 0 {
        assert(positive(pid));
    }
}

} // verus!
