//! The daemon's memory: which windows stand where, and which workspaces an
//! event leaves in need of a new layout.

use std::collections::HashMap;

use vstd::prelude::*;
use vstd::std_specs::iter::IteratorSpec;

use crate::model::{membership, Membership, Window, Workspace};
use crate::text::same_text;

verus! {

broadcast use {vstd::std_specs::hash::group_hash_axioms, vstd::seq_lib::group_seq_properties};

use crate::text::opt_view;
use crate::text::opt_text;
use vstd::std_specs::hash::spec_hash_map_iter;

/// What the daemon hears of.
#[derive(Debug)]
pub enum Event {
    OverviewOpenedOrClosed { is_open: bool },
    WorkspaceActivated { id: u64, focused: bool },
    WorkspacesChanged { workspaces: Vec<Workspace> },
    ConfigLoaded,
    WindowsChanged { windows: Vec<Window> },
    WindowOpenedOrChanged { window: Window },
    WindowClosed { id: u64 },
    /// Anything that has no bearing on the layout.
    Other,
}

/// What the daemon remembers.
pub struct DaemonState {
    /// The membership of every window.
    pub placed: HashMap<u64, Membership>,
    /// The output of every workspace.
    pub workspace_outputs: HashMap<u64, Option<String>>,
    pub is_overview: bool,
}

/// The contents of the daemon's memory.
#[verifier::ext_equal]
pub struct DaemonView {
    pub placed: Map<u64, Membership>,
    pub workspace_outputs: Map<u64, Option<Seq<char>>>,
    pub is_overview: bool,
}

impl View for DaemonState {
    type V = DaemonView;

    open spec fn view(&self) -> DaemonView {
        DaemonView {
            placed: self.placed@,
            workspace_outputs: output_texts(self.workspace_outputs@),
            is_overview: self.is_overview,
        }
    }
}

/// The membership of each of the listed windows; where an id is listed twice,
/// the later counts.
pub open spec fn memberships(windows: Seq<Window>) -> Map<u64, Membership>
    decreases windows.len(),
{
    if windows.len() == 0 {
        Map::empty()
    } else {
        memberships(windows.drop_last()).insert(
            windows.last().id,
            (windows.last().workspace_id, windows.last().is_floating),
        )
    }
}

/// The output of each of the listed workspaces; where an id is listed twice,
/// the later counts.
pub open spec fn outputs_of(workspaces: Seq<Workspace>) -> Map<u64, Option<Seq<char>>>
    decreases workspaces.len(),
{
    if workspaces.len() == 0 {
        Map::empty()
    } else {
        outputs_of(workspaces.drop_last()).insert(
            workspaces.last().id,
            opt_text(workspaces.last().output),
        )
    }
}

/// What the daemon remembers after an event.
pub open spec fn after(state: DaemonView, event: Event) -> DaemonView {
    match event {
        Event::OverviewOpenedOrClosed { is_open } => DaemonView { is_overview: is_open, ..state },
        Event::WorkspacesChanged { workspaces } => DaemonView {
            workspace_outputs: outputs_of(workspaces@),
            ..state
        },
        Event::WindowsChanged { windows } => DaemonView { placed: memberships(windows@), ..state },
        Event::WindowOpenedOrChanged { window } => DaemonView {
            placed: state.placed.insert(window.id, (window.workspace_id, window.is_floating)),
            ..state
        },
        Event::WindowClosed { id } => DaemonView { placed: state.placed.remove(id), ..state },
        _ => state,
    }
}

/// A membership that is tiled on `workspace`.
pub open spec fn tiled_on(member: Option<Membership>, workspace: u64) -> bool {
    member == Some((Some(workspace), false))
}

/// What a map holds for a key.
pub open spec fn entry<V>(map: Map<u64, V>, key: u64) -> Option<V> {
    if map.contains_key(key) {
        Some(map[key])
    } else {
        None
    }
}

/// Some window that is tiled on `workspace` is remembered.
pub open spec fn holds_tiles(placed: Map<u64, Membership>, workspace: u64) -> bool {
    exists|id: u64| tiled_on(#[trigger] entry(placed, id), workspace)
}

/// The membership of one window changed and it was, or is now, tiled on `workspace`.
pub open spec fn change_touches(
    old: Option<Membership>,
    new: Option<Membership>,
    workspace: u64,
) -> bool {
    old != new && (tiled_on(old, workspace) || tiled_on(new, workspace))
}

/// The change of some window touches `workspace`.
pub open spec fn members_changed(
    old: Map<u64, Membership>,
    new: Map<u64, Membership>,
    workspace: u64,
) -> bool {
    exists|id: u64| change_touches(#[trigger] entry(old, id), entry(new, id), workspace)
}

/// What an optional reference refers to.
pub open spec fn deref(member: Option<&Membership>) -> Option<Membership> {
    match member {
        Some(m) => Some(*m),
        None => None,
    }
}

/// The output that the workspace is known to be on.
pub open spec fn known_output(state: DaemonView, workspace: u64) -> Option<Seq<char>> {
    match entry(state.workspace_outputs, workspace) {
        Some(output) => output,
        None => None,
    }
}

/// The event leaves `workspace` in need of a new layout.
pub open spec fn is_dirtied(state: DaemonView, event: Event, workspace: u64) -> bool {
    match event {
        Event::OverviewOpenedOrClosed { is_open } => !is_open && holds_tiles(
            state.placed,
            workspace,
        ),
        Event::WorkspaceActivated { id, focused } => focused && workspace == id,
        Event::WorkspacesChanged { workspaces } => {
            let new = outputs_of(workspaces@);
            new.contains_key(workspace) && entry(state.workspace_outputs, workspace) != entry(
                new,
                workspace,
            )
        },
        Event::ConfigLoaded => holds_tiles(state.placed, workspace),
        Event::WindowsChanged { .. } => members_changed(
            state.placed,
            after(state, event).placed,
            workspace,
        ),
        Event::WindowOpenedOrChanged { .. } => members_changed(
            state.placed,
            after(state, event).placed,
            workspace,
        ),
        Event::WindowClosed { .. } => members_changed(
            state.placed,
            after(state, event).placed,
            workspace,
        ),
        Event::Other => false,
    }
}

/// Each item is larger than those before it.
pub open spec fn ascending(ids: Seq<u64>) -> bool {
    forall|i: int, j: int| 0 <= i < j < ids.len() ==> ids[i] < ids[j]
}

/// Adds a workspace to a list that ascends, unless it is there.
fn mark(dirty: &mut Vec<u64>, workspace: u64)
    requires
        ascending(old(dirty)@),
    ensures
        ascending(final(dirty)@),
        forall|x: u64| #[trigger]
            final(dirty)@.contains(x) <==> old(dirty)@.contains(x) || x == workspace,
{
    let ghost before = dirty@;
    let mut at: usize = dirty.len();
    while at > 0 && dirty[at - 1] > workspace
        invariant
            at <= dirty.len(),
            dirty@ == before,
            forall|k: int| at <= k < dirty.len() ==> #[trigger] dirty@[k] > workspace,
        decreases at,
    {
        at = at - 1;
    }
    if at > 0 && dirty[at - 1] == workspace {
        assert(before[at - 1] == workspace);
        return;
    }
    dirty.insert(at, workspace);
    proof {
        let now = dirty@;
        assert forall|x: u64| #[trigger] now.contains(x) <==> before.contains(x) || x
            == workspace by {
            if now.contains(x) {
                let k = choose|k: int| 0 <= k < now.len() && now[k] == x;
                if k < at {
                    assert(before[k] == x);
                } else if k > at {
                    assert(before[k - 1] == x);
                }
            }
            if before.contains(x) {
                let k = choose|k: int| 0 <= k < before.len() && before[k] == x;
                if k < at {
                    assert(now[k] == x);
                } else {
                    assert(now[k + 1] == x);
                }
            }
            if x == workspace {
                assert(now[at as int] == x);
            }
        }
    }
}

/// Adds the workspace that a membership is tiled on, if it is tiled.
fn mark_member(dirty: &mut Vec<u64>, member: &Membership)
    requires
        ascending(old(dirty)@),
    ensures
        ascending(final(dirty)@),
        forall|x: u64| #[trigger]
            final(dirty)@.contains(x) <==> old(dirty)@.contains(x) || tiled_on(Some(*member), x),
{
    match member.0 {
        Some(workspace) => {
            if !member.1 {
                mark(dirty, workspace);
            }
        },
        None => {},
    }
}

/// Decides whether two memberships are the same.
fn same_membership(a: &Membership, b: &Membership) -> (same: bool)
    ensures
        same == (*a == *b),
{
    let ids: bool = match (a.0, b.0) {
        (Some(x), Some(y)) => x == y,
        (None, None) => true,
        _ => false,
    };
    ids && a.1 == b.1
}

/// Decides whether two optional texts are the same.
fn same_opt_text(a: &Option<String>, b: &Option<String>) -> (same: bool)
    ensures
        same == (opt_text(*a) == opt_text(*b)),
{
    match (a, b) {
        (Some(x), Some(y)) => same_text(x.as_str(), y.as_str()),
        (None, None) => true,
        _ => false,
    }
}

/// Collects the membership of each of the listed windows.
fn collect_memberships(windows: &Vec<Window>) -> (map: HashMap<u64, Membership>)
    ensures
        map@ == memberships(windows@),
{
    let mut map: HashMap<u64, Membership> = HashMap::new();
    let mut i: usize = 0;
    while i < windows.len()
        invariant
            i <= windows.len(),
            map@ == memberships(windows@.take(i as int)),
        decreases windows.len() - i,
    {
        proof {
            assert(windows@.take(i + 1).drop_last() =~= windows@.take(i as int));
            assert(windows@.take(i + 1).last() == windows@[i as int]);
        }
        map.insert(windows[i].id, membership(&windows[i]));
        i = i + 1;
    }
    assert(windows@.take(i as int) =~= windows@);
    map
}

/// What a map from workspaces to outputs holds.
pub open spec fn output_texts(map: Map<u64, Option<String>>) -> Map<u64, Option<Seq<char>>> {
    map.map_values(|o: Option<String>| opt_text(o))
}

/// Collects the output of each of the listed workspaces.
fn collect_outputs(workspaces: &Vec<Workspace>) -> (map: HashMap<u64, Option<String>>)
    ensures
        output_texts(map@) == outputs_of(workspaces@),
{
    let mut map: HashMap<u64, Option<String>> = HashMap::new();
    let mut i: usize = 0;
    assert(output_texts(map@) =~= outputs_of(workspaces@.take(0)));
    while i < workspaces.len()
        invariant
            i <= workspaces.len(),
            output_texts(map@) == outputs_of(workspaces@.take(i as int)),
        decreases workspaces.len() - i,
    {
        let ghost before = map@;
        let output: Option<String> = match &workspaces[i].output {
            Some(name) => Some(name.as_str().to_owned()),
            None => None,
        };
        map.insert(workspaces[i].id, output);
        proof {
            assert(workspaces@.take(i + 1).drop_last() =~= workspaces@.take(i as int));
            assert(workspaces@.take(i + 1).last() == workspaces@[i as int]);
            assert(output_texts(map@) =~= output_texts(before).insert(
                workspaces@[i as int].id,
                opt_text(workspaces@[i as int].output),
            ));
        }
        i = i + 1;
    }
    assert(workspaces@.take(i as int) =~= workspaces@);
    map
}

/// The pairs that a walk over a map meets are what the map holds.
proof fn lemma_walk_meets_entries<V>(
    map: &HashMap<u64, V>,
    pairs: Seq<(&u64, &V)>,
    id: u64,
    value: V,
)
    requires
        pairs == spec_hash_map_iter(map).remaining(),
    ensures
        entry(map@, id) == Some(value) <==> exists|k: int|
            0 <= k < pairs.len() && #[trigger] pairs[k] == (&id, &value),
{
    if entry(map@, id) == Some(value) {
        assert(map@.contains_key(id));
        assert(pairs.contains((&id, &map@[id])));
    }
    if exists|k: int| 0 <= k < pairs.len() && #[trigger] pairs[k] == (&id, &value) {
        let k = choose|k: int| 0 <= k < pairs.len() && #[trigger] pairs[k] == (&id, &value);
        assert(map@.contains_key(*pairs[k].0));
    }
}

/// Collects the workspaces on which a remembered window is tiled.
fn collect_tiled(placed: &HashMap<u64, Membership>) -> (dirty: Vec<u64>)
    ensures
        ascending(dirty@),
        forall|x: u64| #[trigger] dirty@.contains(x) <==> holds_tiles(placed@, x),
{
    let mut dirty: Vec<u64> = Vec::new();
    for (id, member) in iter: placed.iter()
        invariant
            ascending(dirty@),
            iter.seq() == spec_hash_map_iter(placed).remaining(),
            forall|x: u64| #[trigger]
                dirty@.contains(x) <==> exists|k: int|
                    0 <= k < iter.index() && tiled_on(Some(*(#[trigger] iter.seq()[k]).1), x),
    {
        mark_member(&mut dirty, member);
    }
    proof {
        let pairs = spec_hash_map_iter(placed).remaining();
        assert forall|x: u64| #[trigger] dirty@.contains(x) <==> holds_tiles(placed@, x) by {
            if holds_tiles(placed@, x) {
                let id = choose|id: u64| tiled_on(#[trigger] entry(placed@, id), x);
                lemma_walk_meets_entries(placed, pairs, id, placed@[id]);
            }
            if dirty@.contains(x) {
                let k = choose|k: int|
                    0 <= k < pairs.len() && tiled_on(Some(*(#[trigger] pairs[k]).1), x);
                lemma_walk_meets_entries(placed, pairs, *pairs[k].0, *pairs[k].1);
                assert(tiled_on(entry(placed@, *pairs[k].0), x));
            }
        }
    }
    dirty
}

/// Collects the workspaces whose output is new or not what it was.
fn collect_moved(old: &HashMap<u64, Option<String>>, new: &HashMap<u64, Option<String>>) -> (dirty:
    Vec<u64>)
    ensures
        ascending(dirty@),
        forall|x: u64| #[trigger]
            dirty@.contains(x) <==> new@.contains_key(x) && entry(output_texts(old@), x) != entry(
                output_texts(new@),
                x,
            ),
{
    let mut dirty: Vec<u64> = Vec::new();
    for (id, output) in iter: new.iter()
        invariant
            ascending(dirty@),
            iter.seq() == spec_hash_map_iter(new).remaining(),
            forall|x: u64| #[trigger]
                dirty@.contains(x) <==> exists|k: int|
                    0 <= k < iter.index() && *(#[trigger] iter.seq()[k]).0 == x && entry(
                        output_texts(old@),
                        x,
                    ) != Some(opt_text(*iter.seq()[k].1)),
    {
        let same: bool = match old.get(id) {
            Some(present) => same_opt_text(present, output),
            None => false,
        };
        if !same {
            mark(&mut dirty, *id);
        }
    }
    proof {
        let pairs = spec_hash_map_iter(new).remaining();
        assert forall|x: u64| #[trigger] dirty@.contains(x) <==> new@.contains_key(x) && entry(
            output_texts(old@),
            x,
        ) != entry(output_texts(new@), x) by {
            if new@.contains_key(x) {
                lemma_walk_meets_entries(new, pairs, x, new@[x]);
            }
            if dirty@.contains(x) {
                let k = choose|k: int|
                    0 <= k < pairs.len() && *(#[trigger] pairs[k]).0 == x && entry(
                        output_texts(old@),
                        x,
                    ) != Some(opt_text(*pairs[k].1));
                lemma_walk_meets_entries(new, pairs, x, *pairs[k].1);
            }
        }
    }
    dirty
}

/// Marks the workspaces that a change from `old` to `new` of one window touches.
fn mark_change(dirty: &mut Vec<u64>, old_member: Option<&Membership>, new_member: Option<&Membership>)
    requires
        ascending(old(dirty)@),
    ensures
        ascending(final(dirty)@),
        forall|x: u64| #[trigger]
            final(dirty)@.contains(x) <==> old(dirty)@.contains(x) || change_touches(
                deref(old_member),
                deref(new_member),
                x,
            ),
{
    let same: bool = match (old_member, new_member) {
        (Some(a), Some(b)) => same_membership(a, b),
        (None, None) => true,
        _ => false,
    };
    if !same {
        match new_member {
            Some(member) => mark_member(dirty, member),
            None => {},
        }
        match old_member {
            Some(member) => mark_member(dirty, member),
            None => {},
        }
    }
}

/// Collects the workspaces that a change from `old` to `new` touches.
fn collect_changed(old: &HashMap<u64, Membership>, new: &HashMap<u64, Membership>) -> (dirty: Vec<
    u64,
>)
    ensures
        ascending(dirty@),
        forall|x: u64| #[trigger] dirty@.contains(x) <==> members_changed(old@, new@, x),
{
    let mut dirty: Vec<u64> = Vec::new();
    for (id, member) in iter: new.iter()
        invariant
            ascending(dirty@),
            iter.seq() == spec_hash_map_iter(new).remaining(),
            forall|x: u64| #[trigger]
                dirty@.contains(x) <==> exists|k: int|
                    0 <= k < iter.index() && change_touches(
                        entry(old@, *(#[trigger] iter.seq()[k]).0),
                        Some(*iter.seq()[k].1),
                        x,
                    ),
    {
        mark_change(&mut dirty, old.get(id), Some(member));
    }
    let ghost first = dirty@;
    proof {
        let pairs = spec_hash_map_iter(new).remaining();
        assert forall|x: u64| #[trigger] first.contains(x) <==> exists|id: u64|
            new@.contains_key(id) && change_touches(
                #[trigger] entry(old@, id),
                entry(new@, id),
                x,
            ) by {
            if first.contains(x) {
                let k = choose|k: int|
                    0 <= k < pairs.len() && change_touches(
                        entry(old@, *(#[trigger] pairs[k]).0),
                        Some(*pairs[k].1),
                        x,
                    );
                lemma_walk_meets_entries(new, pairs, *pairs[k].0, *pairs[k].1);
            }
            if exists|id: u64|
                new@.contains_key(id) && change_touches(
                    #[trigger] entry(old@, id),
                    entry(new@, id),
                    x,
                ) {
                let id = choose|id: u64|
                    new@.contains_key(id) && change_touches(
                        #[trigger] entry(old@, id),
                        entry(new@, id),
                        x,
                    );
                lemma_walk_meets_entries(new, pairs, id, new@[id]);
            }
        }
    }
    for (id, member) in iter: old.iter()
        invariant
            ascending(dirty@),
            iter.seq() == spec_hash_map_iter(old).remaining(),
            forall|x: u64| #[trigger]
                dirty@.contains(x) <==> first.contains(x) || exists|k: int|
                    0 <= k < iter.index() && !new@.contains_key(*(#[trigger] iter.seq()[k]).0)
                        && tiled_on(Some(*iter.seq()[k].1), x),
    {
        if !new.contains_key(id) {
            mark_member(&mut dirty, member);
        }
    }
    proof {
        let pairs = spec_hash_map_iter(old).remaining();
        assert forall|x: u64| #[trigger] dirty@.contains(x) <==> members_changed(old@, new@, x) by {
            if dirty@.contains(x) && !first.contains(x) {
                let k = choose|k: int|
                    0 <= k < pairs.len() && !new@.contains_key(*(#[trigger] pairs[k]).0)
                        && tiled_on(Some(*pairs[k].1), x);
                lemma_walk_meets_entries(old, pairs, *pairs[k].0, *pairs[k].1);
                assert(change_touches(entry(old@, *pairs[k].0), entry(new@, *pairs[k].0), x));
            }
            if members_changed(old@, new@, x) {
                let id = choose|id: u64|
                    change_touches(#[trigger] entry(old@, id), entry(new@, id), x);
                if !new@.contains_key(id) {
                    lemma_walk_meets_entries(old, pairs, id, old@[id]);
                }
            }
        }
    }
    dirty
}

impl DaemonState {
    /// Nothing is remembered at first.
    pub fn new() -> (state: DaemonState)
        ensures
            state@ == (DaemonView {
                placed: Map::empty(),
                workspace_outputs: Map::empty(),
                is_overview: false,
            }),
    {
        let state: DaemonState = DaemonState {
            placed: HashMap::new(),
            workspace_outputs: HashMap::new(),
            is_overview: false,
        };
        assert(state@.workspace_outputs =~= Map::empty());
        state
    }

    /// The output that the workspace is known to be on.
    pub fn output_of(&self, workspace_id: u64) -> (output: Option<&str>)
        ensures
            opt_view(output) == known_output(self@, workspace_id),
    {
        match self.workspace_outputs.get(&workspace_id) {
            Some(Some(name)) => Some(name.as_str()),
            _ => None,
        }
    }

    /// Takes an event in, and lists the workspaces that need a new layout, each
    /// once and in ascending order. While the overview is open none does.
    pub fn handle_event(&mut self, event: Event) -> (dirty: Vec<u64>)
        ensures
            final(self)@ == after(old(self)@, event),
            ascending(dirty@),
            forall|workspace: u64| #[trigger]
                dirty@.contains(workspace) <==> !final(self)@.is_overview && is_dirtied(
                    old(self)@,
                    event,
                    workspace,
                ),
    {
        let ghost before = self@;
        let mut dirty: Vec<u64> = Vec::new();
        match &event {
            Event::OverviewOpenedOrClosed { is_open } => {
                self.is_overview = *is_open;
                if !*is_open {
                    dirty = collect_tiled(&self.placed);
                }
            },
            Event::WorkspaceActivated { id, focused } => {
                if *focused {
                    mark(&mut dirty, *id);
                }
            },
            Event::WorkspacesChanged { workspaces } => {
                let new: HashMap<u64, Option<String>> = collect_outputs(workspaces);
                dirty = collect_moved(&self.workspace_outputs, &new);
                self.workspace_outputs = new;
            },
            Event::ConfigLoaded => {
                dirty = collect_tiled(&self.placed);
            },
            Event::WindowsChanged { windows } => {
                let new: HashMap<u64, Membership> = collect_memberships(windows);
                dirty = collect_changed(&self.placed, &new);
                self.placed = new;
            },
            Event::WindowOpenedOrChanged { window } => {
                let new: Membership = membership(window);
                let old_member: Option<Membership> = self.placed.insert(window.id, new);
                mark_change(&mut dirty, old_member.as_ref(), Some(&new));
                proof {
                    lemma_one_window_changed(before.placed, self@.placed, window.id);
                }
            },
            Event::WindowClosed { id } => {
                let old_member: Option<Membership> = self.placed.remove(id);
                mark_change(&mut dirty, old_member.as_ref(), None);
                proof {
                    lemma_one_window_changed(before.placed, self@.placed, *id);
                }
            },
            Event::Other => {},
        }
        if self.is_overview {
            return Vec::new();
        }
        dirty
    }
}

/// Where one window alone differs, that window decides what changed.
proof fn lemma_one_window_changed(
    old: Map<u64, Membership>,
    new: Map<u64, Membership>,
    window: u64,
)
    requires
        forall|id: u64| id != window ==> #[trigger] entry(old, id) == entry(new, id),
    ensures
        forall|x: u64| #[trigger]
            members_changed(old, new, x) <==> change_touches(
                entry(old, window),
                entry(new, window),
                x,
            ),
{
}

/// Hearing of the same windows or workspaces again leaves nothing in need of a
/// new layout.
pub proof fn repeated_news_dirties_nothing(state: DaemonView, event: Event, workspace: u64)
    requires
        event is WorkspacesChanged || event is WindowsChanged || event is WindowOpenedOrChanged
            || event is WindowClosed,
    ensures
        after(after(state, event), event) == after(state, event),
        !is_dirtied(after(state, event), event, workspace),
{
    let once = after(state, event);
    assert(after(once, event).placed =~= once.placed);
    if let Event::WorkspacesChanged { workspaces } = event {
        assert(once.workspace_outputs == outputs_of(workspaces@));
    }
}

/// A window event dirties no workspace but those that held tiles before it or
/// hold some after it.
pub proof fn window_events_dirty_tiled_workspaces(state: DaemonView, event: Event, workspace: u64)
    requires
        event is WindowsChanged || event is WindowOpenedOrChanged || event is WindowClosed,
        is_dirtied(state, event, workspace),
    ensures
        holds_tiles(state.placed, workspace) || holds_tiles(
            after(state, event).placed,
            workspace,
        ),
{
}

/// A tiled window that goes from one workspace to another dirties these two and
/// no other.
pub proof fn a_move_dirties_both_ends(
    state: DaemonView,
    window: Window,
    from: u64,
    to: u64,
    workspace: u64,
)
    requires
        tiled_on(entry(state.placed, window.id), from),
        window.workspace_id == Some(to),
        !window.is_floating,
        from != to,
    ensures
        is_dirtied(state, Event::WindowOpenedOrChanged { window }, workspace) <==> workspace == from
            || workspace == to,
{
    let event = Event::WindowOpenedOrChanged { window };
    lemma_one_window_changed(state.placed, after(state, event).placed, window.id);
}

/// A floating window that opens, moves or closes dirties nothing.
pub proof fn floating_windows_dirty_nothing(state: DaemonView, window: Window, workspace: u64)
    requires
        window.is_floating,
        match entry(state.placed, window.id) {
            Some(member) => member.1,
            None => true,
        },
    ensures
        !is_dirtied(state, Event::WindowOpenedOrChanged { window }, workspace),
        !is_dirtied(state, Event::WindowClosed { id: window.id }, workspace),
{
    let opened = Event::WindowOpenedOrChanged { window };
    let closed = Event::WindowClosed { id: window.id };
    lemma_one_window_changed(state.placed, after(state, opened).placed, window.id);
    lemma_one_window_changed(state.placed, after(state, closed).placed, window.id);
}

/// When the overview closes, every workspace that holds tiles is laid out: what
/// happened meanwhile on such a workspace is not lost.
pub proof fn closing_the_overview_catches_up(state: DaemonView, event: Event, workspace: u64)
    requires
        holds_tiles(after(state, event).placed, workspace),
    ensures
        is_dirtied(
            after(state, event),
            Event::OverviewOpenedOrClosed { is_open: false },
            workspace,
        ),
        !after(
            after(state, event),
            Event::OverviewOpenedOrClosed { is_open: false },
        ).is_overview,
{
}

// ---------------------------------------------------------------------------
// Events, told from the windows and workspaces that they list
// ---------------------------------------------------------------------------

/// A window not remembered so far that opens tiled on a workspace dirties that
/// workspace and no other, whatever else stands there.
pub proof fn an_opening_dirties_its_workspace(
    state: DaemonView,
    window: Window,
    to: u64,
    workspace: u64,
)
    requires
        !state.placed.contains_key(window.id),
        window.workspace_id == Some(to),
        !window.is_floating,
    ensures
        is_dirtied(state, Event::WindowOpenedOrChanged { window }, workspace) <==> workspace == to,
{
    let event = Event::WindowOpenedOrChanged { window };
    lemma_one_window_changed(state.placed, after(state, event).placed, window.id);
}

/// A tiled window that closes dirties the workspace that it was on and no other,
/// whatever else stands there. Closing any other window dirties nothing.
pub proof fn a_closing_dirties_its_workspace(state: DaemonView, id: u64, workspace: u64)
    ensures
        is_dirtied(state, Event::WindowClosed { id }, workspace) <==> state.placed.contains_key(id)
            && state.placed[id] == (Some(workspace), false),
{
    let event = Event::WindowClosed { id };
    lemma_one_window_changed(state.placed, after(state, event).placed, id);
}

/// A window that begins or ceases to float on a workspace dirties that workspace
/// and no other.
pub proof fn floating_up_or_down_dirties_the_workspace(
    state: DaemonView,
    window: Window,
    on: u64,
    workspace: u64,
)
    requires
        state.placed.contains_key(window.id),
        state.placed[window.id] == (Some(on), !window.is_floating),
        window.workspace_id == Some(on),
    ensures
        is_dirtied(state, Event::WindowOpenedOrChanged { window }, workspace) <==> workspace == on,
{
    let event = Event::WindowOpenedOrChanged { window };
    lemma_one_window_changed(state.placed, after(state, event).placed, window.id);
}

/// A window that opens or changes dirties the workspace on which it was tiled and
/// the one on which it is tiled now, unless neither workspace nor floating changed.
pub proof fn a_window_dirties_where_it_was_and_is(
    state: DaemonView,
    window: Window,
    workspace: u64,
)
    ensures
        is_dirtied(state, Event::WindowOpenedOrChanged { window }, workspace) <==> {
            let was = state.placed.contains_key(window.id);
            let old = state.placed[window.id];
            &&& !(was && old == (window.workspace_id, window.is_floating))
            &&& (was && old == (Some(workspace), false)) || (window.workspace_id == Some(workspace)
                && !window.is_floating)
        },
{
    let event = Event::WindowOpenedOrChanged { window };
    lemma_one_window_changed(state.placed, after(state, event).placed, window.id);
}

/// A window event is remembered of the window that it is about, and of no other.
pub proof fn windows_are_remembered(state: DaemonView, window: Window, id: u64)
    ensures
        ({
            let placed = after(state, Event::WindowOpenedOrChanged { window }).placed;
            &&& placed.contains_key(window.id)
            &&& placed[window.id] == (window.workspace_id, window.is_floating)
            &&& id != window.id ==> placed.contains_key(id) == state.placed.contains_key(id)
                && placed[id] == state.placed[id]
        }),
        ({
            let placed = after(state, Event::WindowClosed { id: window.id }).placed;
            &&& !placed.contains_key(window.id)
            &&& id != window.id ==> placed.contains_key(id) == state.placed.contains_key(id)
                && placed[id] == state.placed[id]
        }),
{
    assert(state.placed.remove(window.id).contains_key(id) <==> state.placed.contains_key(id) && id
        != window.id);
    if state.placed.contains_key(id) && id != window.id {
        assert(state.placed.remove(window.id)[id] == state.placed[id]);
    }
}

/// The list names the window last at `at`.
pub open spec fn listed_last(windows: Seq<Window>, at: int) -> bool {
    &&& 0 <= at < windows.len()
    &&& forall|j: int| at < j < windows.len() ==> (#[trigger] windows[j]).id != windows[at].id
}

/// A list of windows replaces what was remembered: of every window that it names
/// the last entry counts, and no other window is remembered.
pub proof fn a_list_of_windows_replaces_the_memory(windows: Seq<Window>, id: u64)
    ensures
        memberships(windows).contains_key(id) <==> exists|at: int| #[trigger]
            listed_last(windows, at) && windows[at].id == id,
        forall|at: int| #[trigger]
            listed_last(windows, at) && windows[at].id == id ==> memberships(windows)[id] == (
                windows[at].workspace_id,
                windows[at].is_floating,
            ),
    decreases windows.len(),
{
    if windows.len() > 0 {
        let front = windows.drop_last();
        let n = windows.len() - 1;
        a_list_of_windows_replaces_the_memory(front, id);
        if windows[n].id == id {
            assert(listed_last(windows, n));
            assert forall|at: int| #[trigger]
                listed_last(windows, at) && windows[at].id == id implies at == n by {}
        } else {
            assert forall|at: int| #[trigger]
                listed_last(front, at) && front[at].id == id implies listed_last(windows, at)
                && windows[at].id == id by {
                assert forall|j: int| at < j < windows.len() implies (#[trigger] windows[j]).id
                    != windows[at].id by {
                    if j < n {
                        assert(front[j] == windows[j]);
                    }
                }
            }
            assert forall|at: int| #[trigger]
                listed_last(windows, at) && windows[at].id == id implies listed_last(front, at)
                && front[at] == windows[at] by {
                assert forall|j: int| at < j < front.len() implies (#[trigger] front[j]).id
                    != front[at].id by {
                    assert(front[j] == windows[j]);
                }
            }
        }
    }
}

/// A list of windows dirties a workspace exactly where a window is tiled there now
/// and was not remembered so, or was tiled there and is not listed so any more.
pub proof fn a_list_of_windows_dirties_what_changed(
    state: DaemonView,
    windows: Vec<Window>,
    workspace: u64,
)
    ensures
        is_dirtied(state, Event::WindowsChanged { windows }, workspace) <==> {
            ||| exists|at: int| #[trigger]
                listed_last(windows@, at) && windows@[at].workspace_id == Some(workspace)
                    && !windows@[at].is_floating && !(state.placed.contains_key(windows@[at].id)
                    && state.placed[windows@[at].id] == (Some(workspace), false))
            ||| exists|id: u64| #[trigger]
                state.placed.contains_key(id) && state.placed[id] == (Some(workspace), false)
                    && forall|at: int| #[trigger]
                    listed_last(windows@, at) && windows@[at].id == id ==> !(
                    windows@[at].workspace_id == Some(workspace) && !windows@[at].is_floating)
        },
{
    let new = memberships(windows@);
    let listed = windows@;
    assert forall|id: u64| true implies #[trigger] new.contains_key(id) == (exists|at: int| #[trigger]
        listed_last(listed, at) && listed[at].id == id) && (forall|at: int| #[trigger]
        listed_last(listed, at) && listed[at].id == id ==> new[id] == (
        listed[at].workspace_id,
        listed[at].is_floating,
    )) by {
        a_list_of_windows_replaces_the_memory(listed, id);
    }
    if is_dirtied(state, Event::WindowsChanged { windows }, workspace) {
        let id = choose|id: u64|
            change_touches(#[trigger] entry(state.placed, id), entry(new, id), workspace);
        assert(new.contains_key(id) || !new.contains_key(id));
        if tiled_on(entry(new, id), workspace) {
            let at = choose|at: int| #[trigger] listed_last(listed, at) && listed[at].id == id;
            assert(listed_last(listed, at));
        } else {
            assert(state.placed.contains_key(id));
        }
    }
    if exists|at: int| #[trigger]
        listed_last(listed, at) && listed[at].workspace_id == Some(workspace)
            && !listed[at].is_floating && !(state.placed.contains_key(listed[at].id)
            && state.placed[listed[at].id] == (Some(workspace), false)) {
        let at = choose|at: int| #[trigger]
            listed_last(listed, at) && listed[at].workspace_id == Some(workspace)
                && !listed[at].is_floating && !(state.placed.contains_key(listed[at].id)
                && state.placed[listed[at].id] == (Some(workspace), false));
        let id = listed[at].id;
        assert(new.contains_key(id));
        assert(change_touches(entry(state.placed, id), entry(new, id), workspace));
    }
    if exists|id: u64| #[trigger]
        state.placed.contains_key(id) && state.placed[id] == (Some(workspace), false) && forall|
            at: int,
        | #[trigger]
            listed_last(listed, at) && listed[at].id == id ==> !(listed[at].workspace_id == Some(
                workspace,
            ) && !listed[at].is_floating) {
        let id = choose|id: u64| #[trigger]
            state.placed.contains_key(id) && state.placed[id] == (Some(workspace), false)
                && forall|at: int| #[trigger]
                listed_last(listed, at) && listed[at].id == id ==> !(listed[at].workspace_id
                    == Some(workspace) && !listed[at].is_floating);
        assert(new.contains_key(id) || !new.contains_key(id));
        assert(change_touches(entry(state.placed, id), entry(new, id), workspace));
    }
}

/// The list names the workspace last at `at`.
pub open spec fn named_last(workspaces: Seq<Workspace>, at: int) -> bool {
    &&& 0 <= at < workspaces.len()
    &&& forall|j: int| at < j < workspaces.len() ==> (#[trigger] workspaces[j]).id
        != workspaces[at].id
}

/// A list of workspaces replaces what was remembered of outputs: of every
/// workspace that it names the last entry counts, and no other is remembered.
pub proof fn a_list_of_workspaces_replaces_the_outputs(workspaces: Seq<Workspace>, id: u64)
    ensures
        outputs_of(workspaces).contains_key(id) <==> exists|at: int| #[trigger]
            named_last(workspaces, at) && workspaces[at].id == id,
        forall|at: int| #[trigger]
            named_last(workspaces, at) && workspaces[at].id == id ==> outputs_of(workspaces)[id]
                == (match workspaces[at].output {
                Some(name) => Some(name@),
                None => None,
            }),
    decreases workspaces.len(),
{
    if workspaces.len() > 0 {
        let front = workspaces.drop_last();
        let n = workspaces.len() - 1;
        a_list_of_workspaces_replaces_the_outputs(front, id);
        if workspaces[n].id == id {
            assert(named_last(workspaces, n));
            assert forall|at: int| #[trigger]
                named_last(workspaces, at) && workspaces[at].id == id implies at == n by {}
        } else {
            assert forall|at: int| #[trigger]
                named_last(front, at) && front[at].id == id implies named_last(workspaces, at)
                && workspaces[at].id == id by {
                assert forall|j: int| at < j < workspaces.len() implies (
                #[trigger] workspaces[j]).id != workspaces[at].id by {
                    if j < n {
                        assert(front[j] == workspaces[j]);
                    }
                }
            }
            assert forall|at: int| #[trigger]
                named_last(workspaces, at) && workspaces[at].id == id implies named_last(front, at)
                && front[at] == workspaces[at] by {
                assert forall|j: int| at < j < front.len() implies (#[trigger] front[j]).id
                    != front[at].id by {
                    assert(front[j] == workspaces[j]);
                }
            }
        }
    }
}

/// A list of workspaces dirties exactly those that it names and that are new, or
/// on another output than they were remembered on. Windows stay as they were.
pub proof fn a_list_of_workspaces_dirties_what_moved(
    state: DaemonView,
    workspaces: Vec<Workspace>,
    workspace: u64,
)
    ensures
        is_dirtied(state, Event::WorkspacesChanged { workspaces }, workspace) <==> exists|at: int| #[trigger]
            named_last(workspaces@, at) && workspaces@[at].id == workspace && !(
            state.workspace_outputs.contains_key(workspace)
                && state.workspace_outputs[workspace] == (match workspaces@[at].output {
                Some(name) => Some(name@),
                None => None,
            })),
        after(state, Event::WorkspacesChanged { workspaces }).placed == state.placed,
{
    a_list_of_workspaces_replaces_the_outputs(workspaces@, workspace);
}

/// A workspace that becomes active is dirtied where it has the focus too, and no
/// other is. Nothing is remembered of it.
pub proof fn activation_dirties_the_focused_workspace(
    state: DaemonView,
    id: u64,
    focused: bool,
    workspace: u64,
)
    ensures
        is_dirtied(state, Event::WorkspaceActivated { id, focused }, workspace) <==> focused
            && workspace == id,
        after(state, Event::WorkspaceActivated { id, focused }) == state,
{
}

/// A new configuration, and the end of the overview, dirty exactly the workspaces
/// on which a remembered window is tiled. The beginning of the overview dirties
/// nothing, and so does any event of no bearing.
pub proof fn a_fresh_start_dirties_every_tiled_workspace(state: DaemonView, workspace: u64)
    ensures
        is_dirtied(state, Event::ConfigLoaded, workspace) <==> exists|id: u64| #[trigger]
            state.placed.contains_key(id) && state.placed[id] == (Some(workspace), false),
        is_dirtied(state, Event::OverviewOpenedOrClosed { is_open: false }, workspace)
            <==> is_dirtied(state, Event::ConfigLoaded, workspace),
        !is_dirtied(state, Event::OverviewOpenedOrClosed { is_open: true }, workspace),
        !is_dirtied(state, Event::Other, workspace),
{
    if exists|id: u64| #[trigger]
        state.placed.contains_key(id) && state.placed[id] == (Some(workspace), false) {
        let id = choose|id: u64| #[trigger]
            state.placed.contains_key(id) && state.placed[id] == (Some(workspace), false);
        assert(tiled_on(entry(state.placed, id), workspace));
    }
    if holds_tiles(state.placed, workspace) {
        let id = choose|id: u64| tiled_on(#[trigger] entry(state.placed, id), workspace);
        assert(state.placed.contains_key(id));
    }
}

/// The overview is open from the event that opens it to the event that closes it:
/// no other event changes that. Only events about windows change what is
/// remembered of windows, and only those about workspaces what is remembered of
/// outputs.
pub proof fn events_change_their_own_memory(state: DaemonView, event: Event)
    ensures
        match event {
            Event::OverviewOpenedOrClosed { is_open } => after(state, event).is_overview == is_open,
            _ => after(state, event).is_overview == state.is_overview,
        },
        !(event is WindowsChanged || event is WindowOpenedOrChanged || event is WindowClosed)
            ==> after(state, event).placed == state.placed,
        !(event is WorkspacesChanged) ==> after(state, event).workspace_outputs
            == state.workspace_outputs,
{
}

/// A workspace that was listed is on the output that the list names; of one that
/// was not, no output is known.
pub proof fn the_list_says_where_workspaces_are(
    state: DaemonView,
    workspaces: Vec<Workspace>,
    at: int,
    id: u64,
)
    ensures
        named_last(workspaces@, at) ==> known_output(
            after(state, Event::WorkspacesChanged { workspaces }),
            workspaces@[at].id,
        ) == (match workspaces@[at].output {
            Some(name) => Some(name@),
            None => None,
        }),
        (forall|k: int| 0 <= k < workspaces@.len() ==> (#[trigger] workspaces@[k]).id != id)
            ==> known_output(after(state, Event::WorkspacesChanged { workspaces }), id) is None,
{
    if named_last(workspaces@, at) {
        a_list_of_workspaces_replaces_the_outputs(workspaces@, workspaces@[at].id);
    }
    a_list_of_workspaces_replaces_the_outputs(workspaces@, id);
}

} // verus!
