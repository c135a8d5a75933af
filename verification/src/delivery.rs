//! Carrying plans and commands out, one step at a time: which request comes
//! next, what a refusal ends, and what is settled once the requests are sent.

use vstd::prelude::*;

use crate::compression::ToggleCommand;
use crate::grid::GridPlan;
use crate::master_stack::WorkspacePlan;
use crate::model::Action;
use crate::snapshot::{refresh_snapshot, WorkspaceSnapshot};

verus! {

broadcast use vstd::string::group_string_axioms;

use crate::compression::{
    font_restore_view,
    is_final,
    is_meant,
    loaded,
    probed,
    selected,
    Toggle,
    ToggleStage,
};
use crate::grid::{grid_actions, grid_plan, workspace_columns};
use crate::model::{Window, Workspace};
use crate::snapshot::{captured, present_widths, refreshed};

/// What to do next.
#[derive(Clone, Copy, Debug, PartialEq, Eq, Structural)]
pub enum DeliveryStep {
    /// Save the snapshot.
    Save,
    /// Send this request.
    Send(Action),
    /// Do what follows on the requests: after a grid, settle font and snapshot;
    /// after a playback, bring the font back and remove the snapshot. Whether
    /// this succeeds does not matter.
    Settle,
    /// A step failed that had to succeed: nothing more is done.
    Stop,
    /// Everything is done.
    Done,
}

// ---------------------------------------------------------------------------
// Plans
// ---------------------------------------------------------------------------

/// The step of a grid after `taken` steps, the last of which `failed` or not:
/// the first refusal ends it, and font and snapshot are settled only after the
/// last request.
pub open spec fn grid_delivery(actions: Seq<Action>, taken: nat, failed: bool) -> DeliveryStep {
    if failed && taken <= actions.len() {
        DeliveryStep::Stop
    } else if taken < actions.len() {
        DeliveryStep::Send(actions[taken as int])
    } else if taken == actions.len() {
        DeliveryStep::Settle
    } else {
        DeliveryStep::Done
    }
}

/// The step of a plan after `taken` steps, the last of which `failed` or not.
pub open spec fn plan_delivery(plan: WorkspacePlan, taken: nat, failed: bool) -> DeliveryStep {
    match plan {
        WorkspacePlan::EqualGrid(Some(grid)) => grid_delivery(grid@.actions, taken, failed),
        WorkspacePlan::EqualGrid(None) => DeliveryStep::Done,
        WorkspacePlan::MasterStack(actions) => if failed && taken <= actions@.len() {
            DeliveryStep::Stop
        } else if taken < actions@.len() {
            DeliveryStep::Send(actions@[taken as int])
        } else {
            DeliveryStep::Done
        },
    }
}

/// Decides on the next step of a grid.
pub fn grid_step(plan: &GridPlan, taken: usize, failed: bool) -> (step: DeliveryStep)
    ensures
        step == grid_delivery(plan@.actions, taken as nat, failed),
{
    if failed && taken <= plan.actions.len() {
        DeliveryStep::Stop
    } else if taken < plan.actions.len() {
        DeliveryStep::Send(plan.actions[taken])
    } else if taken == plan.actions.len() {
        DeliveryStep::Settle
    } else {
        DeliveryStep::Done
    }
}

/// Decides on the next step of a plan.
pub fn plan_step(plan: &WorkspacePlan, taken: usize, failed: bool) -> (step: DeliveryStep)
    ensures
        step == plan_delivery(*plan, taken as nat, failed),
{
    match plan {
        WorkspacePlan::EqualGrid(Some(grid)) => grid_step(grid, taken, failed),
        WorkspacePlan::EqualGrid(None) => DeliveryStep::Done,
        WorkspacePlan::MasterStack(actions) => if failed && taken <= actions.len() {
            DeliveryStep::Stop
        } else if taken < actions.len() {
            DeliveryStep::Send(actions[taken])
        } else {
            DeliveryStep::Done
        },
    }
}

/// What is settled after the last request of a grid.
#[derive(Debug)]
pub struct Settlement {
    /// The font size to set, in tenths of a point.
    pub font_size: Option<u32>,
    /// The snapshot to save.
    pub snapshot: Option<WorkspaceSnapshot>,
}

/// Settles font and snapshot after a grid: the font size is set where the grid
/// holds a terminal, and a workspace that is compressed, so that it has a
/// snapshot, has it brought up to date.
pub fn settle_grid(plan: &GridPlan, snapshot: Option<WorkspaceSnapshot>) -> (settlement: Settlement)
    ensures
        settlement.font_size == (if plan@.pids.len() > 0 {
            Some(plan.font_size)
        } else {
            None
        }),
        match snapshot {
            Some(s) => settlement.snapshot is Some && settlement.snapshot->0@ == refreshed(
                s@,
                plan@,
            ),
            None => settlement.snapshot is None,
        },
{
    let font_size: Option<u32> = if plan.pids.len() > 0 {
        Some(plan.font_size)
    } else {
        None
    };
    let new: Option<WorkspaceSnapshot> = match snapshot {
        Some(s) => Some(refresh_snapshot(s, plan)),
        None => None,
    };
    Settlement { font_size, snapshot: new }
}

// ---------------------------------------------------------------------------
// Commands of a toggle
// ---------------------------------------------------------------------------

/// The request that closes a command: a workspace that was restored or
/// compressed has its columns centred.
pub open spec fn closing(command: ToggleCommand) -> Option<Action> {
    if command is Restore || command is Compress {
        Some(Action::CenterVisibleColumns)
    } else {
        None
    }
}

/// The request that closes a command.
pub fn closing_request(command: &ToggleCommand) -> (request: Option<Action>)
    ensures
        request == closing(*command),
{
    match command {
        ToggleCommand::Restore { .. } => Some(Action::CenterVisibleColumns),
        ToggleCommand::Compress { .. } => Some(Action::CenterVisibleColumns),
        _ => None,
    }
}

/// The step of a command after `taken` steps, the last of which `failed` or not.
/// A playback goes on whatever comes back. A compression ends where the snapshot
/// cannot be saved or a request is refused. Both settle, and then send the
/// closing request.
pub open spec fn command_delivery(command: ToggleCommand, taken: nat, failed: bool) -> DeliveryStep {
    match command {
        ToggleCommand::Restore { actions, .. } => if taken < actions@.len() {
            DeliveryStep::Send(actions@[taken as int])
        } else if taken == actions@.len() {
            DeliveryStep::Settle
        } else if taken == actions@.len() + 1 {
            DeliveryStep::Send(closing(command)->0)
        } else {
            DeliveryStep::Done
        },
        ToggleCommand::Compress { plan, .. } => if taken == 0 {
            DeliveryStep::Save
        } else if taken <= plan@.actions.len() + 1 {
            grid_delivery(plan@.actions, (taken - 1) as nat, failed)
        } else if taken == plan@.actions.len() + 2 {
            DeliveryStep::Send(closing(command)->0)
        } else {
            DeliveryStep::Done
        },
        _ => DeliveryStep::Done,
    }
}

/// The step that closes a command.
fn close(command: &ToggleCommand) -> (step: DeliveryStep)
    ensures
        step == (match closing(*command) {
            Some(request) => DeliveryStep::Send(request),
            None => DeliveryStep::Done,
        }),
{
    match closing_request(command) {
        Some(request) => DeliveryStep::Send(request),
        None => DeliveryStep::Done,
    }
}

/// Decides on the next step of a command that ends a toggle.
pub fn command_step(command: &ToggleCommand, taken: usize, failed: bool) -> (step: DeliveryStep)
    requires
        is_final(*command),
    ensures
        step == command_delivery(*command, taken as nat, failed),
{
    match command {
        ToggleCommand::Restore { actions, .. } => if taken < actions.len() {
            DeliveryStep::Send(actions[taken])
        } else if taken == actions.len() {
            DeliveryStep::Settle
        } else if taken - actions.len() == 1 {
            close(command)
        } else {
            DeliveryStep::Done
        },
        ToggleCommand::Compress { plan, .. } => if taken == 0 {
            DeliveryStep::Save
        } else if taken - 1 <= plan.actions.len() {
            grid_step(plan, taken - 1, failed)
        } else if taken - 1 - plan.actions.len() == 1 {
            close(command)
        } else {
            DeliveryStep::Done
        },
        _ => DeliveryStep::Done,
    }
}

/// How a toggle ends once its command is carried out: with whether the workspace
/// is compressed, or with what to tell where no workspace is meant.
pub fn toggle_outcome(command: &ToggleCommand) -> (outcome: Result<bool, String>)
    requires
        is_final(*command),
    ensures
        match *command {
            ToggleCommand::NoSuchWorkspace => outcome is Err && outcome->Err_0@
                == "no matching workspace found"@,
            _ => outcome == Ok::<bool, String>(*command is Compress),
        },
{
    match command {
        ToggleCommand::NoSuchWorkspace => Err("no matching workspace found".to_owned()),
        ToggleCommand::Compress { .. } => Ok(true),
        _ => Ok(false),
    }
}

// ---------------------------------------------------------------------------
// Laws
// ---------------------------------------------------------------------------

/// Carrying the command out comes to a stop within `steps` steps. `failures` says
/// before each step whether the one before it failed.
pub open spec fn stops(
    command: ToggleCommand,
    failures: spec_fn(nat) -> bool,
    steps: nat,
) -> bool {
    exists|k: nat|
        k < steps && #[trigger] command_delivery(command, k, failures(k)) == DeliveryStep::Stop
}

/// The requests that `steps` steps of a command send.
pub open spec fn delivered(
    command: ToggleCommand,
    failures: spec_fn(nat) -> bool,
    steps: nat,
) -> Seq<Action>
    decreases steps,
{
    if steps == 0 {
        Seq::empty()
    } else {
        let k = (steps - 1) as nat;
        let before = delivered(command, failures, k);
        match command_delivery(command, k, failures(k)) {
            DeliveryStep::Send(action) => if stops(command, failures, k) {
                before
            } else {
                before.push(action)
            },
            _ => before,
        }
    }
}

/// A playback sends all of its requests and the closing one, in this order, and
/// settles in between, whichever of its steps fail.
pub proof fn a_playback_goes_on_regardless(
    command: ToggleCommand,
    failures: spec_fn(nat) -> bool,
    steps: nat,
)
    requires
        command is Restore,
    ensures
        !stops(command, failures, steps),
        steps <= command->Restore_actions@.len() ==> delivered(command, failures, steps)
            == command->Restore_actions@.take(steps as int),
        steps == command->Restore_actions@.len() + 1 ==> delivered(command, failures, steps)
            == command->Restore_actions@,
        steps >= command->Restore_actions@.len() + 2 ==> delivered(command, failures, steps)
            == command->Restore_actions@.push(Action::CenterVisibleColumns),
        command_delivery(
            command,
            command->Restore_actions@.len(),
            failures(command->Restore_actions@.len()),
        ) == DeliveryStep::Settle,
    decreases steps,
{
    let actions = command->Restore_actions@;
    if steps > 0 {
        let k = (steps - 1) as nat;
        a_playback_goes_on_regardless(command, failures, k);
        if steps <= actions.len() {
            assert(actions.take(k as int).push(actions[k as int]) =~= actions.take(steps as int));
        } else if k == actions.len() {
            assert(actions.take(k as int) =~= actions);
        }
    } else {
        assert(actions.take(0) =~= Seq::<Action>::empty());
    }
}

/// A compression of which no step fails saves the snapshot first, sends all
/// requests of its plan, settles, and sends the closing request.
pub proof fn a_compression_sends_its_plan(
    command: ToggleCommand,
    failures: spec_fn(nat) -> bool,
    steps: nat,
)
    requires
        command is Compress,
        forall|k: nat| !#[trigger] failures(k),
    ensures
        !stops(command, failures, steps),
        0 < steps <= command->plan@.actions.len() + 1 ==> delivered(command, failures, steps)
            == command->plan@.actions.take(steps - 1),
        steps == command->plan@.actions.len() + 2 ==> delivered(command, failures, steps)
            == command->plan@.actions,
        steps >= command->plan@.actions.len() + 3 ==> delivered(command, failures, steps)
            == command->plan@.actions.push(Action::CenterVisibleColumns),
        command_delivery(command, 0, failures(0)) == DeliveryStep::Save,
        command_delivery(
            command,
            command->plan@.actions.len() + 1,
            failures(command->plan@.actions.len() + 1),
        ) == DeliveryStep::Settle,
    decreases steps,
{
    let actions = command->plan@.actions;
    if steps > 0 {
        let k = (steps - 1) as nat;
        a_compression_sends_its_plan(command, failures, k);
        assert(!failures(k));
        if k == 0 {
            assert(delivered(command, failures, 0) == Seq::<Action>::empty());
            assert(actions.take(0) =~= Seq::<Action>::empty());
        } else if k <= actions.len() {
            assert(actions.take(k - 1).push(actions[k - 1]) =~= actions.take(k as int));
        } else if k == actions.len() + 1 {
            assert(actions.take(k - 1) =~= actions);
        }
    }
}

/// The first failure ends a compression: after it no request is sent, and
/// neither font nor snapshot is settled. `failed` is how many steps were taken
/// when it came.
pub proof fn the_first_failure_ends_a_compression(
    command: ToggleCommand,
    failures: spec_fn(nat) -> bool,
    failed: nat,
    steps: nat,
)
    requires
        command is Compress,
        0 < failed <= command->plan@.actions.len() + 1,
        failures(failed),
        forall|k: nat| k < failed ==> !#[trigger] failures(k),
        steps >= failed,
    ensures
        delivered(command, failures, steps) == command->plan@.actions.take(failed - 1),
        command_delivery(command, failed, failures(failed)) == DeliveryStep::Stop,
        forall|k: nat|
            k < failed ==> #[trigger] command_delivery(command, k, failures(k))
                != DeliveryStep::Settle,
    decreases steps,
{
    let actions = command->plan@.actions;
    assert(command_delivery(command, failed, failures(failed)) == DeliveryStep::Stop);
    if steps == failed {
        lemma_sent_before_failure(command, failures, failed, steps);
    } else {
        let k = (steps - 1) as nat;
        the_first_failure_ends_a_compression(command, failures, failed, k);
        if k > failed {
            assert(stops(command, failures, k));
        }
    }
}

proof fn lemma_sent_before_failure(
    command: ToggleCommand,
    failures: spec_fn(nat) -> bool,
    failed: nat,
    steps: nat,
)
    requires
        command is Compress,
        0 < steps <= failed <= command->plan@.actions.len() + 1,
        forall|k: nat| k < failed ==> !#[trigger] failures(k),
    ensures
        !stops(command, failures, steps),
        delivered(command, failures, steps) == command->plan@.actions.take(steps - 1),
    decreases steps,
{
    let actions = command->plan@.actions;
    let k = (steps - 1) as nat;
    assert forall|j: nat| j < steps implies #[trigger] command_delivery(command, j, failures(j))
        != DeliveryStep::Stop by {
        assert(!failures(j));
    }
    assert(!failures(k));
    if k == 0 {
        assert(delivered(command, failures, 0) == Seq::<Action>::empty());
        assert(actions.take(0) =~= Seq::<Action>::empty());
    } else {
        lemma_sent_before_failure(command, failures, failed, k);
        assert(actions.take(k - 1).push(actions[k - 1]) =~= actions.take(k as int));
    }
}

/// A second toggle undoes the first. The workspace is still listed, and its
/// snapshot is the one that the first toggle left: taken, and brought up to date
/// after the requests were sent. Then the second toggle looks the snapshot up and
/// restores, and whichever requests are refused, it sends for each column from
/// left to right the width from before and the height resets of its windows, and
/// last the request to centre the columns.
pub proof fn a_second_toggle_plays_the_first_back(
    workspace: Workspace,
    windows: Seq<Window>,
    usable_width: i32,
    gap: i32,
    config: Option<Seq<char>>,
    timestamp: u64,
    snapshot: WorkspaceSnapshot,
    toggle: Toggle,
    workspaces: Seq<Workspace>,
    stages: (ToggleStage, ToggleStage, ToggleStage),
    commands: (ToggleCommand, ToggleCommand, ToggleCommand),
    failures: spec_fn(nat) -> bool,
)
    requires
        snapshot@ == ({
            let plan = grid_plan(windows, workspace.id, usable_width as int, gap as int);
            refreshed(captured(workspace, plan, usable_width, config, timestamp), plan)
        }),
        toggle.wanted == Some(workspace.id),
        exists|i: int| 0 <= i < workspaces.len() && (#[trigger] workspaces[i]).id == workspace.id,
        selected(toggle, workspaces, stages.0, commands.0),
        stages.0 matches ToggleStage::Probing(w) ==> probed(w, true, stages.1, commands.1),
        stages.1 matches ToggleStage::Loading(id) ==> loaded(
            id,
            Some(snapshot),
            stages.2,
            commands.2,
        ),
    ensures
        commands.0 == ToggleCommand::ProbeSnapshot(workspace.id),
        commands.1 == ToggleCommand::LoadSnapshot(workspace.id),
        commands.2 is Restore,
        commands.2->workspace_id == workspace.id,
        font_restore_view(commands.2->font) == Some(
            (
                config,
                grid_plan(windows, workspace.id, usable_width as int, gap as int).pids,
            ),
        ),
        ({
            let columns = workspace_columns(windows, workspace.id);
            let requests = grid_actions(columns, present_widths(columns));
            &&& forall|steps: nat|
                steps >= requests.len() + 2 ==> #[trigger] delivered(
                    commands.2,
                    failures,
                    steps,
                ) == requests.push(Action::CenterVisibleColumns)
            &&& forall|steps: nat| !#[trigger] stops(commands.2, failures, steps)
        }),
{
    let at = choose|i: int|
        0 <= i < workspaces.len() && (#[trigger] workspaces[i]).id == workspace.id;
    assert(is_meant(workspaces[at], toggle.wanted));
    assert forall|steps: nat| !#[trigger] stops(commands.2, failures, steps) by {
        a_playback_goes_on_regardless(commands.2, failures, steps);
    }
    let columns = workspace_columns(windows, workspace.id);
    let requests = grid_actions(columns, present_widths(columns));
    assert forall|steps: nat| steps >= requests.len() + 2 implies #[trigger] delivered(
        commands.2,
        failures,
        steps,
    ) == requests.push(Action::CenterVisibleColumns) by {
        a_playback_goes_on_regardless(commands.2, failures, steps);
    }
}

/// A plan is sent request by request, in its turn. The first refusal ends it. After
/// the last request a grid is settled, once; a master stack has nothing to settle.
pub proof fn a_plan_is_sent_in_turn(plan: WorkspacePlan, taken: nat)
    ensures
        plan matches WorkspacePlan::EqualGrid(Some(grid)) ==> {
            let n = grid.actions@.len();
            &&& taken < n ==> plan_delivery(plan, taken, false) == DeliveryStep::Send(
                grid.actions@[taken as int],
            )
            &&& taken == n ==> plan_delivery(plan, taken, false) == DeliveryStep::Settle
            &&& taken > n ==> plan_delivery(plan, taken, false) == DeliveryStep::Done
            &&& taken <= n ==> plan_delivery(plan, taken, true) == DeliveryStep::Stop
        },
        plan matches WorkspacePlan::EqualGrid(None) ==> plan_delivery(plan, taken, false)
            == DeliveryStep::Done,
        plan matches WorkspacePlan::MasterStack(actions) ==> {
            let n = actions@.len();
            &&& taken < n ==> plan_delivery(plan, taken, false) == DeliveryStep::Send(
                actions@[taken as int],
            )
            &&& taken >= n ==> plan_delivery(plan, taken, false) == DeliveryStep::Done
            &&& taken <= n ==> plan_delivery(plan, taken, true) == DeliveryStep::Stop
        },
{
}

} // verus!
