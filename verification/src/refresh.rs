//! Laying workspaces out anew: which plan a workspace gets, given its output,
//! the configuration and the mode.

use vstd::prelude::*;

use crate::compression::select_workspace;
use crate::grid::{check_grid_fits, check_rows_fit, layout_equal_grid_2d};
use crate::layout::{
    calculate_usable_height,
    calculate_usable_width,
    check_struts_fit,
    LayoutConfig,
};
use crate::master_stack::{layout_workspace, WorkspacePlan};
use crate::model::{Output, Window, Workspace};
use crate::outputs::output_dimensions;

verus! {

use crate::compression::{first_meant, none_meant};
use crate::grid::{
    grid_2d_stays_on_its_workspace,
    grid_plan_2d,
    only_tiled,
    rows_fit,
    workspace_columns,
};
use crate::layout::{between_struts, shares_fit, struts_fit};
use crate::master_stack::{master_stack_actions, stack_stays_on_its_workspace};
use crate::model::Action;
use crate::outputs::{dimensions, size_named};
use crate::text::{opt_text, opt_view};

/// The width that the struts leave of the output of that name.
pub open spec fn width_on(
    outputs: Seq<Output>,
    output: Option<Seq<char>>,
    config: LayoutConfig,
) -> int {
    between_struts(
        dimensions(size_named(outputs, output)).0,
        config.strut_left as int,
        config.strut_right as int,
    )
}

/// The height that the struts leave of the output of that name.
pub open spec fn height_on(
    outputs: Seq<Output>,
    output: Option<Seq<char>>,
    config: LayoutConfig,
) -> int {
    between_struts(
        dimensions(size_named(outputs, output)).1,
        config.strut_top as int,
        config.strut_bottom as int,
    )
}

/// The arithmetic behind the plan for a workspace stays within an `i32`.
pub open spec fn plan_fits(
    windows: Seq<Window>,
    outputs: Seq<Output>,
    workspace_id: u64,
    output: Option<Seq<char>>,
    config: LayoutConfig,
    grid: bool,
) -> bool {
    let (width, height) = dimensions(size_named(outputs, output));
    &&& struts_fit(width as i32, config.strut_left, config.strut_right)
    &&& struts_fit(height as i32, config.strut_top, config.strut_bottom)
    &&& grid ==> shares_fit(
        width_on(outputs, output, config),
        config.gap as int,
        workspace_columns(windows, workspace_id).len(),
    )
    &&& grid ==> rows_fit(
        workspace_columns(windows, workspace_id),
        height_on(outputs, output, config),
        config.gap as int,
    )
}

/// The plan is the one that the workspace gets: an equal grid on the usable part
/// of its output, or the master stack.
pub open spec fn is_plan_for(
    plan: WorkspacePlan,
    windows: Seq<Window>,
    outputs: Seq<Output>,
    workspace_id: u64,
    output: Option<Seq<char>>,
    config: LayoutConfig,
    grid: bool,
) -> bool {
    match plan {
        WorkspacePlan::EqualGrid(found) => {
            &&& grid
            &&& found is None <==> workspace_columns(windows, workspace_id).len() == 0
            &&& found matches Some(g) ==> g@ == grid_plan_2d(
                windows,
                workspace_id,
                width_on(outputs, output, config),
                height_on(outputs, output, config),
                config.gap as int,
            )
        },
        WorkspacePlan::MasterStack(actions) => {
            &&& !grid
            &&& actions@ == master_stack_actions(windows, workspace_id)
        },
    }
}

/// Decides whether the arithmetic behind the plan stays within an `i32`.
pub fn check_plan_fits(
    windows: &[Window],
    outputs: &[Output],
    workspace_id: u64,
    output: Option<&str>,
    config: &LayoutConfig,
    grid: bool,
) -> (fits: bool)
    ensures
        fits == plan_fits(windows@, outputs@, workspace_id, opt_view(output), *config, grid),
{
    let (width, height): (i32, i32) = output_dimensions(outputs, output);
    if !check_struts_fit(width, config.strut_left, config.strut_right) || !check_struts_fit(
        height,
        config.strut_top,
        config.strut_bottom,
    ) {
        return false;
    }
    if !grid {
        return true;
    }
    let usable_width: i32 = calculate_usable_width(width, config.strut_left, config.strut_right);
    let usable_height: i32 = calculate_usable_height(height, config.strut_top, config.strut_bottom);
    check_grid_fits(windows, workspace_id, usable_width, config.gap) && check_rows_fit(
        windows,
        workspace_id,
        usable_height,
        config.gap,
    )
}

/// Plans one workspace. It gets an equal grid where that mode is in force or the
/// workspace is compressed, and the master stack otherwise.
pub fn plan_workspace(
    windows: &[Window],
    outputs: &[Output],
    workspace_id: u64,
    output: Option<&str>,
    config: &LayoutConfig,
    equal_grid: bool,
    compressed: bool,
) -> (plan: WorkspacePlan)
    requires
        plan_fits(
            windows@,
            outputs@,
            workspace_id,
            opt_view(output),
            *config,
            equal_grid || compressed,
        ),
    ensures
        is_plan_for(
            plan,
            windows@,
            outputs@,
            workspace_id,
            opt_view(output),
            *config,
            equal_grid || compressed,
        ),
{
    let (width, height): (i32, i32) = output_dimensions(outputs, output);
    let usable_width: i32 = calculate_usable_width(width, config.strut_left, config.strut_right);
    let usable_height: i32 = calculate_usable_height(height, config.strut_top, config.strut_bottom);
    if equal_grid || compressed {
        WorkspacePlan::EqualGrid(
            layout_equal_grid_2d(windows, workspace_id, usable_width, usable_height, config.gap),
        )
    } else {
        layout_workspace(windows, workspace_id, false)
    }
}

/// A workspace and its plan.
#[derive(Debug)]
pub struct Refresh {
    pub workspace_id: u64,
    pub plan: WorkspacePlan,
}

/// The plan of every workspace fits.
pub open spec fn all_plans_fit(
    workspaces: Seq<Workspace>,
    windows: Seq<Window>,
    outputs: Seq<Output>,
    config: LayoutConfig,
    equal_grid: bool,
    compressed: Seq<bool>,
) -> bool {
    forall|i: int|
        0 <= i < workspaces.len() ==> plan_fits(
            windows,
            outputs,
            (#[trigger] workspaces[i]).id,
            opt_text(workspaces[i].output),
            config,
            equal_grid || compressed[i],
        )
}

/// The optional text as a reference.
fn borrowed(text: &Option<String>) -> (t: Option<&str>)
    ensures
        opt_view(t) == opt_text(*text),
{
    match text {
        Some(t) => Some(t.as_str()),
        None => None,
    }
}

/// The refresh is the one that the workspace gets.
pub open spec fn is_refresh_of(
    refresh: Refresh,
    workspace: Workspace,
    windows: Seq<Window>,
    outputs: Seq<Output>,
    config: LayoutConfig,
    grid: bool,
) -> bool {
    &&& refresh.workspace_id == workspace.id
    &&& is_plan_for(
        refresh.plan,
        windows,
        outputs,
        workspace.id,
        opt_text(workspace.output),
        config,
        grid,
    )
}

/// Plans every workspace, in the order in which they are listed. `compressed`
/// says of each whether it is compressed.
pub fn refresh_all_workspaces(
    workspaces: &[Workspace],
    windows: &[Window],
    outputs: &[Output],
    config: &LayoutConfig,
    equal_grid: bool,
    compressed: &[bool],
) -> (refreshes: Vec<Refresh>)
    requires
        compressed.len() == workspaces.len(),
        all_plans_fit(workspaces@, windows@, outputs@, *config, equal_grid, compressed@),
    ensures
        refreshes.len() == workspaces.len(),
        forall|i: int|
            0 <= i < workspaces.len() ==> is_refresh_of(
                #[trigger] refreshes@[i],
                workspaces@[i],
                windows@,
                outputs@,
                *config,
                equal_grid || compressed@[i],
            ),
{
    let mut refreshes: Vec<Refresh> = Vec::new();
    let mut i: usize = 0;
    while i < workspaces.len()
        invariant
            i <= workspaces.len(),
            refreshes.len() == i,
            compressed.len() == workspaces.len(),
            all_plans_fit(workspaces@, windows@, outputs@, *config, equal_grid, compressed@),
            forall|k: int|
                0 <= k < i ==> is_refresh_of(
                    #[trigger] refreshes@[k],
                    workspaces@[k],
                    windows@,
                    outputs@,
                    *config,
                    equal_grid || compressed@[k],
                ),
        decreases workspaces.len() - i,
    {
        let workspace: &Workspace = &workspaces[i];
        assert(*workspace == workspaces@[i as int]);
        let plan: WorkspacePlan = plan_workspace(
            windows,
            outputs,
            workspace.id,
            borrowed(&workspace.output),
            config,
            equal_grid,
            compressed[i],
        );
        refreshes.push(Refresh { workspace_id: workspace.id, plan });
        i = i + 1;
    }
    refreshes
}

/// Plans the workspace that has the focus, the first one listed where several
/// have. Without one there is nothing to plan. `compressed` says whether that
/// workspace is compressed.
pub fn refresh_focused_workspace(
    workspaces: &[Workspace],
    windows: &[Window],
    outputs: &[Output],
    config: &LayoutConfig,
    equal_grid: bool,
    compressed: bool,
) -> (refresh: Option<Refresh>)
    requires
        forall|at: int| #[trigger]
            first_meant(workspaces@, None, at) ==> plan_fits(
                windows@,
                outputs@,
                workspaces@[at].id,
                opt_text(workspaces@[at].output),
                *config,
                equal_grid || compressed,
            ),
    ensures
        match refresh {
            Some(r) => exists|at: int| #[trigger]
                first_meant(workspaces@, None, at) && is_refresh_of(
                    r,
                    workspaces@[at],
                    windows@,
                    outputs@,
                    *config,
                    equal_grid || compressed,
                ),
            None => none_meant(workspaces@, None),
        },
{
    match select_workspace(workspaces, None) {
        Some(at) => {
            let workspace: &Workspace = &workspaces[at];
            assert(*workspace == workspaces@[at as int]);
            let plan: WorkspacePlan = plan_workspace(
                windows,
                outputs,
                workspace.id,
                borrowed(&workspace.output),
                config,
                equal_grid,
                compressed,
            );
            Some(Refresh { workspace_id: workspace.id, plan })
        },
        None => None,
    }
}

/// The requests of a plan.
pub open spec fn actions_of(plan: WorkspacePlan) -> Seq<Action> {
    match plan {
        WorkspacePlan::EqualGrid(Some(grid)) => grid@.actions,
        WorkspacePlan::EqualGrid(None) => Seq::empty(),
        WorkspacePlan::MasterStack(actions) => actions@,
    }
}

/// A refresh asks nothing of a window that floats or that belongs to another
/// workspace, whichever plan the workspace gets.
pub proof fn refresh_stays_on_its_workspace(
    plan: WorkspacePlan,
    windows: Seq<Window>,
    outputs: Seq<Output>,
    workspace_id: u64,
    output: Option<Seq<char>>,
    config: LayoutConfig,
    grid: bool,
)
    requires
        is_plan_for(plan, windows, outputs, workspace_id, output, config, grid),
    ensures
        only_tiled(windows, workspace_id, actions_of(plan)),
{
    grid_2d_stays_on_its_workspace(
        windows,
        workspace_id,
        width_on(outputs, output, config),
        height_on(outputs, output, config),
        config.gap as int,
    );
    stack_stays_on_its_workspace(windows, workspace_id);
}

} // verus!
