//! The status report: what it says of outputs, workspaces and terminals, and
//! how it reads as text.

use vstd::prelude::*;

use crate::font::{get_font_size_floor, get_ghostty_pids};
use crate::ghostty_config::get_base_font_size;
use crate::layout::parse_workspace_columns;
use crate::model::{Output, Window, Workspace};
use crate::number::{decimal_text, one_decimal_text, signed_text};
use crate::outputs::{logical_dimensions, logical_scale};

verus! {

broadcast use vstd::string::group_string_axioms;

use crate::font::{terminal_pids, DEFAULT_FONT_SIZE, FONT_SIZE_FLOOR};
use crate::ghostty_config::baseline;
use crate::grid::workspace_columns;
use crate::layout::{add_index, column_indices, column_views, tiles_of};
use crate::model::Tile;
use crate::number::{
    decimal,
    decimals_are_numerals,
    is_numeral,
    place_value,
    signed_decimal,
    with_one_decimal,
};
use crate::outputs::{dimensions, scale_of};
use crate::text::{opt_text, opt_view, views};

/// What is reported of a workspace.
#[derive(Debug, PartialEq)]
pub struct WorkspaceStatus {
    pub id: u64,
    pub name: Option<String>,
    pub output: Option<String>,
    pub is_focused: bool,
    pub is_active: bool,
    pub column_count: usize,
    pub window_count: usize,
    pub is_compressed: bool,
}

/// What is reported of an output. The scale is the bits of a double.
#[derive(Debug, PartialEq)]
pub struct OutputStatus {
    pub name: String,
    pub width: i32,
    pub height: i32,
    pub scale: u64,
}

/// The report. Font sizes are in tenths of a point.
#[derive(Debug, PartialEq)]
pub struct StatusReport {
    pub outputs: Vec<OutputStatus>,
    pub workspaces: Vec<WorkspaceStatus>,
    pub base_font_size: u32,
    pub font_size_floor: u32,
    pub ghostty_instances: usize,
}

/// How many of the windows are on the workspace and do not float.
pub open spec fn window_count(windows: Seq<Window>, workspace_id: u64) -> nat
    decreases windows.len(),
{
    if windows.len() == 0 {
        0
    } else {
        let rest = window_count(windows.drop_last(), workspace_id);
        if windows.last().workspace_id == Some(workspace_id) && !windows.last().is_floating {
            rest + 1
        } else {
            rest
        }
    }
}

/// The status is that of the workspace.
pub open spec fn is_status_of(
    status: WorkspaceStatus,
    workspace: Workspace,
    windows: Seq<Window>,
    compressed: bool,
) -> bool {
    &&& status.id == workspace.id
    &&& opt_text(status.name) == opt_text(workspace.name)
    &&& opt_text(status.output) == opt_text(workspace.output)
    &&& status.is_focused == workspace.is_focused
    &&& status.is_active == workspace.is_active
    &&& status.column_count == workspace_columns(windows, workspace.id).len()
    &&& status.window_count == window_count(windows, workspace.id)
    &&& status.is_compressed == compressed
}

/// The status is that of the output.
pub open spec fn is_output_status(status: OutputStatus, output: Output) -> bool {
    &&& status.name@ == output.name@
    &&& (status.width as int, status.height as int) == dimensions(output.logical)
    &&& status.scale == scale_of(output.logical)
}

/// An equal string.
fn copy_text(text: &Option<String>) -> (copy: Option<String>)
    ensures
        opt_text(copy) == opt_text(*text),
{
    match text {
        Some(t) => Some(t.as_str().to_owned()),
        None => None,
    }
}

/// Counts the windows that are on the workspace and do not float.
fn count_windows(windows: &[Window], workspace_id: u64) -> (count: usize)
    ensures
        count == window_count(windows@, workspace_id),
{
    let mut count: usize = 0;
    let mut i: usize = 0;
    while i < windows.len()
        invariant
            i <= windows.len(),
            count <= i,
            count == window_count(windows@.take(i as int), workspace_id),
        decreases windows.len() - i,
    {
        proof {
            assert(windows@.take(i + 1).drop_last() =~= windows@.take(i as int));
            assert(windows@.take(i + 1).last() == windows@[i as int]);
        }
        let here: bool = match windows[i].workspace_id {
            Some(id) => id == workspace_id,
            None => false,
        };
        if here && !windows[i].is_floating {
            count = count + 1;
        }
        i = i + 1;
    }
    assert(windows@.take(i as int) =~= windows@);
    count
}

/// Reports on one workspace.
pub fn workspace_status(workspace: &Workspace, windows: &[Window], compressed: bool) -> (status:
    WorkspaceStatus)
    ensures
        is_status_of(status, *workspace, windows@, compressed),
{
    let columns = parse_workspace_columns(windows, workspace.id);
    assert(column_views(columns@).len() == columns@.len());
    WorkspaceStatus {
        id: workspace.id,
        name: copy_text(&workspace.name),
        output: copy_text(&workspace.output),
        is_focused: workspace.is_focused,
        is_active: workspace.is_active,
        column_count: columns.len(),
        window_count: count_windows(windows, workspace.id),
        is_compressed: compressed,
    }
}

/// Reports on one output.
pub fn output_status(output: &Output) -> (status: OutputStatus)
    ensures
        is_output_status(status, *output),
{
    let (width, height): (i32, i32) = logical_dimensions(output.logical);
    OutputStatus {
        name: output.name.as_str().to_owned(),
        width,
        height,
        scale: logical_scale(output.logical),
    }
}

/// Reports on everything. `compressed` says of each workspace whether it is
/// compressed, and `config` is what the terminal's configuration holds, if it
/// can be read.
pub fn report_status(
    outputs: &[Output],
    workspaces: &[Workspace],
    windows: &[Window],
    compressed: &[bool],
    config: Option<&str>,
) -> (report: StatusReport)
    requires
        compressed.len() == workspaces.len(),
    ensures
        report.outputs.len() == outputs.len(),
        forall|i: int|
            0 <= i < outputs.len() ==> is_output_status(#[trigger] report.outputs@[i], outputs@[i]),
        report.workspaces.len() == workspaces.len(),
        forall|i: int|
            0 <= i < workspaces.len() ==> is_status_of(
                #[trigger] report.workspaces@[i],
                workspaces@[i],
                windows@,
                compressed@[i],
            ),
        report.base_font_size == (match opt_view(config) {
            Some(content) => baseline(content),
            None => DEFAULT_FONT_SIZE,
        }),
        report.font_size_floor == FONT_SIZE_FLOOR,
        report.ghostty_instances == terminal_pids(windows@, None).len(),
{
    let mut out_list: Vec<OutputStatus> = Vec::new();
    let mut i: usize = 0;
    while i < outputs.len()
        invariant
            i <= outputs.len(),
            out_list.len() == i,
            forall|k: int| 0 <= k < i ==> is_output_status(#[trigger] out_list@[k], outputs@[k]),
        decreases outputs.len() - i,
    {
        out_list.push(output_status(&outputs[i]));
        i = i + 1;
    }
    let mut ws_list: Vec<WorkspaceStatus> = Vec::new();
    let mut j: usize = 0;
    while j < workspaces.len()
        invariant
            j <= workspaces.len(),
            compressed.len() == workspaces.len(),
            ws_list.len() == j,
            forall|k: int|
                0 <= k < j ==> is_status_of(
                    #[trigger] ws_list@[k],
                    workspaces@[k],
                    windows@,
                    compressed@[k],
                ),
        decreases workspaces.len() - j,
    {
        ws_list.push(workspace_status(&workspaces[j], windows, compressed[j]));
        j = j + 1;
    }
    StatusReport {
        outputs: out_list,
        workspaces: ws_list,
        base_font_size: get_base_font_size(config),
        font_size_floor: get_font_size_floor(),
        ghostty_instances: get_ghostty_pids(windows).len(),
    }
}

/// The line about the terminal font.
pub open spec fn font_line(base: nat, floor: nat) -> Seq<char> {
    "  Ghostty Base Font: "@ + with_one_decimal(base) + "pt (Floor: "@ + with_one_decimal(floor)
        + "pt)"@
}

/// The line about an output, whose scale reads as `scale`.
pub open spec fn output_line(output: OutputStatus, scale: Seq<char>) -> Seq<char> {
    "    - "@ + output.name@ + ": "@ + signed_decimal(output.width as int) + "x"@ + signed_decimal(
        output.height as int,
    ) + " (scale "@ + scale + ")"@
}

/// The line about a workspace.
pub open spec fn workspace_line(workspace: WorkspaceStatus) -> Seq<char> {
    "    - WS "@ + decimal(workspace.id as nat) + " on "@ + (match opt_text(workspace.output) {
        Some(name) => name,
        None => "none"@,
    }) + ": "@ + decimal(workspace.column_count as nat) + " column(s)"@ + (
    if workspace.is_focused {
        " (focused)"@
    } else {
        ""@
    }) + (if workspace.is_compressed {
        " [COMPRESSED]"@
    } else {
        ""@
    })
}

/// A line about each output.
pub open spec fn output_lines(outputs: Seq<OutputStatus>, scales: Seq<Seq<char>>) -> Seq<Seq<char>> {
    outputs.map(|i: int, output: OutputStatus| output_line(output, scales[i]))
}

/// A line about each workspace.
pub open spec fn workspace_lines(workspaces: Seq<WorkspaceStatus>) -> Seq<Seq<char>> {
    workspaces.map_values(|workspace: WorkspaceStatus| workspace_line(workspace))
}

/// The report as lines of text.
pub open spec fn report_lines(report: StatusReport, scales: Seq<Seq<char>>) -> Seq<Seq<char>> {
    seq![
        "irene autotiling status:"@,
        font_line(report.base_font_size as nat, report.font_size_floor as nat),
        "  Outputs:"@,
    ] + output_lines(report.outputs@, scales) + seq!["  Workspaces:"@] + workspace_lines(
        report.workspaces@,
    )
}

/// Writes the line about the terminal font.
fn write_font_line(base: u32, floor: u32) -> (line: String)
    ensures
        line@ == font_line(base as nat, floor as nat),
{
    let mut line: String = "  Ghostty Base Font: ".to_owned();
    line.append(one_decimal_text(base).as_str());
    line.append("pt (Floor: ");
    line.append(one_decimal_text(floor).as_str());
    line.append("pt)");
    line
}

/// Writes the line about an output.
fn write_output_line(output: &OutputStatus, scale: &str) -> (line: String)
    ensures
        line@ == output_line(*output, scale@),
{
    let mut line: String = "    - ".to_owned();
    line.append(output.name.as_str());
    line.append(": ");
    line.append(signed_text(output.width).as_str());
    line.append("x");
    line.append(signed_text(output.height).as_str());
    line.append(" (scale ");
    line.append(scale);
    line.append(")");
    line
}

/// Writes the line about a workspace.
fn write_workspace_line(workspace: &WorkspaceStatus) -> (line: String)
    ensures
        line@ == workspace_line(*workspace),
{
    let mut line: String = "    - WS ".to_owned();
    line.append(decimal_text(workspace.id).as_str());
    line.append(" on ");
    match &workspace.output {
        Some(name) => {
            line.append(name.as_str());
        },
        None => {
            line.append("none");
        },
    }
    line.append(": ");
    line.append(decimal_text(workspace.column_count as u64).as_str());
    line.append(" column(s)");
    if workspace.is_focused {
        line.append(" (focused)");
    } else {
        line.append("");
    }
    if workspace.is_compressed {
        line.append(" [COMPRESSED]");
    } else {
        line.append("");
    }
    line
}

/// Writes the report as lines of text. `scales` holds the scale of each output
/// as text.
pub fn status_lines(report: &StatusReport, scales: &[String]) -> (text: Vec<String>)
    requires
        scales.len() == report.outputs.len(),
    ensures
        views(text@) == report_lines(*report, views(scales@)),
{
    let mut text: Vec<String> = Vec::new();
    text.push("irene autotiling status:".to_owned());
    text.push(write_font_line(report.base_font_size, report.font_size_floor));
    text.push("  Outputs:".to_owned());
    let ghost head = views(text@);
    assert(head =~= seq![
        "irene autotiling status:"@,
        font_line(report.base_font_size as nat, report.font_size_floor as nat),
        "  Outputs:"@,
    ]);
    assert(head =~= head + output_lines(report.outputs@.take(0), views(scales@)));
    let mut i: usize = 0;
    while i < report.outputs.len()
        invariant
            i <= report.outputs.len(),
            scales.len() == report.outputs.len(),
            views(text@) == head + output_lines(report.outputs@.take(i as int), views(scales@)),
        decreases report.outputs.len() - i,
    {
        let ghost before = text@;
        let line: String = write_output_line(&report.outputs[i], scales[i].as_str());
        text.push(line);
        proof {
            assert(views(text@) =~= views(before).push(line@));
            assert(output_lines(report.outputs@.take(i + 1), views(scales@)) =~= output_lines(
                report.outputs@.take(i as int),
                views(scales@),
            ).push(line@));
        }
        i = i + 1;
    }
    let ghost before = text@;
    text.push("  Workspaces:".to_owned());
    let ghost upper = views(text@);
    assert(report.outputs@.take(i as int) =~= report.outputs@);
    assert(upper =~= views(before) + seq!["  Workspaces:"@]);
    assert(upper =~= upper + workspace_lines(report.workspaces@.take(0)));
    let mut j: usize = 0;
    while j < report.workspaces.len()
        invariant
            j <= report.workspaces.len(),
            views(text@) == upper + workspace_lines(report.workspaces@.take(j as int)),
        decreases report.workspaces.len() - j,
    {
        let ghost before = text@;
        let line: String = write_workspace_line(&report.workspaces[j]);
        text.push(line);
        proof {
            assert(views(text@) =~= views(before).push(line@));
            assert(workspace_lines(report.workspaces@.take(j + 1)) =~= workspace_lines(
                report.workspaces@.take(j as int),
            ).push(line@));
        }
        j = j + 1;
    }
    assert(report.workspaces@.take(j as int) =~= report.workspaces@);
    text
}

proof fn lemma_index_added_once(indices: Seq<usize>, index: usize)
    ensures
        add_index(indices, index).len() <= indices.len() + 1,
    decreases indices.len(),
{
    if indices.len() > 0 {
        lemma_index_added_once(indices.drop_last(), index);
    }
}

proof fn lemma_columns_need_tiles(tiles: Seq<Tile>)
    ensures
        column_indices(tiles).len() <= tiles.len(),
    decreases tiles.len(),
{
    if tiles.len() > 0 {
        lemma_columns_need_tiles(tiles.drop_last());
        lemma_index_added_once(column_indices(tiles.drop_last()), tiles.last().column);
    }
}

proof fn lemma_tiles_are_counted(windows: Seq<Window>, workspace_id: u64)
    ensures
        tiles_of(windows, workspace_id, Seq::empty()).len() <= window_count(windows, workspace_id),
    decreases windows.len(),
{
    if windows.len() > 0 {
        lemma_tiles_are_counted(windows.drop_last(), workspace_id);
    }
}

/// No more columns are reported of a workspace than windows.
pub proof fn columns_need_windows(windows: Seq<Window>, workspace_id: u64)
    ensures
        workspace_columns(windows, workspace_id).len() <= window_count(windows, workspace_id),
{
    lemma_columns_need_tiles(tiles_of(windows, workspace_id, Seq::empty()));
    lemma_tiles_are_counted(windows, workspace_id);
}

/// The windows that are counted are those that are on the workspace and do not
/// float, each once.
pub proof fn windows_are_counted_once(windows: Seq<Window>, workspace_id: u64)
    ensures
        window_count(windows, workspace_id) == windows.filter(
            |w: Window| w.workspace_id == Some(workspace_id) && !w.is_floating,
        ).len(),
    decreases windows.len(),
{
    let here = |w: Window| w.workspace_id == Some(workspace_id) && !w.is_floating;
    reveal(Seq::filter);
    if windows.len() > 0 {
        windows_are_counted_once(windows.drop_last(), workspace_id);
        assert(windows.filter(here).len() == windows.drop_last().filter(here).len() + if here(
            windows.last(),
        ) {
            1int
        } else {
            0
        });
    }
}

/// The line about a workspace tells its number, its output or that it has none,
/// and the number of its columns, and marks it where it has the focus and where it
/// is compressed.
pub proof fn workspace_lines_tell(workspace: WorkspaceStatus) -> (numerals: (Seq<char>, Seq<char>))
    ensures
        is_numeral(numerals.0) && place_value(numerals.0) == workspace.id,
        is_numeral(numerals.1) && place_value(numerals.1) == workspace.column_count,
        workspace_line(workspace) == "    - WS "@ + numerals.0 + " on "@ + (
        match workspace.output {
            Some(name) => name@,
            None => "none"@,
        }) + ": "@ + numerals.1 + " column(s)"@ + (if workspace.is_focused {
            " (focused)"@
        } else {
            Seq::empty()
        }) + (if workspace.is_compressed {
            " [COMPRESSED]"@
        } else {
            Seq::empty()
        }),
{
    reveal_strlit("");
    assert(""@ =~= Seq::<char>::empty());
    decimals_are_numerals(workspace.id as nat);
    decimals_are_numerals(workspace.column_count as nat);
    (decimal(workspace.id as nat), decimal(workspace.column_count as nat))
}

/// The line about an output tells its name, its width and height, and its scale.
pub proof fn output_lines_tell(output: OutputStatus, scale: Seq<char>)
    ensures
        output_line(output, scale) == "    - "@ + output.name@ + ": "@ + signed_decimal(
            output.width as int,
        ) + "x"@ + signed_decimal(output.height as int) + " (scale "@ + scale + ")"@,
{
}

/// The report as text: a heading, the font, a line for each output under its
/// heading, and a line for each workspace under its own, in the turn in which they
/// are listed.
pub proof fn reports_list_everything_in_turn(
    report: StatusReport,
    scales: Seq<Seq<char>>,
    i: int,
    j: int,
)
    requires
        scales.len() == report.outputs@.len(),
    ensures
        ({
            let text = report_lines(report, scales);
            let outputs = report.outputs@.len() as int;
            let workspaces = report.workspaces@.len() as int;
            &&& text.len() == 4 + outputs + workspaces
            &&& text[0] == "irene autotiling status:"@
            &&& text[1] == "  Ghostty Base Font: "@ + with_one_decimal(
                report.base_font_size as nat,
            ) + "pt (Floor: "@ + with_one_decimal(report.font_size_floor as nat) + "pt)"@
            &&& text[2] == "  Outputs:"@
            &&& 0 <= i < outputs ==> text[3 + i] == output_line(report.outputs@[i], scales[i])
            &&& text[3 + outputs] == "  Workspaces:"@
            &&& 0 <= j < workspaces ==> text[4 + outputs + j] == workspace_line(
                report.workspaces@[j],
            )
        }),
{
}

} // verus!
