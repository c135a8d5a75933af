//! Snapshots of a workspace from before it was compressed: what they hold,
//! where they are kept, and what becomes of a file that cannot be read.

use vstd::prelude::*;

use crate::grid::GridPlan;
use crate::layout::ColumnInfo;
use crate::model::Workspace;
use crate::number::decimal_text;
use crate::text::is_blank;

verus! {

broadcast use vstd::string::group_string_axioms;

use crate::grid::{grid_actions, GridView};
use crate::layout::{column_views, ColumnView};
use crate::model::Action;
use crate::number::{
    decimal,
    decimal_is_injective,
    decimals_are_numerals,
    is_numeral,
    place_value,
};
use crate::text::{opt_text, trimmed};

// ---------------------------------------------------------------------------
// What a snapshot holds
// ---------------------------------------------------------------------------

/// A font size in a snapshot.
#[derive(Clone, Copy, Debug, PartialEq, Eq, Structural)]
pub enum FontPoints {
    /// A size that was computed, in tenths of a point.
    Tenths(u32),
    /// A size that was read from a file and is carried along as it is: the bit
    /// pattern of a double.
    Bits(u64),
}

/// One column as it was.
#[derive(Debug, Clone, PartialEq)]
pub struct ColumnSnapshot {
    pub column_index: usize,
    pub lead_window_id: u64,
    pub original_pixel_width: i32,
    pub window_ids: Vec<u64>,
    pub window_heights: Vec<i32>,
}

/// The terminal font as it was, and what was done to it.
#[derive(Debug, Clone, PartialEq)]
pub struct FontSnapshot {
    /// The terminal's configuration from before, if there was one.
    pub original_config_local: Option<String>,
    pub target_pids: Vec<i32>,
    pub applied_font_size: FontPoints,
}

/// A workspace as it was before it was compressed.
#[derive(Debug, Clone, PartialEq)]
pub struct WorkspaceSnapshot {
    pub version: u32,
    pub workspace_id: u64,
    pub output_name: Option<String>,
    pub monitor_width: Option<i32>,
    pub monitor_height: Option<i32>,
    /// Seconds since the epoch, as the bit pattern of a double.
    pub timestamp: Option<u64>,
    pub active_window_id: Option<u64>,
    pub columns: Vec<ColumnSnapshot>,
    pub font: Option<FontSnapshot>,
    pub original_widths: Option<Vec<i32>>,
    pub compressed_widths: Option<Vec<i32>>,
    pub font_size_original: Option<FontPoints>,
    pub font_size_compressed: Option<FontPoints>,
    pub is_compressed: Option<bool>,
    pub timestamp_utc: Option<String>,
}

impl View for ColumnSnapshot {
    type V = ColumnView;

    open spec fn view(&self) -> ColumnView {
        ColumnView {
            column_index: self.column_index,
            lead_window_id: self.lead_window_id,
            window_ids: self.window_ids@,
            original_pixel_width: self.original_pixel_width,
            window_heights: self.window_heights@,
        }
    }
}

/// The contents of each column.
pub open spec fn saved_columns(columns: Seq<ColumnSnapshot>) -> Seq<ColumnView> {
    columns.map_values(|c: ColumnSnapshot| c@)
}

/// The contents of a font snapshot.
#[verifier::ext_equal]
pub struct FontView {
    pub original_config_local: Option<Seq<char>>,
    pub target_pids: Seq<i32>,
    pub applied_font_size: FontPoints,
}

/// What an optional list holds.
pub open spec fn opt_list(list: Option<Vec<i32>>) -> Option<Seq<i32>> {
    match list {
        Some(l) => Some(l@),
        None => None,
    }
}

impl View for FontSnapshot {
    type V = FontView;

    open spec fn view(&self) -> FontView {
        FontView {
            original_config_local: opt_text(self.original_config_local),
            target_pids: self.target_pids@,
            applied_font_size: self.applied_font_size,
        }
    }
}

/// The contents of a snapshot.
#[verifier::ext_equal]
pub struct SnapshotView {
    pub version: u32,
    pub workspace_id: u64,
    pub output_name: Option<Seq<char>>,
    pub monitor_width: Option<i32>,
    pub monitor_height: Option<i32>,
    pub timestamp: Option<u64>,
    pub active_window_id: Option<u64>,
    pub columns: Seq<ColumnView>,
    pub font: Option<FontView>,
    pub original_widths: Option<Seq<i32>>,
    pub compressed_widths: Option<Seq<i32>>,
    pub font_size_original: Option<FontPoints>,
    pub font_size_compressed: Option<FontPoints>,
    pub is_compressed: Option<bool>,
    pub timestamp_utc: Option<Seq<char>>,
}

impl View for WorkspaceSnapshot {
    type V = SnapshotView;

    open spec fn view(&self) -> SnapshotView {
        SnapshotView {
            version: self.version,
            workspace_id: self.workspace_id,
            output_name: opt_text(self.output_name),
            monitor_width: self.monitor_width,
            monitor_height: self.monitor_height,
            timestamp: self.timestamp,
            active_window_id: self.active_window_id,
            columns: saved_columns(self.columns@),
            font: match self.font {
                Some(f) => Some(f@),
                None => None,
            },
            original_widths: opt_list(self.original_widths),
            compressed_widths: opt_list(self.compressed_widths),
            font_size_original: self.font_size_original,
            font_size_compressed: self.font_size_compressed,
            is_compressed: self.is_compressed,
            timestamp_utc: opt_text(self.timestamp_utc),
        }
    }
}

/// The version of the snapshot format where a file names none.
pub fn default_version() -> (version: u32)
    ensures
        version == 1,
{
    1
}

// ---------------------------------------------------------------------------
// Where snapshots are kept
// ---------------------------------------------------------------------------

/// Where the snapshot of a workspace is kept.
pub open spec fn snapshot_file(workspace_id: u64) -> Seq<char> {
    "/tmp/niri-compress-"@ + decimal(workspace_id as nat) + ".json"@
}

/// Where the lock of a workspace is kept.
pub open spec fn lock_file(workspace_id: u64) -> Seq<char> {
    "/tmp/niri-compress-"@ + decimal(workspace_id as nat) + ".lock"@
}

/// The path of a workspace's snapshot.
pub fn snapshot_path(workspace_id: u64) -> (path: String)
    ensures
        path@ == snapshot_file(workspace_id),
{
    let mut path: String = "/tmp/niri-compress-".to_owned();
    path.append(decimal_text(workspace_id).as_str());
    path.append(".json");
    path
}

/// The path of a workspace's lock.
pub fn lock_path(workspace_id: u64) -> (path: String)
    ensures
        path@ == lock_file(workspace_id),
{
    let mut path: String = "/tmp/niri-compress-".to_owned();
    path.append(decimal_text(workspace_id).as_str());
    path.append(".lock");
    path
}

/// The name under which a file is written before it replaces the file of that
/// name: hidden, and marked with the writing process.
pub open spec fn temp_name(file_name: Option<Seq<char>>, pid: u32) -> Seq<char> {
    let name = match file_name {
        Some(n) => n,
        None => "snapshot"@,
    };
    "."@ + name + "."@ + decimal(pid as nat) + ".tmp"@
}

/// The temporary name for a file.
pub fn temp_file_name(file_name: Option<&str>, pid: u32) -> (name: String)
    ensures
        name@ == temp_name(crate::text::opt_view(file_name), pid),
{
    let mut name: String = ".".to_owned();
    match file_name {
        Some(n) => {
            name.append(n);
        },
        None => {
            name.append("snapshot");
        },
    }
    name.append(".");
    name.append(decimal_text(pid as u64).as_str());
    name.append(".tmp");
    name
}

/// Two workspaces never share a snapshot file or a lock file.
pub proof fn workspaces_share_no_file(a: u64, b: u64)
    requires
        snapshot_file(a) == snapshot_file(b) || lock_file(a) == lock_file(b),
    ensures
        a == b,
{
    let head = "/tmp/niri-compress-"@;
    let da = decimal(a as nat);
    let db = decimal(b as nat);
    let end = if snapshot_file(a) == snapshot_file(b) {
        ".json"@
    } else {
        ".lock"@
    };
    let fa = head + da + end;
    let fb = head + db + end;
    assert(fa == fb);
    assert(da.len() == db.len());
    assert(da =~= fa.subrange(head.len() as int, (head.len() + da.len()) as int));
    assert(db =~= fb.subrange(head.len() as int, (head.len() + db.len()) as int));
    decimal_is_injective(a as nat, b as nat);
}

/// No snapshot file is a lock file.
pub proof fn snapshots_are_no_locks(a: u64, b: u64)
    ensures
        snapshot_file(a) != lock_file(b),
{
    reveal_strlit(".json");
    reveal_strlit(".lock");
    assert(snapshot_file(a).last() == 'n');
    assert(lock_file(b).last() == 'k');
}

// ---------------------------------------------------------------------------
// Reading a snapshot
// ---------------------------------------------------------------------------

/// What was found where a snapshot would be kept.
pub enum SnapshotRead {
    /// There is no file.
    Missing,
    /// There is a file that could not be read as text.
    Unreadable,
    /// The text of the file, and the snapshot that it parses to, if it does.
    Text { data: String, parsed: Option<WorkspaceSnapshot> },
}

/// What to make of it.
pub enum SnapshotLoad {
    /// There is no snapshot.
    Absent,
    /// There is no snapshot, and the file is to be removed.
    Corrupt,
    Found(WorkspaceSnapshot),
}

/// Loads a snapshot from what was read. A file that is blank or does not parse
/// is removed, so that the workspace does not stay marked as compressed.
pub fn load_snapshot(read: SnapshotRead) -> (load: SnapshotLoad)
    ensures
        load == (match read {
            SnapshotRead::Missing => SnapshotLoad::Absent,
            SnapshotRead::Unreadable => SnapshotLoad::Absent,
            SnapshotRead::Text { data, parsed } => match parsed {
                Some(snapshot) => if trimmed(data@).len() == 0 {
                    SnapshotLoad::Corrupt
                } else {
                    SnapshotLoad::Found(snapshot)
                },
                None => SnapshotLoad::Corrupt,
            },
        }),
{
    match read {
        SnapshotRead::Missing => SnapshotLoad::Absent,
        SnapshotRead::Unreadable => SnapshotLoad::Absent,
        SnapshotRead::Text { data, parsed } => {
            if is_blank(data.as_str()) {
                SnapshotLoad::Corrupt
            } else {
                match parsed {
                    Some(snapshot) => SnapshotLoad::Found(snapshot),
                    None => SnapshotLoad::Corrupt,
                }
            }
        },
    }
}

// ---------------------------------------------------------------------------
// The lock
// ---------------------------------------------------------------------------

/// A lock that is held through an open file, until it is released.
#[derive(Debug)]
pub struct SnapshotLock {
    pub fd: Option<i32>,
}

/// What to do next on the way to a lock.
#[derive(Debug)]
pub enum LockStep {
    /// The lock cannot be had.
    GiveUp,
    /// Ask for the lock on this open file.
    Request(i32),
    /// Close this open file; the lock cannot be had.
    CloseAndGiveUp(i32),
    /// The lock is held.
    Hold(SnapshotLock),
}

impl SnapshotLock {
    /// Gives the open file up, once.
    pub fn release(&mut self) -> (fd: Option<i32>)
        ensures
            fd == old(self).fd,
            final(self).fd is None,
    {
        let fd: Option<i32> = self.fd;
        self.fd = None;
        fd
    }
}

/// Decides what follows on opening the lock file: a negative descriptor means
/// that it could not be opened.
pub fn lock_after_open(fd: i32) -> (step: LockStep)
    ensures
        step == (if fd < 0 {
            LockStep::GiveUp
        } else {
            LockStep::Request(fd)
        }),
{
    if fd < 0 {
        LockStep::GiveUp
    } else {
        LockStep::Request(fd)
    }
}

/// Decides what follows on asking for the lock: anything but zero means that
/// somebody else holds it.
pub fn lock_after_request(fd: i32, result: i32) -> (step: LockStep)
    ensures
        step == (if result != 0 {
            LockStep::CloseAndGiveUp(fd)
        } else {
            LockStep::Hold(SnapshotLock { fd: Some(fd) })
        }),
{
    if result != 0 {
        LockStep::CloseAndGiveUp(fd)
    } else {
        LockStep::Hold(SnapshotLock { fd: Some(fd) })
    }
}

// ---------------------------------------------------------------------------
// Taking, refreshing and playing back
// ---------------------------------------------------------------------------

/// The height that a snapshot records for the monitor.
pub const SNAPSHOT_MONITOR_HEIGHT: i32 = 1440;

/// The widths of the columns as they are.
pub open spec fn present_widths(columns: Seq<ColumnView>) -> Seq<i32> {
    columns.map_values(|c: ColumnView| c.original_pixel_width)
}

/// The snapshot of a workspace that is about to be compressed by `plan`.
pub open spec fn captured(
    workspace: Workspace,
    plan: GridView,
    usable_width: i32,
    config: Option<Seq<char>>,
    timestamp: u64,
) -> SnapshotView {
    SnapshotView {
        version: 1,
        workspace_id: workspace.id,
        output_name: opt_text(workspace.output),
        monitor_width: Some(usable_width),
        monitor_height: Some(SNAPSHOT_MONITOR_HEIGHT),
        timestamp: Some(timestamp),
        active_window_id: workspace.active_window_id,
        columns: plan.columns,
        font: Some(
            FontView {
                original_config_local: config,
                target_pids: plan.pids,
                applied_font_size: FontPoints::Tenths(plan.font_size as u32),
            },
        ),
        original_widths: Some(present_widths(plan.columns)),
        compressed_widths: Some(plan.widths),
        font_size_original: None,
        font_size_compressed: Some(FontPoints::Tenths(plan.font_size as u32)),
        is_compressed: Some(true),
        timestamp_utc: None,
    }
}

/// A snapshot after its workspace was laid out anew by `plan`: the columns, the
/// new widths and what was done to the font are those of the plan; all else is
/// as it was.
pub open spec fn refreshed(snapshot: SnapshotView, plan: GridView) -> SnapshotView {
    SnapshotView {
        columns: plan.columns,
        font: match snapshot.font {
            Some(font) => Some(
                FontView {
                    target_pids: plan.pids,
                    applied_font_size: FontPoints::Tenths(plan.font_size as u32),
                    ..font
                },
            ),
            None => None,
        },
        compressed_widths: Some(plan.widths),
        ..snapshot
    }
}

/// The requests that bring the columns of a snapshot back: each gets its width
/// from before, and its windows the automatic height.
pub open spec fn playback(columns: Seq<ColumnView>) -> Seq<Action> {
    grid_actions(columns, present_widths(columns))
}

/// Copies the columns of a plan into a snapshot.
fn save_columns(columns: &Vec<ColumnInfo>) -> (saved: Vec<ColumnSnapshot>)
    ensures
        saved_columns(saved@) == column_views(columns@),
{
    let mut saved: Vec<ColumnSnapshot> = Vec::new();
    let mut i: usize = 0;
    while i < columns.len()
        invariant
            i <= columns.len(),
            saved_columns(saved@) == column_views(columns@).take(i as int),
        decreases columns.len() - i,
    {
        let column: &ColumnInfo = &columns[i];
        let copy: ColumnSnapshot = ColumnSnapshot {
            column_index: column.column_index,
            lead_window_id: column.lead_window_id,
            original_pixel_width: column.original_pixel_width,
            window_ids: column.window_ids.clone(),
            window_heights: column.window_heights.clone(),
        };
        proof {
            assert(copy.window_ids@ =~= column.window_ids@);
            assert(copy.window_heights@ =~= column.window_heights@);
            assert(copy@ == column@);
            assert(saved_columns(saved@.push(copy)) =~= saved_columns(saved@).push(copy@));
            assert(column_views(columns@).take(i + 1) =~= column_views(columns@).take(
                i as int,
            ).push(column@));
        }
        saved.push(copy);
        i = i + 1;
    }
    assert(column_views(columns@).take(i as int) =~= column_views(columns@));
    saved
}

/// The widths of the columns as they are.
fn collect_widths(columns: &Vec<ColumnInfo>) -> (widths: Vec<i32>)
    ensures
        widths@ == present_widths(column_views(columns@)),
{
    let mut widths: Vec<i32> = Vec::new();
    let mut i: usize = 0;
    while i < columns.len()
        invariant
            i <= columns.len(),
            widths@ == present_widths(column_views(columns@).take(i as int)),
        decreases columns.len() - i,
    {
        widths.push(columns[i].original_pixel_width);
        assert(widths@ =~= present_widths(column_views(columns@).take(i + 1)));
        i = i + 1;
    }
    assert(column_views(columns@).take(i as int) =~= column_views(columns@));
    widths
}

/// Copies a list of numbers.
fn copy_list(list: &Vec<i32>) -> (copy: Vec<i32>)
    ensures
        copy@ == list@,
{
    let copy: Vec<i32> = list.clone();
    assert(copy@ =~= list@);
    copy
}

/// Takes the snapshot of a workspace that is about to be compressed by `plan`.
pub fn capture_snapshot(
    workspace: &Workspace,
    plan: &GridPlan,
    usable_width: i32,
    config: Option<String>,
    timestamp: u64,
) -> (snapshot: WorkspaceSnapshot)
    ensures
        snapshot@ == captured(*workspace, plan@, usable_width, opt_text(config), timestamp),
{
    let output_name: Option<String> = match &workspace.output {
        Some(name) => Some(name.clone()),
        None => None,
    };
    WorkspaceSnapshot {
        version: default_version(),
        workspace_id: workspace.id,
        output_name,
        monitor_width: Some(usable_width),
        monitor_height: Some(SNAPSHOT_MONITOR_HEIGHT),
        timestamp: Some(timestamp),
        active_window_id: workspace.active_window_id,
        columns: save_columns(&plan.columns),
        font: Some(
            FontSnapshot {
                original_config_local: config,
                target_pids: copy_list(&plan.pids),
                applied_font_size: FontPoints::Tenths(plan.font_size),
            },
        ),
        original_widths: Some(collect_widths(&plan.columns)),
        compressed_widths: Some(copy_list(&plan.widths)),
        font_size_original: None,
        font_size_compressed: Some(FontPoints::Tenths(plan.font_size)),
        is_compressed: Some(true),
        timestamp_utc: None,
    }
}

/// Brings a snapshot up to date after its workspace was laid out by `plan`.
pub fn refresh_snapshot(snapshot: WorkspaceSnapshot, plan: &GridPlan) -> (new: WorkspaceSnapshot)
    ensures
        new@ == refreshed(snapshot@, plan@),
{
    let font: Option<FontSnapshot> = match snapshot.font {
        Some(f) => Some(
            FontSnapshot {
                original_config_local: f.original_config_local,
                target_pids: copy_list(&plan.pids),
                applied_font_size: FontPoints::Tenths(plan.font_size),
            },
        ),
        None => None,
    };
    WorkspaceSnapshot {
        version: snapshot.version,
        workspace_id: snapshot.workspace_id,
        output_name: snapshot.output_name,
        monitor_width: snapshot.monitor_width,
        monitor_height: snapshot.monitor_height,
        timestamp: snapshot.timestamp,
        active_window_id: snapshot.active_window_id,
        columns: save_columns(&plan.columns),
        font,
        original_widths: snapshot.original_widths,
        compressed_widths: Some(copy_list(&plan.widths)),
        font_size_original: snapshot.font_size_original,
        font_size_compressed: snapshot.font_size_compressed,
        is_compressed: snapshot.is_compressed,
        timestamp_utc: snapshot.timestamp_utc,
    }
}

/// The files of a workspace lie in the directory for temporary files under its
/// number: the snapshot as `.json`, the lock as `.lock`.
pub proof fn files_bear_the_number(workspace_id: u64) -> (numeral: Seq<char>)
    ensures
        is_numeral(numeral) && place_value(numeral) == workspace_id,
        snapshot_file(workspace_id) == "/tmp/niri-compress-"@ + numeral + ".json"@,
        lock_file(workspace_id) == "/tmp/niri-compress-"@ + numeral + ".lock"@,
{
    decimals_are_numerals(workspace_id as nat);
    decimal(workspace_id as nat)
}

/// A temporary name is a dot, the name, the number of the process between two
/// dots, and `tmp`.
pub proof fn temporary_names_bear_the_process(file_name: Option<Seq<char>>, pid: u32) -> (numeral:
    Seq<char>)
    ensures
        is_numeral(numeral) && place_value(numeral) == pid,
        temp_name(file_name, pid) == "."@ + (match file_name {
            Some(name) => name,
            None => "snapshot"@,
        }) + "."@ + numeral + ".tmp"@,
{
    decimals_are_numerals(pid as nat);
    decimal(pid as nat)
}

} // verus!
