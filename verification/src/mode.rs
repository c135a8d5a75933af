//! The tiling mode: what the mode file holds, what is said about it, and which
//! of the two modes is in force.

use vstd::prelude::*;

use crate::text::{same_text, trim_text};

verus! {

use crate::text::{
    lowered,
    opt_view,
    tight_text_is_trimmed,
    trailing_white_is_trimmed,
    trimmed,
};

/// What `str::to_lowercase` gives.
pub uninterp spec fn lowercase(s: Seq<char>) -> Seq<char>;

/// Every character is an ASCII character.
pub open spec fn all_ascii(s: Seq<char>) -> bool {
    forall|i: int| 0 <= i < s.len() ==> #[trigger] s[i] < '\u{80}'
}

/// `str::to_lowercase` depends on the text alone. In a text of ASCII characters
/// it makes the letters `A` to `Z` small and leaves the rest as it is; of other
/// texts nothing more is claimed.
#[verifier::external_body]
fn to_lowercase(s: &str) -> (lower: String)
    ensures
        lower@ == lowercase(s@),
        all_ascii(s@) ==> lower@ == lowered(s@),
{
    s.to_lowercase()
}

/// The two modes.
pub open spec fn is_mode(text: Seq<char>) -> bool {
    text == "equal-grid"@ || text == "master-stack"@
}

/// A mode that was set: the new contents of the mode file, and what to tell the
/// user.
#[derive(Debug, PartialEq)]
pub struct ModeChange {
    pub content: String,
    pub message: String,
}

/// What setting a mode leads to: a change, or what to tell of an invalid mode.
pub open spec fn mode_set(normalized: Seq<char>, outcome: Result<ModeChange, String>) -> bool {
    match outcome {
        Ok(change) => {
            &&& is_mode(normalized)
            &&& change.content@ == normalized + "\n"@
            &&& change.message@ == "irene autotiling mode set to: "@ + normalized
        },
        Err(message) => {
            &&& !is_mode(normalized)
            &&& message@ == "invalid mode: '"@ + normalized
                + "'. Valid modes: equal-grid, master-stack"@
        },
    }
}

/// Sets a mode whose name is already in small letters.
pub fn set_mode(normalized: &str) -> (outcome: Result<ModeChange, String>)
    ensures
        mode_set(normalized@, outcome),
{
    if same_text(normalized, "equal-grid") || same_text(normalized, "master-stack") {
        let mut content: String = normalized.to_owned();
        content.append("\n");
        let mut message: String = "irene autotiling mode set to: ".to_owned();
        message.append(normalized);
        Ok(ModeChange { content, message })
    } else {
        let mut message: String = "invalid mode: '".to_owned();
        message.append(normalized);
        message.append("'. Valid modes: equal-grid, master-stack");
        Err(message)
    }
}

/// Sets a mode by its name in any letter case.
pub fn handle_mode(mode: &str) -> (outcome: Result<ModeChange, String>)
    ensures
        mode_set(lowercase(mode@), outcome),
        all_ascii(mode@) ==> mode_set(lowered(mode@), outcome),
{
    let normalized: String = to_lowercase(mode);
    set_mode(normalized.as_str())
}

/// The mode that the mode file names, or the usual one where there is no file.
pub open spec fn mode_in_file(file: Option<Seq<char>>) -> Seq<char> {
    match file {
        Some(content) => trimmed(content),
        None => "equal-grid"@,
    }
}

/// The mode that the mode file names.
pub fn current_mode(file: Option<&str>) -> (mode: String)
    ensures
        mode@ == mode_in_file(opt_view(file)),
{
    match file {
        Some(content) => trim_text(content),
        None => "equal-grid".to_owned(),
    }
}

/// What to tell a user who asks for the mode.
pub fn describe_mode(file: Option<&str>) -> (message: String)
    ensures
        message@ == "irene autotiling mode: "@ + mode_in_file(opt_view(file)),
{
    let mut message: String = "irene autotiling mode: ".to_owned();
    message.append(current_mode(file).as_str());
    message
}

/// The equal grid is in force: the mode file does not ask for the master stack,
/// or there is none and the command line prefers the grid.
pub open spec fn grid_in_force(file: Option<Seq<char>>, preferred: bool) -> bool {
    match file {
        Some(content) => trimmed(content) != "master-stack"@,
        None => preferred,
    }
}

/// Decides whether the equal grid is in force.
pub fn active_equal(file: Option<&str>, preferred: bool) -> (equal: bool)
    ensures
        equal == grid_in_force(opt_view(file), preferred),
{
    match file {
        Some(content) => !same_text(trim_text(content).as_str(), "master-stack"),
        None => preferred,
    }
}

/// The text is given and asks for the master stack.
pub open spec fn asks_for_stack(mode: Option<Seq<char>>) -> bool {
    mode == Some("master-stack"@)
}

/// Decides whether the text is given and asks for the master stack.
fn is_stack(mode: Option<&str>) -> (yes: bool)
    ensures
        yes == asks_for_stack(opt_view(mode)),
{
    match mode {
        Some(text) => same_text(text, "master-stack"),
        None => false,
    }
}

/// Which mode a command line without a command prefers: the equal grid, unless
/// it asks for the master stack.
pub fn prefers_equal_by_default(global_mode: Option<&str>) -> (equal: bool)
    ensures
        equal == !asks_for_stack(opt_view(global_mode)),
{
    !is_stack(global_mode)
}

/// Which mode a command prefers: the equal grid, unless one of the two mode
/// options asks for the master stack and neither of the two grid flags is set.
pub fn prefers_equal(
    equal_grid: bool,
    global_equal: bool,
    mode: Option<&str>,
    global_mode: Option<&str>,
) -> (equal: bool)
    ensures
        equal == (equal_grid || global_equal || (!asks_for_stack(opt_view(mode))
            && !asks_for_stack(opt_view(global_mode)))),
{
    equal_grid || global_equal || (!is_stack(mode) && !is_stack(global_mode))
}

/// A mode that was set is the one that the mode file then names, and it is in
/// force whatever the command line prefers.
pub proof fn set_mode_reads_back(normalized: Seq<char>, change: ModeChange, preferred: bool)
    requires
        mode_set(normalized, Ok(change)),
    ensures
        mode_in_file(Some(change.content@)) == normalized,
        grid_in_force(Some(change.content@), preferred) <==> normalized == "equal-grid"@,
{
    reveal_strlit("equal-grid");
    reveal_strlit("master-stack");
    reveal_strlit("\n");
    assert(change.content@ =~= normalized.push('\n'));
    trailing_white_is_trimmed(normalized, '\n');
    tight_text_is_trimmed(normalized);
    assert("equal-grid"@.len() != "master-stack"@.len());
}

/// The letter case in which an ASCII text names a mode makes no difference.
pub proof fn letter_case_makes_no_difference(
    a: Seq<char>,
    b: Seq<char>,
    of_a: Result<ModeChange, String>,
    of_b: Result<ModeChange, String>,
)
    requires
        all_ascii(a),
        all_ascii(b),
        lowered(a) == lowered(b),
        mode_set(lowered(a), of_a),
        mode_set(lowered(b), of_b),
    ensures
        match (of_a, of_b) {
            (Ok(x), Ok(y)) => x.content@ == y.content@ && x.message@ == y.message@,
            (Err(x), Err(y)) => x@ == y@,
            _ => false,
        },
{
}

/// There are two modes: any other name is refused, and the refusal repeats it.
pub proof fn only_two_names_are_modes(normalized: Seq<char>, outcome: Result<ModeChange, String>)
    requires
        mode_set(normalized, outcome),
    ensures
        outcome is Ok <==> normalized == "equal-grid"@ || normalized == "master-stack"@,
        outcome matches Ok(change) ==> change.content@ == normalized + "\n"@ && change.message@
            == "irene autotiling mode set to: "@ + normalized,
        outcome matches Err(message) ==> message@ == "invalid mode: '"@ + normalized
            + "'. Valid modes: equal-grid, master-stack"@,
{
}

/// The mode file decides, whatever the command line prefers: what stands in it
/// between white space is the mode, and any but the master stack means the grid.
/// Without a file the command line decides.
pub proof fn the_mode_file_decides(content: Seq<char>, preferred: bool)
    ensures
        grid_in_force(Some(content), preferred) <==> trimmed(content) != "master-stack"@,
        grid_in_force(None, preferred) == preferred,
        mode_in_file(Some(content)) == trimmed(content),
        mode_in_file(None) == "equal-grid"@,
        asks_for_stack(Some(content)) <==> content == "master-stack"@,
        !asks_for_stack(None),
{
}

} // verus!
