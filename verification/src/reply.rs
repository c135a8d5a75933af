//! What the compositor's replies mean.

use vstd::prelude::*;

use crate::model::{Output, Window, Workspace};

verus! {

broadcast use vstd::string::group_string_axioms;

/// A reply to a request.
pub enum Reply<T> {
    /// The reply that the request calls for.
    Payload(T),
    /// A reply of another kind.
    Unexpected,
    /// The request was rejected, for the reason given.
    Rejected(String),
}

/// The outcome is what the reply holds, or says what is wrong with the reply.
pub open spec fn answers<T>(
    reply: Reply<T>,
    outcome: Result<T, String>,
    unexpected: Seq<char>,
    rejected: Seq<char>,
) -> bool {
    match reply {
        Reply::Payload(payload) => outcome == Ok::<T, String>(payload),
        Reply::Unexpected => outcome is Err && outcome->Err_0@ == unexpected,
        Reply::Rejected(reason) => outcome is Err && outcome->Err_0@ == rejected + reason@,
    }
}

/// Takes a reply apart.
fn take_payload<T>(reply: Reply<T>, unexpected: &str, rejected: &str) -> (outcome: Result<
    T,
    String,
>)
    ensures
        answers(reply, outcome, unexpected@, rejected@),
{
    match reply {
        Reply::Payload(payload) => Ok(payload),
        Reply::Unexpected => Err(unexpected.to_owned()),
        Reply::Rejected(reason) => {
            let mut message: String = rejected.to_owned();
            message.append(reason.as_str());
            Err(message)
        },
    }
}

/// The outcome of an action: whatever is not a rejection counts as done.
pub fn send_action(rejection: Option<&str>) -> (outcome: Result<(), String>)
    ensures
        match rejection {
            Some(reason) => outcome is Err && outcome->Err_0@ == "niri rejected action: "@
                + reason@,
            None => outcome is Ok,
        },
{
    match rejection {
        Some(reason) => {
            let mut message: String = "niri rejected action: ".to_owned();
            message.append(reason);
            Err(message)
        },
        None => Ok(()),
    }
}

/// The windows that a reply lists.
pub fn fetch_windows(reply: Reply<Vec<Window>>) -> (outcome: Result<Vec<Window>, String>)
    ensures
        answers(
            reply,
            outcome,
            "unexpected response to Windows request"@,
            "niri rejected Windows request: "@,
        ),
{
    take_payload(
        reply,
        "unexpected response to Windows request",
        "niri rejected Windows request: ",
    )
}

/// The outputs that a reply lists.
pub fn fetch_outputs(reply: Reply<Vec<Output>>) -> (outcome: Result<Vec<Output>, String>)
    ensures
        answers(
            reply,
            outcome,
            "unexpected response to Outputs request"@,
            "niri rejected Outputs request: "@,
        ),
{
    take_payload(
        reply,
        "unexpected response to Outputs request",
        "niri rejected Outputs request: ",
    )
}

/// The workspaces that a reply lists.
pub fn fetch_workspaces(reply: Reply<Vec<Workspace>>) -> (outcome: Result<Vec<Workspace>, String>)
    ensures
        answers(
            reply,
            outcome,
            "unexpected response to Workspaces request"@,
            "niri rejected Workspaces request: "@,
        ),
{
    take_payload(
        reply,
        "unexpected response to Workspaces request",
        "niri rejected Workspaces request: ",
    )
}

/// Whether the event stream may be read: only where the reply says that the
/// request was handled.
pub fn open_event_stream(reply: &Reply<()>) -> (outcome: Result<(), String>)
    ensures
        outcome is Ok <==> reply is Payload,
        outcome matches Err(message) ==> message@ == "niri refused the event stream request"@,
{
    match reply {
        Reply::Payload(_) => Ok(()),
        _ => Err("niri refused the event stream request".to_owned()),
    }
}

/// A reply that holds what was asked for gives it on unchanged; any other gives an
/// error, which repeats the reason of a rejection.
pub proof fn replies_are_answered<T>(
    reply: Reply<T>,
    outcome: Result<T, String>,
    unexpected: Seq<char>,
    rejected: Seq<char>,
)
    requires
        answers(reply, outcome, unexpected, rejected),
    ensures
        outcome is Ok <==> reply is Payload,
        reply matches Reply::Payload(payload) ==> outcome == Ok::<T, String>(payload),
        reply is Unexpected ==> outcome->Err_0@ == unexpected,
        reply matches Reply::Rejected(reason) ==> outcome->Err_0@ == rejected + reason@,
{
}

} // verus!
