//! Checks around the handling of requests: that bodies are complete, and not too large.

use crate::message::{field_text, Fields, Headers, Response, ResponseState};
use crate::numbers::{parse_u64, parsed};
use crate::protocol::error::{plain_error, AwsError, AwsErrorKind, Fault};
use crate::router::service::{aws_error_response, error_response};
use vstd::prelude::*;
use vstd::string::*;

verus! {

/// The size of the largest request body: 100 MiB.
pub const MAX_REQUEST_BYTES: u64 = 104_857_600;

/// How far the check of a request body is.
#[derive(Debug, Clone, Copy, PartialEq, Eq, Structural)]
pub enum Watch {
    /// The request has not come yet.
    Waiting,
    /// The body is being read; so many bytes are expected.
    Reading { expected: u64 },
    /// The handler is running on a body of `actual` bytes, where `expected` were announced.
    Running { expected: u64, actual: u64 },
    /// The handler is running, and no length was announced.
    Passing,
    /// The request is answered.
    Answered,
}

/// What happens to a request.
pub enum Happening<'a> {
    /// It came, with these header fields.
    Came(&'a Headers),
    /// Its body was read: so many bytes.
    Read(u64),
    /// Its body could not be read.
    Broke,
    /// The handler answered.
    Handled,
}

/// What is to be done.
#[derive(Debug)]
pub enum Action {
    /// Run the handler on the request as it is.
    PassOn,
    /// Read the whole body.
    ReadBody,
    /// Run the handler on the body that was read.
    RunHandler,
    /// Send the answer of the handler.
    SendAnswer,
    /// Send this response instead.
    Respond(Response),
}

/// What a `Happening` denotes.
pub enum HappeningState {
    Came(Fields),
    Read(u64),
    Broke,
    Handled,
}

/// What an `Action` denotes.
pub enum ActionState {
    PassOn,
    ReadBody,
    RunHandler,
    SendAnswer,
    Respond(ResponseState),
}

impl<'a> View for Happening<'a> {
    type V = HappeningState;

    open spec fn view(&self) -> HappeningState {
        match *self {
            Happening::Came(headers) => HappeningState::Came(headers@),
            Happening::Read(length) => HappeningState::Read(length),
            Happening::Broke => HappeningState::Broke,
            Happening::Handled => HappeningState::Handled,
        }
    }
}

impl View for Action {
    type V = ActionState;

    open spec fn view(&self) -> ActionState {
        match *self {
            Action::PassOn => ActionState::PassOn,
            Action::ReadBody => ActionState::ReadBody,
            Action::RunHandler => ActionState::RunHandler,
            Action::SendAnswer => ActionState::SendAnswer,
            Action::Respond(response) => ActionState::Respond(response@),
        }
    }
}

/// Whether this can happen, as far as the check is.
pub open spec fn can_happen(watch: Watch, happening: HappeningState) -> bool {
    match watch {
        Watch::Waiting => happening is Came,
        Watch::Reading { .. } => happening is Read || happening is Broke,
        Watch::Running { .. } => happening is Handled,
        Watch::Passing => happening is Handled,
        Watch::Answered => false,
    }
}

/// The response for a kind of error.
pub open spec fn refusal(f: Fault) -> ActionState {
    ActionState::Respond(error_response(plain_error(f)))
}

/// What is done about a request, by the length that it announces: without one, or with one
/// that is not text, it passes on. One that is not a number, or above the limit, is refused.
pub open spec fn on_arrival(fields: Fields) -> (Watch, ActionState) {
    match field_text(fields, "content-length"@) {
        None => (Watch::Passing, ActionState::PassOn),
        Some(text) => match parsed(text, u64::MAX as nat) {
            None => (
                Watch::Answered,
                refusal(Fault::MissingRequestHeader { header_name: "Content-Length"@ }),
            ),
            Some(expected) => if expected > MAX_REQUEST_BYTES {
                (Watch::Answered, refusal(Fault::EntityTooLarge { entity: "request body"@ }))
            } else {
                (Watch::Reading { expected: expected as u64 }, ActionState::ReadBody)
            },
        },
    }
}

/// The next step of the check of a request body. The answer of the handler is replaced where
/// the body had another length than was announced.
pub open spec fn watched(watch: Watch, happening: HappeningState) -> (Watch, ActionState) {
    match (watch, happening) {
        (Watch::Waiting, HappeningState::Came(fields)) => on_arrival(fields),
        (Watch::Reading { expected }, HappeningState::Read(actual)) => (
            Watch::Running { expected, actual },
            ActionState::RunHandler,
        ),
        (Watch::Reading { .. }, HappeningState::Broke) => (
            Watch::Answered,
            refusal(Fault::InternalError { details: None }),
        ),
        (Watch::Running { expected, actual }, HappeningState::Handled) => (
            Watch::Answered,
            if actual != expected {
                refusal(Fault::IncompleteBody)
            } else {
                ActionState::SendAnswer
            },
        ),
        _ => (Watch::Answered, ActionState::SendAnswer),
    }
}

/// The action that refuses a request.
fn refuse(kind: AwsErrorKind) -> (a: Action)
    ensures
        a@ == refusal(kind@),
{
    Action::Respond(aws_error_response(AwsError::new(kind)))
}

/// Checks that the body of a request has the length that it announces, step by step.
pub fn incomplete_body_detection(watch: Watch, happening: Happening) -> (r: (Watch, Action))
    requires
        can_happen(watch, happening@),
    ensures
        (r.0, r.1@) == watched(watch, happening@),
{
    match (watch, happening) {
        (Watch::Waiting, Happening::Came(headers)) => {
            let text = match headers.get_text("content-length") {
                None => {
                    return (Watch::Passing, Action::PassOn);
                },
                Some(text) => text,
            };
            let expected: u64 = match parse_u64(text.as_str()) {
                Some(n) => n,
                None => {
                    return (
                        Watch::Answered,
                        refuse(
                            AwsErrorKind::MissingRequestHeader {
                                header_name: "Content-Length".to_string(),
                            },
                        ),
                    );
                },
            };
            if expected > MAX_REQUEST_BYTES {
                return (
                    Watch::Answered,
                    refuse(AwsErrorKind::EntityTooLarge { entity: "request body".to_string() }),
                );
            }
            (Watch::Reading { expected }, Action::ReadBody)
        },
        (Watch::Reading { expected }, Happening::Read(actual)) => (
            Watch::Running { expected, actual },
            Action::RunHandler,
        ),
        (Watch::Reading { .. }, Happening::Broke) => (
            Watch::Answered,
            refuse(AwsErrorKind::InternalError { details: None }),
        ),
        (Watch::Running { expected, actual }, Happening::Handled) => if actual != expected {
            (Watch::Answered, refuse(AwsErrorKind::IncompleteBody))
        } else {
            (Watch::Answered, Action::SendAnswer)
        },
        _ => (Watch::Answered, Action::SendAnswer),
    }
}

/// The response in place of one that says that the body was too large, status 413; `None` for
/// any other status.
pub open spec fn replaced(status: u16) -> Option<ResponseState> {
    if status == 413 {
        Some(
            error_response(plain_error(Fault::EntityTooLarge { entity: "request body"@ })),
        )
    } else {
        None
    }
}

/// The response in place of one that says that the body was too large.
pub fn entity_too_large_interceptor(status: u16) -> (r: Option<Response>)
    ensures
        match r {
            Some(response) => replaced(status) == Some(response@),
            None => replaced(status) is None,
        },
{
    if status == 413 {
        Some(
            aws_error_response(
                AwsError::new(AwsErrorKind::EntityTooLarge { entity: "request body".to_string() }),
            ),
        )
    } else {
        None
    }
}

/// The answer of the handler is sent exactly where the body has the length that was announced;
/// else the request is answered with status 400.
pub proof fn length_decides(fields: Fields, expected: u64, actual: u64)
    requires
        on_arrival(fields).0 == (Watch::Reading { expected }),
    ensures
        ({
            let running = watched(Watch::Reading { expected }, HappeningState::Read(actual)).0;
            let last = watched(running, HappeningState::Handled).1;
            &&& last == ActionState::SendAnswer <==> actual == expected
            &&& actual != expected ==> last is Respond && last->Respond_0.status == 400
        }),
{
}

} // verus!
