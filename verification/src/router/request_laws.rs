//! What becomes of a request before it reaches a service, told by how it is written.

use crate::message::{field_text, Fields};
use crate::number_laws::{number_is_read_with_zeros_and_plus, other_text_is_no_number};
use crate::numbers::decimal;
use crate::protocol::error::{ErrorState, Fault};
use crate::router::middleware::{replaced, watched, ActionState, HappeningState, Watch};
use crate::router::service::{error_response, fallback, FallbackState};
use crate::text_laws::{character_is_found_behind, leading_characters_are_cut_off};
use vstd::prelude::*;
use vstd::string::*;

verus! {

/// The first segment of a path, behind any number of slashes, names the service that takes the
/// request, whatever follows. A service that is not registered, and a path without a segment,
/// are answered with status 501.
pub proof fn first_segment_names_the_service(
    services: Map<Seq<char>, u64>,
    slashes: nat,
    name: Seq<char>,
    rest: Seq<char>,
)
    requires
        name.len() > 0,
        forall|i: int| 0 <= i < name.len() ==> name[i] != '/',
    ensures
        ({
            let lead = Seq::new(slashes, |i: int| '/');
            let short = fallback(services, lead + name);
            let long = fallback(services, lead + (name + seq!['/'] + rest));
            let none = fallback(services, lead);
            &&& services.contains_key(name) ==> short == FallbackState::Delegate(services[name])
            &&& services.contains_key(name) ==> long == FallbackState::Delegate(services[name])
            &&& !services.contains_key(name) ==> short == long && short == FallbackState::Respond(
                error_response(
                    ErrorState {
                        fault: Fault::NotImplemented,
                        request_id: Seq::empty(),
                        host_id: "Service unavailable"@,
                    },
                ),
            ) && short->Respond_0.status == 501
            &&& none == FallbackState::Respond(
                error_response(
                    ErrorState {
                        fault: Fault::NotImplemented,
                        request_id: Seq::empty(),
                        host_id: "No service name in request path"@,
                    },
                ),
            )
            &&& none->Respond_0.status == 501
        }),
{
    reveal_strlit("");
    assert(""@ =~= Seq::empty());
    let lead = Seq::new(slashes, |i: int| '/');
    let path = name + seq!['/'] + rest;
    assert(path[0] == name[0]);
    leading_characters_are_cut_off(slashes, '/', name);
    leading_characters_are_cut_off(slashes, '/', path);
    leading_characters_are_cut_off(slashes, '/', Seq::empty());
    assert(lead + Seq::<char>::empty() =~= lead);
    character_is_found_behind(name, '/', rest);
    assert(path.take(name.len() as int) =~= name);
    assert(name.take(name.len() as int) =~= name);
    assert(Seq::<char>::empty().take(0) =~= Seq::empty());
}

/// A request that announces a length is run on its body where the length is at most 100 MiB, and
/// its answer is sent where the body has that length; any other length of the body is answered
/// with status 400 and the code of an incomplete body. A greater length is refused with status
/// 400 before the body is read; one that 64 bits do not hold is no length at all.
pub proof fn announced_length_decides(
    fields: Fields,
    zeros: nat,
    expected: nat,
    actual: u64,
)
    requires
        field_text(fields, "content-length"@) == Some(
            Seq::new(zeros, |i: int| '0') + decimal(expected),
        ),
    ensures
        ({
            let first = watched(Watch::Waiting, HappeningState::Came(fields));
            if expected > 100 * 1024 * 1024 {
                &&& first.0 == Watch::Answered
                &&& first.1 == ActionState::Respond(
                    error_response(
                        ErrorState {
                            fault: if expected <= u64::MAX {
                                Fault::EntityTooLarge { entity: "request body"@ }
                            } else {
                                Fault::MissingRequestHeader { header_name: "Content-Length"@ }
                            },
                            request_id: Seq::empty(),
                            host_id: Seq::empty(),
                        },
                    ),
                )
                &&& first.1->Respond_0.status == 400
            } else {
                let second = watched(first.0, HappeningState::Read(actual));
                let third = watched(second.0, HappeningState::Handled);
                let broken = watched(first.0, HappeningState::Broke);
                &&& first.1 == ActionState::ReadBody
                &&& second.1 == ActionState::RunHandler
                &&& third.0 == Watch::Answered
                &&& actual == expected ==> third.1 == ActionState::SendAnswer
                &&& actual != expected ==> third.1 == ActionState::Respond(
                    error_response(
                        ErrorState {
                            fault: Fault::IncompleteBody,
                            request_id: Seq::empty(),
                            host_id: Seq::empty(),
                        },
                    ),
                ) && third.1->Respond_0.status == 400
                &&& broken.1 is Respond
                &&& broken.1->Respond_0.status == 500
            }
        }),
{
    number_is_read_with_zeros_and_plus(expected, zeros, u64::MAX as nat);
}

/// A request that announces no length passes on as it is, and its answer is sent. One whose
/// length is no number is refused with status 400.
pub proof fn unannounced_length_passes(fields: Fields, text: Seq<char>, i: int)
    ensures
        ({
            let first = watched(Watch::Waiting, HappeningState::Came(fields));
            &&& field_text(fields, "content-length"@) is None ==> first.1 == ActionState::PassOn
                && watched(first.0, HappeningState::Handled).1 == ActionState::SendAnswer
            &&& field_text(fields, "content-length"@) == Some(text) && 0 <= i < text.len() && !('0'
                <= text[i] <= '9') && (i == 0 ==> text[0] != '+') ==> first.1
                == ActionState::Respond(
                error_response(
                    ErrorState {
                        fault: Fault::MissingRequestHeader { header_name: "Content-Length"@ },
                        request_id: Seq::empty(),
                        host_id: Seq::empty(),
                    },
                ),
            ) && first.1->Respond_0.status == 400
        }),
{
    if 0 <= i < text.len() && !('0' <= text[i] <= '9') && (i == 0 ==> text[0] != '+') {
        other_text_is_no_number(text, i, u64::MAX as nat);
    }
}

/// A response is replaced exactly where its status is 413: by one of status 400 with the code
/// of an entity that is too large.
pub proof fn too_large_is_replaced(status: u16)
    ensures
        replaced(status) is Some <==> status == 413,
        replaced(status) is Some ==> replaced(status)->0.status == 400 && replaced(status)->0
            == error_response(
            ErrorState {
                fault: Fault::EntityTooLarge { entity: "request body"@ },
                request_id: Seq::empty(),
                host_id: Seq::empty(),
            },
        ),
{
}

} // verus!
