//! The registry of services, and the choice of a service for a request.

use crate::message::{push_header, response_headers, text_bytes, Response, ResponseState};
use crate::protocol::error::{
    error_document, fault_status, AwsError, AwsErrorKind, ErrorState, Fault,
};
use crate::table::{table_insert, table_keys, table_read, Stored};
use crate::text::{chars_of, position, position_of, string_of, texts, trim_start, trimmed_from};
use dashmap::DashMap;
use vstd::prelude::*;
use vstd::string::*;
use vstd::utf8::encode_utf8;

verus! {

/// The numbers that a table holds.
pub uninterp spec fn numbers_of(m: DashMap<String, u64>) -> Map<Seq<char>, u64>;

impl Stored for u64 {
    open spec fn table(m: DashMap<String, u64>) -> Map<Seq<char>, u64> {
        numbers_of(m)
    }
}

/// `DashMap::new` makes a table that holds nothing.
#[verifier::external_body]
pub(crate) fn new_numbers() -> (m: DashMap<String, u64>)
    ensures
        numbers_of(m) == (Map::<Seq<char>, u64>::empty()),
{
    DashMap::new()
}

/// The services by name. A service is registered as a number, which its owner knows it by.
#[derive(Debug)]
pub struct ServiceRegistry {
    inner: DashMap<String, u64>,
}

impl View for ServiceRegistry {
    type V = Map<Seq<char>, u64>;

    closed spec fn view(&self) -> Map<Seq<char>, u64> {
        numbers_of(self.inner)
    }
}

impl ServiceRegistry {
    /// A registry without services.
    pub fn new() -> (r: ServiceRegistry)
        ensures
            r@ == (Map::<Seq<char>, u64>::empty()),
    {
        ServiceRegistry { inner: new_numbers() }
    }

    /// Registers a service under a name, in place of the one that had the name.
    pub fn register(&mut self, name: &str, service: u64)
        ensures
            final(self)@ == old(self)@.insert(name@, service),
    {
        table_insert(&mut self.inner, name.to_string(), service);
    }

    /// The service of a name.
    pub fn get(&self, name: &str) -> (r: Option<u64>)
        ensures
            r == (if self@.contains_key(name@) {
                Some(self@[name@])
            } else {
                None
            }),
    {
        table_read(
            &self.inner,
            name,
            |service: &u64| -> (copy: u64)
                ensures
                    copy == *service,
                { *service }
        )
    }
}

impl Default for ServiceRegistry {
    fn default() -> (r: ServiceRegistry)
        ensures
            r@ == (Map::<Seq<char>, u64>::empty()),
    {
        ServiceRegistry::new()
    }
}

impl Clone for ServiceRegistry {
    /// A registry with the services that are registered now. The two are apart from then on: one
    /// that both sides are to see changes of is shared by reference.
    fn clone(&self) -> (r: ServiceRegistry)
        ensures
            r@ == self@,
    {
        let names = table_keys(&self.inner);
        let ghost all = texts(names@);
        let mut inner = new_numbers();
        let mut i: usize = 0;
        while i < names.len()
            invariant
                i <= names.len(),
                all == texts(names@),
                all.to_set() == numbers_of(self.inner).dom(),
                forall|k: Seq<char>| #[trigger]
                    numbers_of(inner).contains_key(k) <==> all.take(i as int).contains(k),
                forall|k: Seq<char>| #[trigger]
                    numbers_of(inner).contains_key(k) ==> numbers_of(inner)[k] == numbers_of(
                        self.inner,
                    )[k],
            decreases names.len() - i,
        {
            let name: &String = &names[i];
            let ghost before = inner;
            assert(all[i as int] == name@);
            assert(all.contains(name@));
            assert(all.to_set().contains(name@));
            let found = table_read(
                &self.inner,
                name.as_str(),
                |service: &u64| -> (copy: u64)
                    ensures
                        copy == *service,
                    { *service }
            );
            if let Some(service) = found {
                table_insert(&mut inner, name.clone(), service);
            }
            proof {
                assert(all.take(i as int + 1) =~= all.take(i as int).push(name@));
                assert forall|k: Seq<char>| #[trigger]
                    numbers_of(inner).contains_key(k) <==> all.take(i as int + 1).contains(k) by {
                    if all.take(i as int).contains(k) {
                        let j = choose|j: int| 0 <= j < i && all.take(i as int)[j] == k;
                        assert(all.take(i as int + 1)[j] == k);
                    }
                    assert(all.take(i as int + 1)[i as int] == name@);
                    assert(numbers_of(inner).contains_key(k) <==> (numbers_of(before).contains_key(
                        k,
                    ) || k == name@));
                }
            }
            i += 1;
        }
        proof {
            assert(all.take(all.len() as int) =~= all);
            assert forall|k: Seq<char>| #[trigger]
                numbers_of(inner).contains_key(k) <==> numbers_of(self.inner).contains_key(k) by {
                assert(all.to_set().contains(k) <==> all.contains(k));
            }
            assert(numbers_of(inner) =~= numbers_of(self.inner));
        }
        ServiceRegistry { inner }
    }
}

/// The first segment of a path.
pub open spec fn first_segment(path: Seq<char>) -> Seq<char> {
    let rest = trim_start(path, '/');
    rest.take(position(rest, '/', 0))
}

/// The name of the service that a path leads to: its first segment.
pub fn service_name(path: &str) -> (s: String)
    ensures
        s@ == first_segment(path@),
{
    let all = chars_of(path);
    let from: usize = trimmed_from(&all, '/');
    let rest = string_of(&all, from, all.len());
    assert(rest@ =~= trim_start(path@, '/'));
    let chars = chars_of(rest.as_str());
    let slash: usize = position_of(&chars, '/', 0);
    let s = string_of(&chars, 0, slash);
    assert(s@ =~= rest@.take(slash as int));
    s
}

/// The response for an error: its status, and its XML document.
pub open spec fn error_response(e: ErrorState) -> ResponseState {
    ResponseState {
        status: fault_status(e.fault),
        headers: seq![("Content-Type"@, "application/xml"@)],
        body: encode_utf8(error_document(e)),
    }
}

/// The response for an error.
pub fn aws_error_response(err: AwsError) -> (r: Response)
    ensures
        r@ == error_response(err@),
{
    let mut headers: Vec<(String, String)> = Vec::new();
    assert(response_headers(headers@) =~= Seq::empty());
    push_header(&mut headers, "Content-Type", "application/xml");
    let r = Response {
        status: err.status_code(),
        headers,
        body: text_bytes(err.to_xml().as_str()),
    };
    assert(r@.headers =~= seq![("Content-Type"@, "application/xml"@)]);
    r
}

/// What becomes of a request that no route matched.
#[derive(Debug)]
pub enum Fallback {
    /// It goes to this service.
    Delegate(u64),
    /// It is answered with this response.
    Respond(Response),
}

/// What a `Fallback` denotes.
pub enum FallbackState {
    Delegate(u64),
    Respond(ResponseState),
}

impl View for Fallback {
    type V = FallbackState;

    open spec fn view(&self) -> FallbackState {
        match *self {
            Fallback::Delegate(service) => FallbackState::Delegate(service),
            Fallback::Respond(response) => FallbackState::Respond(response@),
        }
    }
}

/// The error for a request that no service takes.
pub open spec fn no_service(reason: Seq<char>) -> ErrorState {
    ErrorState { fault: Fault::NotImplemented, request_id: ""@, host_id: reason }
}

/// What becomes of a request, by its path: it goes to the service that the first segment
/// names. Without one, or where it is not registered, the answer is that this is not
/// implemented.
pub open spec fn fallback(services: Map<Seq<char>, u64>, path: Seq<char>) -> FallbackState {
    let name = first_segment(path);
    if name.len() == 0 {
        FallbackState::Respond(error_response(no_service("No service name in request path"@)))
    } else if services.contains_key(name) {
        FallbackState::Delegate(services[name])
    } else {
        FallbackState::Respond(error_response(no_service("Service unavailable"@)))
    }
}

/// Decides what becomes of a request that no route matched.
pub fn fallback_handler(registry: &ServiceRegistry, path: &str) -> (r: Fallback)
    ensures
        r@ == fallback(registry@, path@),
{
    let name = service_name(path);
    if name.as_str().is_empty() {
        return Fallback::Respond(
            aws_error_response(
                AwsError::new(AwsErrorKind::NotImplemented).request_id("").host_id(
                    "No service name in request path",
                ),
            ),
        );
    }
    match registry.get(name.as_str()) {
        Some(service) => Fallback::Delegate(service),
        None => Fallback::Respond(
            aws_error_response(
                AwsError::new(AwsErrorKind::NotImplemented).request_id("").host_id(
                    "Service unavailable",
                ),
            ),
        ),
    }
}

/// A request for a service that is not registered is answered with status 501.
pub proof fn unregistered_service_is_not_implemented(
    services: Map<Seq<char>, u64>,
    path: Seq<char>,
)
    requires
        !services.contains_key(first_segment(path)),
    ensures
        fallback(services, path) is Respond,
        fallback(services, path)->Respond_0.status == 501,
{
}

/// A service that was registered takes the requests whose path begins with its name.
pub proof fn registered_service_takes_requests(
    services: Map<Seq<char>, u64>,
    name: Seq<char>,
    service: u64,
    path: Seq<char>,
)
    requires
        first_segment(path) == name,
        name.len() > 0,
    ensures
        fallback(services.insert(name, service), path) == FallbackState::Delegate(service),
{
}

} // verus!
