//! One client connection, as a state machine: what the proxy does next for
//! each thing that can happen on the connection.

use crate::admission::{lemma_quota, lemma_unlimited, LimiterView, RateLimiter};
use vstd::prelude::*;

verus! {

/// Status of a response that was relayed without fault.
pub const OK: u16 = 200;

/// Status sent for a request that is malformed, cut short, or whose content
/// length is invalid or does not match its body.
pub const BAD_REQUEST: u16 = 400;

/// Status sent for a request whose body is too large.
pub const PAYLOAD_TOO_LARGE: u16 = 413;

/// Status sent to a client that has used up its quota.
pub const TOO_MANY_REQUESTS: u16 = 429;

/// Status sent when no upstream is alive, or when the upstream could not be
/// written to or read from.
pub const BAD_GATEWAY: u16 = 502;

/// Status that stands for a failure to read from the client's connection.
pub const SERVICE_UNAVAILABLE: u16 = 503;

/// Why no request could be read from the client.
#[derive(Debug, Clone, Copy, PartialEq, Eq, Structural)]
pub enum RequestError {
    /// The client stopped sending after this many bytes of a request.
    IncompleteRequest(usize),
    /// The bytes are no HTTP request.
    MalformedRequest,
    /// The content length is no number.
    InvalidContentLength,
    /// The body is not as long as the content length says.
    ContentLengthMismatch,
    /// The body is larger than the proxy accepts.
    RequestBodyTooLarge,
    /// Reading from the connection failed.
    ConnectionError,
}

impl RequestError {
    /// The status that stands for this error.
    pub open spec fn status_of(self) -> u16 {
        match self {
            RequestError::IncompleteRequest(_) => BAD_REQUEST,
            RequestError::MalformedRequest => BAD_REQUEST,
            RequestError::InvalidContentLength => BAD_REQUEST,
            RequestError::ContentLengthMismatch => BAD_REQUEST,
            RequestError::RequestBodyTooLarge => PAYLOAD_TOO_LARGE,
            RequestError::ConnectionError => SERVICE_UNAVAILABLE,
        }
    }

    /// Whether the client is gone: it closed the connection between two
    /// requests, or the connection failed. Nothing is sent then.
    pub open spec fn client_gone(self) -> bool {
        self == RequestError::IncompleteRequest(0) || self == RequestError::ConnectionError
    }

    /// The status that stands for this error.
    pub fn status(&self) -> (code: u16)
        ensures
            code == self.status_of(),
    {
        match self {
            RequestError::IncompleteRequest(_) => BAD_REQUEST,
            RequestError::MalformedRequest => BAD_REQUEST,
            RequestError::InvalidContentLength => BAD_REQUEST,
            RequestError::ContentLengthMismatch => BAD_REQUEST,
            RequestError::RequestBodyTooLarge => PAYLOAD_TOO_LARGE,
            RequestError::ConnectionError => SERVICE_UNAVAILABLE,
        }
    }

    /// Whether the client is gone, so that the session ends in silence.
    pub fn ends_session(&self) -> (gone: bool)
        ensures
            gone == self.client_gone(),
    {
        match self {
            RequestError::IncompleteRequest(read) => *read == 0,
            RequestError::ConnectionError => true,
            _ => false,
        }
    }
}

/// Where a session stands. `AwaitingRequest` and `AwaitingUpstream` are the
/// two halves of forwarding: between requests, and between handing a request
/// to the upstream and having its response.
#[derive(Debug, Clone, Copy, PartialEq, Eq, Structural)]
pub enum SessionState {
    /// No upstream connection yet.
    SelectingUpstream,
    /// Connected; the next request of the client is awaited.
    AwaitingRequest,
    /// A request is on its way to the upstream.
    AwaitingUpstream,
    /// Over. Nothing more is read or sent.
    Closed,
}

impl SessionState {
    /// Whether the session has an upstream and is still open.
    pub open spec fn forwarding(self) -> bool {
        self == SessionState::AwaitingRequest || self == SessionState::AwaitingUpstream
    }

    /// Whether the session has an upstream and is still open.
    pub fn is_forwarding(&self) -> (b: bool)
        ensures
            b == self.forwarding(),
    {
        match self {
            SessionState::AwaitingRequest => true,
            SessionState::AwaitingUpstream => true,
            _ => false,
        }
    }

    /// Whether the session is over.
    pub fn is_closed(&self) -> (b: bool)
        ensures
            b == (*self == SessionState::Closed),
    {
        match self {
            SessionState::Closed => true,
            _ => false,
        }
    }
}

/// What happened on the connection.
#[derive(Debug, Clone, Copy, PartialEq, Eq, Structural)]
pub enum Event {
    /// A connection to an upstream was opened.
    UpstreamConnected,
    /// No upstream was left to connect to.
    NoUpstream,
    /// A well-formed request was read from the client.
    Request,
    /// No request could be read from the client.
    RequestFailed(RequestError),
    /// The request could not be written to the upstream.
    UpstreamWriteFailed,
    /// The upstream's response could not be read.
    UpstreamResponseFailed,
    /// The upstream's response was read.
    UpstreamResponse,
}

/// What the proxy does in answer to an event.
#[derive(Debug, Clone, Copy, PartialEq, Eq, Structural)]
pub enum Action {
    /// Nothing is sent.
    Hold,
    /// An error response with this status goes to the client.
    Respond(u16),
    /// The request goes to the upstream, marked with the client's address.
    Forward,
    /// The upstream's response goes to the client as it is.
    Relay,
}

/// The answer to one event: the state that follows and what is done.
#[derive(Debug, Clone, Copy, PartialEq, Eq, Structural)]
pub struct Step {
    pub next: SessionState,
    pub action: Action,
}

/// Whether `event`, arriving in `state`, is a request that counts against
/// the client's quota.
pub open spec fn counts_request(state: SessionState, event: Event) -> bool {
    state == SessionState::AwaitingRequest && event == Event::Request
}

/// The answer to `event` in `state`. `admitted` says whether the client is
/// within its quota; it is read only where `counts_request` holds. An event
/// that cannot happen in `state` ends the session in silence.
pub open spec fn transition(state: SessionState, event: Event, admitted: bool) -> Step {
    match state {
        SessionState::SelectingUpstream => match event {
            Event::UpstreamConnected => Step {
                next: SessionState::AwaitingRequest,
                action: Action::Hold,
            },
            Event::NoUpstream => Step {
                next: SessionState::Closed,
                action: Action::Respond(BAD_GATEWAY),
            },
            _ => Step { next: SessionState::Closed, action: Action::Hold },
        },
        SessionState::AwaitingRequest => match event {
            Event::Request => if admitted {
                Step { next: SessionState::AwaitingUpstream, action: Action::Forward }
            } else {
                Step { next: SessionState::Closed, action: Action::Respond(TOO_MANY_REQUESTS) }
            },
            Event::RequestFailed(error) => if error.client_gone() {
                Step { next: SessionState::Closed, action: Action::Hold }
            } else {
                Step {
                    next: SessionState::AwaitingRequest,
                    action: Action::Respond(error.status_of()),
                }
            },
            _ => Step { next: SessionState::Closed, action: Action::Hold },
        },
        SessionState::AwaitingUpstream => match event {
            Event::UpstreamResponse => Step {
                next: SessionState::AwaitingRequest,
                action: Action::Relay,
            },
            Event::UpstreamWriteFailed => Step {
                next: SessionState::Closed,
                action: Action::Respond(BAD_GATEWAY),
            },
            Event::UpstreamResponseFailed => Step {
                next: SessionState::Closed,
                action: Action::Respond(BAD_GATEWAY),
            },
            _ => Step { next: SessionState::Closed, action: Action::Hold },
        },
        SessionState::Closed => Step { next: SessionState::Closed, action: Action::Hold },
    }
}

/// Answers one event of the session of `client`. A well-formed request is
/// counted against the client's quota in `limiter`; nothing else touches the
/// limiter.
pub fn step(state: SessionState, event: Event, client: &str, limiter: &mut RateLimiter) -> (answer:
    Step)
    ensures
        answer == transition(state, event, old(limiter)@.admits(client@)),
        final(limiter)@ == (if counts_request(state, event) {
            old(limiter)@.record(client@)
        } else {
            old(limiter)@
        }),
{
    let silent = Step { next: SessionState::Closed, action: Action::Hold };
    match state {
        SessionState::SelectingUpstream => match event {
            Event::UpstreamConnected => Step {
                next: SessionState::AwaitingRequest,
                action: Action::Hold,
            },
            Event::NoUpstream => Step {
                next: SessionState::Closed,
                action: Action::Respond(BAD_GATEWAY),
            },
            _ => silent,
        },
        SessionState::AwaitingRequest => match event {
            Event::Request => {
                if limiter.count_request(client) {
                    Step { next: SessionState::AwaitingUpstream, action: Action::Forward }
                } else {
                    Step { next: SessionState::Closed, action: Action::Respond(TOO_MANY_REQUESTS) }
                }
            },
            Event::RequestFailed(error) => {
                if error.ends_session() {
                    silent
                } else {
                    Step {
                        next: SessionState::AwaitingRequest,
                        action: Action::Respond(error.status()),
                    }
                }
            },
            _ => silent,
        },
        SessionState::AwaitingUpstream => match event {
            Event::UpstreamResponse => Step {
                next: SessionState::AwaitingRequest,
                action: Action::Relay,
            },
            Event::UpstreamWriteFailed => Step {
                next: SessionState::Closed,
                action: Action::Respond(BAD_GATEWAY),
            },
            Event::UpstreamResponseFailed => Step {
                next: SessionState::Closed,
                action: Action::Respond(BAD_GATEWAY),
            },
            _ => silent,
        },
        SessionState::Closed => silent,
    }
}

/// A closed session stays closed and sends nothing.
pub proof fn lemma_closed_is_final(event: Event, admitted: bool)
    ensures
        transition(SessionState::Closed, event, admitted) == (Step {
            next: SessionState::Closed,
            action: Action::Hold,
        }),
{
}

/// Without an upstream the session ends at once with one 502 and never
/// forwards.
pub proof fn lemma_no_upstream(admitted: bool)
    ensures
        transition(SessionState::SelectingUpstream, Event::NoUpstream, admitted) == (Step {
            next: SessionState::Closed,
            action: Action::Respond(502),
        }),
{
}

/// A request goes to the upstream in one case only: it is well formed, the
/// session awaits a request, and the client is within its quota.
pub proof fn lemma_forward_only_admitted(state: SessionState, event: Event, admitted: bool)
    ensures
        transition(state, event, admitted).action == Action::Forward <==> (state
            == SessionState::AwaitingRequest && event == Event::Request && admitted),
        transition(state, event, admitted).next == SessionState::AwaitingUpstream <==> transition(
            state,
            event,
            admitted,
        ).action == Action::Forward,
{
}

/// A client over its quota gets a 429 and the session ends.
pub proof fn lemma_over_quota()
    ensures
        transition(SessionState::AwaitingRequest, Event::Request, false) == (Step {
            next: SessionState::Closed,
            action: Action::Respond(429),
        }),
{
}

/// A request that cannot be read, from a client that is still there, is
/// answered with 400 or 413, nothing goes upstream, and the session goes on.
pub proof fn lemma_bad_request(error: RequestError, admitted: bool)
    requires
        !error.client_gone(),
    ensures
        transition(SessionState::AwaitingRequest, Event::RequestFailed(error), admitted).next
            == SessionState::AwaitingRequest,
        transition(SessionState::AwaitingRequest, Event::RequestFailed(error), admitted).action
            == Action::Respond(error.status_of()),
        error.status_of() == 400 || error.status_of() == 413,
        error.status_of() == 413 <==> error == RequestError::RequestBodyTooLarge,
{
}

/// An upstream that fails in mid-session costs the client a 502 and the
/// session; an upstream that answers has its response relayed and the
/// session goes on to the next request.
pub proof fn lemma_upstream_outcome(admitted: bool)
    ensures
        transition(SessionState::AwaitingUpstream, Event::UpstreamWriteFailed, admitted) == (Step {
            next: SessionState::Closed,
            action: Action::Respond(502),
        }),
        transition(SessionState::AwaitingUpstream, Event::UpstreamResponseFailed, admitted) == (
        Step { next: SessionState::Closed, action: Action::Respond(502) }),
        transition(SessionState::AwaitingUpstream, Event::UpstreamResponse, admitted) == (Step {
            next: SessionState::AwaitingRequest,
            action: Action::Relay,
        }),
{
}

/// The only statuses that the proxy sends of its own accord.
pub proof fn lemma_statuses(state: SessionState, event: Event, admitted: bool)
    ensures
        transition(state, event, admitted).action matches Action::Respond(code) ==> code == 400
            || code == 413 || code == 429 || code == 502,
{
}


/// The quota over one window: with a limit of `n > 0`, of the requests that
/// a client sends after a reset the first `n` are forwarded, and the one
/// after them is answered with 429 and ends the session.
pub proof fn lemma_quota_in_session(v: LimiterView, client: Seq<char>, k: nat)
    requires
        v.limit > 0,
        v.seen(client) == 0,
        k <= usize::MAX,
    ensures
        transition(
            SessionState::AwaitingRequest,
            Event::Request,
            v.record_many(client, k).admits(client),
        ) == (if k < v.limit {
            Step { next: SessionState::AwaitingUpstream, action: Action::Forward }
        } else {
            Step { next: SessionState::Closed, action: Action::Respond(429) }
        }),
{
    lemma_quota(v, client, k);
}

/// After a reset the first request of any client is forwarded again, however
/// many requests were counted before.
pub proof fn lemma_reset_in_session(v: LimiterView, client: Seq<char>)
    ensures
        transition(SessionState::AwaitingRequest, Event::Request, v.reset().admits(client)) == (
        Step { next: SessionState::AwaitingUpstream, action: Action::Forward }),
{
}

/// With a limit of 0 every well-formed request is forwarded, however many
/// the client has sent.
pub proof fn lemma_unlimited_in_session(v: LimiterView, client: Seq<char>, k: nat)
    requires
        v.limit == 0,
    ensures
        transition(
            SessionState::AwaitingRequest,
            Event::Request,
            v.record_many(client, k).admits(client),
        ) == (Step { next: SessionState::AwaitingUpstream, action: Action::Forward }),
{
    lemma_unlimited(v, client, k);
}

} // verus!
