use cs110l::admission::RateLimiter;
use cs110l::session::{
    step, Action, Event, RequestError, SessionState, Step, BAD_GATEWAY, BAD_REQUEST, OK,
    PAYLOAD_TOO_LARGE, SERVICE_UNAVAILABLE, TOO_MANY_REQUESTS,
};
use cs110l::upstream::UpstreamPool;

const CLIENT: &str = "192.0.2.7";

fn closed(action: Action) -> Step {
    Step { next: SessionState::Closed, action }
}

#[test]
fn status_numbers() {
    assert_eq!(OK, 200);
    assert_eq!(BAD_REQUEST, 400);
    assert_eq!(PAYLOAD_TOO_LARGE, 413);
    assert_eq!(TOO_MANY_REQUESTS, 429);
    assert_eq!(BAD_GATEWAY, 502);
    assert_eq!(SERVICE_UNAVAILABLE, 503);
}

#[test]
fn every_request_error_has_its_status() {
    assert_eq!(RequestError::IncompleteRequest(0).status(), 400);
    assert_eq!(RequestError::IncompleteRequest(17).status(), 400);
    assert_eq!(RequestError::MalformedRequest.status(), 400);
    assert_eq!(RequestError::InvalidContentLength.status(), 400);
    assert_eq!(RequestError::ContentLengthMismatch.status(), 400);
    assert_eq!(RequestError::RequestBodyTooLarge.status(), 413);
    assert_eq!(RequestError::ConnectionError.status(), 503);
}

#[test]
fn which_request_errors_end_the_session() {
    assert!(RequestError::IncompleteRequest(0).ends_session());
    assert!(RequestError::ConnectionError.ends_session());
    assert!(!RequestError::IncompleteRequest(1).ends_session());
    assert!(!RequestError::MalformedRequest.ends_session());
    assert!(!RequestError::InvalidContentLength.ends_session());
    assert!(!RequestError::ContentLengthMismatch.ends_session());
    assert!(!RequestError::RequestBodyTooLarge.ends_session());
}

#[test]
fn state_queries() {
    assert!(!SessionState::SelectingUpstream.is_forwarding());
    assert!(SessionState::AwaitingRequest.is_forwarding());
    assert!(SessionState::AwaitingUpstream.is_forwarding());
    assert!(!SessionState::Closed.is_forwarding());
    assert!(SessionState::Closed.is_closed());
    assert!(!SessionState::AwaitingRequest.is_closed());
}

#[test]
fn connecting_opens_the_session() {
    let mut limiter = RateLimiter::new(0);
    let s = step(SessionState::SelectingUpstream, Event::UpstreamConnected, CLIENT, &mut limiter);
    assert_eq!(s, Step { next: SessionState::AwaitingRequest, action: Action::Hold });
}

#[test]
fn all_upstreams_dead_gives_one_502() {
    let mut pool = UpstreamPool::new(vec!["a:1".to_string(), "b:2".to_string()]);
    pool.mark_dead(0);
    pool.mark_dead(0);
    let mut limiter = RateLimiter::new(0);
    assert_eq!(pool.select(), None);
    let s = step(SessionState::SelectingUpstream, Event::NoUpstream, CLIENT, &mut limiter);
    assert_eq!(s, closed(Action::Respond(502)));
    let after = step(s.next, Event::Request, CLIENT, &mut limiter);
    assert_eq!(after, closed(Action::Hold));
}

#[test]
fn two_requests_on_one_connection() {
    let mut limiter = RateLimiter::new(0);
    let mut state = SessionState::SelectingUpstream;
    state = step(state, Event::UpstreamConnected, CLIENT, &mut limiter).next;
    for _ in 0..2 {
        let s = step(state, Event::Request, CLIENT, &mut limiter);
        assert_eq!(s, Step { next: SessionState::AwaitingUpstream, action: Action::Forward });
        let s = step(s.next, Event::UpstreamResponse, CLIENT, &mut limiter);
        assert_eq!(s, Step { next: SessionState::AwaitingRequest, action: Action::Relay });
        state = s.next;
        assert!(state.is_forwarding());
    }
    let end = step(state, Event::RequestFailed(RequestError::IncompleteRequest(0)), CLIENT, &mut limiter);
    assert_eq!(end, closed(Action::Hold));
}

#[test]
fn short_body_gets_400_and_nothing_goes_upstream() {
    let mut limiter = RateLimiter::new(0);
    let state = SessionState::AwaitingRequest;
    let s = step(state, Event::RequestFailed(RequestError::ContentLengthMismatch), CLIENT, &mut limiter);
    assert_eq!(s, Step { next: SessionState::AwaitingRequest, action: Action::Respond(400) });
    let s = step(state, Event::RequestFailed(RequestError::IncompleteRequest(5)), CLIENT, &mut limiter);
    assert_eq!(s, Step { next: SessionState::AwaitingRequest, action: Action::Respond(400) });
    let s = step(s.next, Event::RequestFailed(RequestError::IncompleteRequest(0)), CLIENT, &mut limiter);
    assert_eq!(s, closed(Action::Hold));
}

#[test]
fn bad_requests_are_answered_and_the_session_goes_on() {
    let mut limiter = RateLimiter::new(0);
    let state = SessionState::AwaitingRequest;
    for (error, status) in [
        (RequestError::MalformedRequest, 400),
        (RequestError::InvalidContentLength, 400),
        (RequestError::ContentLengthMismatch, 400),
        (RequestError::IncompleteRequest(3), 400),
        (RequestError::RequestBodyTooLarge, 413),
    ] {
        let s = step(state, Event::RequestFailed(error), CLIENT, &mut limiter);
        assert_eq!(s, Step { next: SessionState::AwaitingRequest, action: Action::Respond(status) });
    }
}

#[test]
fn a_client_that_is_gone_gets_nothing() {
    let mut limiter = RateLimiter::new(0);
    let state = SessionState::AwaitingRequest;
    let s = step(state, Event::RequestFailed(RequestError::ConnectionError), CLIENT, &mut limiter);
    assert_eq!(s, closed(Action::Hold));
    let s = step(state, Event::RequestFailed(RequestError::IncompleteRequest(0)), CLIENT, &mut limiter);
    assert_eq!(s, closed(Action::Hold));
}

#[test]
fn upstream_failures_give_502_and_close() {
    let mut limiter = RateLimiter::new(0);
    let state = SessionState::AwaitingUpstream;
    let s = step(state, Event::UpstreamWriteFailed, CLIENT, &mut limiter);
    assert_eq!(s, closed(Action::Respond(502)));
    let s = step(state, Event::UpstreamResponseFailed, CLIENT, &mut limiter);
    assert_eq!(s, closed(Action::Respond(502)));
}

#[test]
fn quota_over_one_connection() {
    let mut limiter = RateLimiter::new(2);
    let mut state = SessionState::AwaitingRequest;
    for _ in 0..2 {
        let s = step(state, Event::Request, CLIENT, &mut limiter);
        assert_eq!(s.action, Action::Forward);
        state = step(s.next, Event::UpstreamResponse, CLIENT, &mut limiter).next;
    }
    let s = step(state, Event::Request, CLIENT, &mut limiter);
    assert_eq!(s, closed(Action::Respond(429)));
    assert_eq!(limiter.seen(CLIENT), 3);
    limiter.reset();
    let s = step(SessionState::AwaitingRequest, Event::Request, CLIENT, &mut limiter);
    assert_eq!(s, Step { next: SessionState::AwaitingUpstream, action: Action::Forward });
}

#[test]
fn only_well_formed_requests_are_counted() {
    let mut limiter = RateLimiter::new(5);
    let state = SessionState::AwaitingRequest;
    step(state, Event::RequestFailed(RequestError::MalformedRequest), CLIENT, &mut limiter);
    step(SessionState::AwaitingUpstream, Event::UpstreamResponse, CLIENT, &mut limiter);
    step(SessionState::SelectingUpstream, Event::UpstreamConnected, CLIENT, &mut limiter);
    step(SessionState::Closed, Event::Request, CLIENT, &mut limiter);
    step(SessionState::AwaitingUpstream, Event::Request, CLIENT, &mut limiter);
    assert_eq!(limiter.seen(CLIENT), 0);
    step(state, Event::Request, CLIENT, &mut limiter);
    assert_eq!(limiter.seen(CLIENT), 1);
}

#[test]
fn unlimited_sessions_are_never_rejected() {
    let mut limiter = RateLimiter::new(0);
    for _ in 0..1000 {
        let s = step(SessionState::AwaitingRequest, Event::Request, CLIENT, &mut limiter);
        assert_eq!(s.action, Action::Forward);
    }
}

#[test]
fn events_out_of_place_close_in_silence() {
    let mut limiter = RateLimiter::new(0);
    let cases = [
        (SessionState::SelectingUpstream, Event::Request),
        (SessionState::SelectingUpstream, Event::UpstreamResponse),
        (SessionState::AwaitingRequest, Event::UpstreamResponse),
        (SessionState::AwaitingRequest, Event::NoUpstream),
        (SessionState::AwaitingUpstream, Event::Request),
        (SessionState::AwaitingUpstream, Event::UpstreamConnected),
        (SessionState::Closed, Event::UpstreamConnected),
        (SessionState::Closed, Event::NoUpstream),
    ];
    for (state, event) in cases {
        assert_eq!(step(state, event, CLIENT, &mut limiter), closed(Action::Hold));
    }
}
