use longpoll_broker::handler::{
    bad_request_response, handle_message, poll_step, process_request, PollStep, RequestAction,
    RequestData, WaitReply, MAX_POLLS,
};
use longpoll_broker::state_tracker::{SessionTracker, StateKind, DEAD_TIMEOUT, PENDING_TIMEOUT};

fn request(method: &str, path: &str, message: &str) -> RequestData {
    RequestData {
        method: method.to_string(),
        path: path.to_string(),
        message: message.to_string(),
    }
}

fn start_wait(tracker: &mut SessionTracker, path: &str, now: u64) -> u128 {
    match process_request(tracker, &request("GET", path, ""), now) {
        RequestAction::Wait(id) => id,
        RequestAction::Respond(text) => panic!("unexpected response {}", text),
    }
}

fn reply_of(step: PollStep) -> WaitReply {
    match step {
        PollStep::Finish(r) => r,
        PollStep::Pause => panic!("still pausing"),
    }
}

#[test]
fn default_timeouts() {
    let t = SessionTracker::new();
    assert_eq!(PENDING_TIMEOUT, 30);
    assert_eq!(DEAD_TIMEOUT, 90);
    assert_eq!(t.session_count(), 0);
    assert_eq!(t.latest_time(), 0);
}

#[test]
fn create_twice_gives_distinct_ids_and_rebinds() {
    let mut t = SessionTracker::new();
    let path = "/job".to_string();
    let a = t.create_pending_session(&path, 0);
    let b = t.create_pending_session(&path, 0);
    assert_ne!(a, b);
    assert_eq!(t.get_pending_session(&path, 0), Some(b));
    assert_eq!(t.fetch_session_id(&path, 0), b);
    assert_eq!(t.session_count(), 2);
    t.finalize_session(&b, &"done".to_string());
    let reply = reply_of(poll_step(&t, b, 0));
    assert_eq!(reply.to_response(), "HTTP/1.1 200 OK\r\n\r\ndone\r\n");
    assert!(matches!(poll_step(&t, a, 0), PollStep::Pause));
}

#[test]
fn fetch_reuses_pending_session() {
    let mut t = SessionTracker::new();
    let path = "/p".to_string();
    let a = t.fetch_session_id(&path, 0);
    let b = t.fetch_session_id(&path, 10);
    assert_eq!(a, b);
    assert_eq!(t.session_count(), 1);
}

#[test]
fn waiter_then_producer_at_time_zero_delivers_within_one_poll() {
    let mut t = SessionTracker::new();
    let id = start_wait(&mut t, "/cb", 0);
    match process_request(&mut t, &request("POST", "/cb", "ok"), 0) {
        RequestAction::Respond(text) => assert_eq!(text, "HTTP/1.1 200 OK\r\n\r\n"),
        RequestAction::Wait(_) => panic!("producer must not wait"),
    }
    let reply = reply_of(poll_step(&t, id, 0));
    assert_eq!(reply.to_response(), "HTTP/1.1 200 OK\r\n\r\nok\r\n");
}

#[test]
fn producer_then_waiter_at_time_zero_waits_on_a_new_session() {
    let mut t = SessionTracker::new();
    match process_request(&mut t, &request("POST", "/cb", "ok"), 0) {
        RequestAction::Respond(text) => assert_eq!(text, "HTTP/1.1 200 OK\r\n\r\n"),
        RequestAction::Wait(_) => panic!("producer must not wait"),
    }
    // the finalized session is Done, so the consumer gets a fresh pending one
    let id = start_wait(&mut t, "/cb", 0);
    assert_eq!(t.session_count(), 2);
    assert_eq!(t.get_session(&id).unwrap().state, StateKind::Pending);
    assert!(matches!(poll_step(&t, id, 0), PollStep::Pause));
}

#[test]
fn producer_request_finalizes_waiting_session() {
    let mut t = SessionTracker::new();
    let id = start_wait(&mut t, "/w", 0);
    let _ = process_request(&mut t, &request("DELETE", "/w", "payload"), 1);
    let s = t.get_session(&id).unwrap();
    assert_eq!(s.state, StateKind::Done);
    assert_eq!(s.message, Some("payload".to_string()));
    assert_eq!(t.session_count(), 1);
}

#[test]
fn finalize_before_window_elapses_delivers_message() {
    let mut t = SessionTracker::new();
    let id = start_wait(&mut t, "/x", 5);
    let _ = handle_message(&mut t, &request("PUT", "/x", "hello"), 20);
    match poll_step(&t, id, 3) {
        PollStep::Finish(WaitReply::Message(m)) => assert_eq!(m, "hello"),
        other => panic!("unexpected {:?}", other),
    }
}

#[test]
fn producer_without_waiter_creates_done_session() {
    let mut t = SessionTracker::new();
    let text = handle_message(&mut t, &request("POST", "/lonely", "m"), 0);
    assert_eq!(text, "HTTP/1.1 200 OK\r\n\r\n");
    assert_eq!(t.session_count(), 1);
    let path = "/lonely".to_string();
    assert_eq!(t.get_pending_session(&path, 0), None);
}

#[test]
fn wait_times_out_after_max_polls() {
    let mut t = SessionTracker::new();
    let id = start_wait(&mut t, "/slow", 0);
    let mut polls: u32 = 0;
    loop {
        match poll_step(&t, id, polls) {
            PollStep::Pause => polls += 1,
            PollStep::Finish(r) => {
                assert_eq!(r.to_response(), "HTTP/1.1 408 Request Timeout\r\n\r\n");
                break;
            }
        }
    }
    assert_eq!(polls, MAX_POLLS);
    assert_eq!(MAX_POLLS, 200);
}

#[test]
fn wait_sees_timeout_with_short_pending_timeout() {
    let mut t = SessionTracker::with_timeouts(2, 6);
    let id = start_wait(&mut t, "/a", 0);
    assert!(matches!(poll_step(&t, id, 0), PollStep::Pause));
    // another creation runs the sweep, which times the waiter's session out
    let _ = start_wait(&mut t, "/b", 3);
    assert_eq!(t.get_session(&id).unwrap().state, StateKind::Timeout);
    let reply = reply_of(poll_step(&t, id, 1));
    assert_eq!(reply.to_response(), "HTTP/1.1 422 Unprocessable Entity\r\n\r\n");
}

#[test]
fn dead_session_is_evicted() {
    let mut t = SessionTracker::new();
    let a_path = "/a".to_string();
    let a = t.create_pending_session(&a_path, 0);
    let b_path = "/b".to_string();
    let _b = t.create_pending_session(&b_path, 90);
    assert!(t.get_session(&a).is_none());
    assert_eq!(t.get_pending_session(&a_path, 90), None);
    assert_eq!(t.session_count(), 1);
    let reply = reply_of(poll_step(&t, a, 0));
    assert!(matches!(reply, WaitReply::Unprocessable));
}

#[test]
fn sweep_counts_evictions() {
    let mut t = SessionTracker::new();
    for i in 0..7u64 {
        let p = format!("/p{}", i);
        t.create_pending_session(&p, i);
    }
    assert_eq!(t.check_expired_sessions(100), 5);
    assert_eq!(t.session_count(), 2);
    assert_eq!(t.check_expired_sessions(100), 2);
    assert_eq!(t.session_count(), 0);
    assert_eq!(t.check_expired_sessions(100), 0);
}

#[test]
fn sweep_stalls_on_timed_out_front() {
    let mut t = SessionTracker::new();
    let a_path = "/a".to_string();
    let b_path = "/b".to_string();
    let a = t.create_pending_session(&a_path, 0);
    let b = t.create_pending_session(&b_path, 10);
    assert_eq!(t.check_expired_sessions(40), 0);
    assert_eq!(t.get_session(&a).unwrap().state, StateKind::Timeout);
    assert_eq!(t.get_session(&b).unwrap().state, StateKind::Pending);
    assert_eq!(t.get_pending_session(&b_path, 40), Some(b));
    assert_eq!(t.get_pending_session(&b_path, 41), None);
    assert_eq!(t.check_expired_sessions(90), 1);
    assert!(t.get_session(&a).is_none());
}

#[test]
fn finalize_twice_keeps_second_message() {
    let mut t = SessionTracker::new();
    let path = "/f".to_string();
    let id = t.create_pending_session(&path, 0);
    t.finalize_session(&id, &"first".to_string());
    t.finalize_session(&id, &"second".to_string());
    let s = t.get_session(&id).unwrap();
    assert_eq!(s.state, StateKind::Done);
    assert_eq!(s.message, Some("second".to_string()));
    assert_eq!(s.created_at, 0);
}

#[test]
fn finalize_unknown_session_is_ignored() {
    let mut t = SessionTracker::new();
    t.finalize_session(&42u128, &"late".to_string());
    assert_eq!(t.session_count(), 0);
    assert!(t.get_session(&42u128).is_none());
}

#[test]
fn session_older_than_pending_timeout_is_not_resolved() {
    let mut t = SessionTracker::new();
    let path = "/old".to_string();
    let a = t.create_pending_session(&path, 0);
    assert_eq!(t.get_pending_session(&path, 30), Some(a));
    assert_eq!(t.get_pending_session(&path, 31), None);
    let b = t.fetch_session_id(&path, 31);
    assert_ne!(a, b);
}

#[test]
fn reply_texts() {
    assert_eq!(WaitReply::Empty.to_response(), "HTTP/1.1 200 OK\r\n\r\n");
    assert_eq!(
        WaitReply::Message("body".to_string()).to_response(),
        "HTTP/1.1 200 OK\r\n\r\nbody\r\n"
    );
    assert_eq!(
        WaitReply::Unprocessable.to_response(),
        "HTTP/1.1 422 Unprocessable Entity\r\n\r\n"
    );
    assert_eq!(bad_request_response("No path"), "HTTP/1.1 400 Bad Request\r\n\r\nNo path");
}

#[test]
fn snapshot_copies_record() {
    let mut t = SessionTracker::new();
    let path = "/s".to_string();
    let id = t.create_pending_session(&path, 3);
    let s = t.get_session(&id).unwrap();
    let c = s.snapshot();
    assert_eq!(c.state, StateKind::Pending);
    assert_eq!(c.message, None);
    assert_eq!(c.created_at, 3);
}
