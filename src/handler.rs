use crate::state_tracker::{
    finalize_model, model_wf, pending_model, resolved_model, resolves_to, session_model, SessionData, SessionTracker, StateKind, TrackerModel,
};
use vstd::prelude::*;
use vstd::string::*;

verus! {

/// Number of times a waiter checks its session before giving up.
pub const MAX_POLLS: u32 = 200;

/// Pause between two checks of a waiter, in milliseconds.
pub const PAUSE_INT: u64 = 50;

/// A parsed request: method, path and the message (last line) it carries.
pub struct RequestData {
    pub method: String,
    pub path: String,
    pub message: String,
}

/// How a wait ends.
#[derive(Debug)]
pub enum WaitReply {
    /// The session was finalized with this message.
    Message(String),
    /// The session was finalized without a message.
    Empty,
    /// The session timed out or vanished.
    Unprocessable,
    /// The wait budget ran out while the session stayed pending.
    RequestTimeout,
}

/// What a waiter does after one check of its session.
#[derive(Debug)]
pub enum PollStep {
    /// Pause for `PAUSE_INT` milliseconds, then check again.
    Pause,
    /// Answer with this reply.
    Finish(WaitReply),
}

/// What the dispatcher does with a request.
#[derive(Debug)]
pub enum RequestAction {
    /// Send this response now.
    Respond(String),
    /// Wait on this session, checking it with `poll_step`.
    Wait(u128),
}

/// Outcome of one check, given what the check saw of the session and how
/// many checks came before it.
pub open spec fn poll_model(seen: Option<SessionData>, polls_done: nat) -> PollStep {
    if polls_done >= MAX_POLLS {
        PollStep::Finish(WaitReply::RequestTimeout)
    } else {
        match seen {
            Some(s) => match s.state {
                StateKind::Done => match s.message {
                    Some(m) => PollStep::Finish(WaitReply::Message(m)),
                    None => PollStep::Finish(WaitReply::Empty),
                },
                StateKind::Pending => PollStep::Pause,
                StateKind::Timeout => PollStep::Finish(WaitReply::Unprocessable),
            },
            None => PollStep::Finish(WaitReply::Unprocessable),
        }
    }
}

/// What check `k` sees, when check `i` sees `seen[i]`.
pub open spec fn seen_at(seen: Seq<Option<SessionData>>, k: nat) -> Option<SessionData> {
    if k < seen.len() {
        seen[k as int]
    } else {
        None
    }
}

/// A whole wait from check `k` on, when check `i` sees `seen[i]`: the
/// reply and the number of checks that were followed by a pause.
pub open spec fn wait_model(seen: Seq<Option<SessionData>>, k: nat) -> (WaitReply, nat)
    decreases MAX_POLLS - k,
{
    match poll_model(seen_at(seen, k), k) {
        PollStep::Pause => wait_model(seen, k + 1),
        PollStep::Finish(r) => (r, k),
    }
}

pub open spec fn ok_head() -> Seq<char> {
    "HTTP/1.1 200 OK\r\n\r\n"@
}

/// The response text of a reply.
pub open spec fn reply_text(r: WaitReply) -> Seq<char> {
    match r {
        WaitReply::Message(m) => ok_head() + m@ + "\r\n"@,
        WaitReply::Empty => ok_head(),
        WaitReply::Unprocessable => "HTTP/1.1 422 Unprocessable Entity\r\n\r\n"@,
        WaitReply::RequestTimeout => "HTTP/1.1 408 Request Timeout\r\n\r\n"@,
    }
}

impl WaitReply {
    /// The response text of the reply.
    pub fn to_response(&self) -> (r: String)
        ensures
            r@ == reply_text(*self),
    {
        match self {
            WaitReply::Message(m) => {
                let head = String::from_str("HTTP/1.1 200 OK\r\n\r\n");
                head.concat(m.as_str()).concat("\r\n")
            },
            WaitReply::Empty => String::from_str("HTTP/1.1 200 OK\r\n\r\n"),
            WaitReply::Unprocessable => String::from_str(
                "HTTP/1.1 422 Unprocessable Entity\r\n\r\n",
            ),
            WaitReply::RequestTimeout => String::from_str("HTTP/1.1 408 Request Timeout\r\n\r\n"),
        }
    }
}

/// One check of a waiter on session `uid`, after `polls_done` checks.
pub fn poll_step(tracker: &SessionTracker, uid: u128, polls_done: u32) -> (r: PollStep)
    requires
        tracker.wf(),
    ensures
        r == poll_model(session_model(tracker@, uid), polls_done as nat),
{
    if polls_done >= MAX_POLLS {
        return PollStep::Finish(WaitReply::RequestTimeout);
    }
    match tracker.get_session(&uid) {
        Some(SessionData { state: StateKind::Done, message: Some(message), .. }) => PollStep::Finish(
            WaitReply::Message(message),
        ),
        Some(SessionData { state: StateKind::Done, .. }) => PollStep::Finish(WaitReply::Empty),
        Some(SessionData { state: StateKind::Pending, .. }) => PollStep::Pause,
        _ => PollStep::Finish(WaitReply::Unprocessable),
    }
}

/// The response to a malformed request.
pub fn bad_request_response(error: &str) -> (r: String)
    ensures
        r@ == "HTTP/1.1 400 Bad Request\r\n\r\n"@ + error@,
{
    String::from_str("HTTP/1.1 400 Bad Request\r\n\r\n").concat(error)
}

/// A producer request: finalizes the pending session of the path (created
/// when there is none) with the request's message, and acknowledges.
pub fn handle_message(tracker: &mut SessionTracker, req_data: &RequestData, now: u64) -> (r: String)
    requires
        old(tracker).wf(),
        now >= old(tracker).clock(),
    ensures
        final(tracker).wf(),
        model_wf(final(tracker)@),
        now >= final(tracker).clock(),
        r@ == ok_head(),
        exists|id: u128|
            resolves_to(old(tracker)@, req_data.path@, now, id) && final(tracker)@
                == finalize_model(
                #[trigger] resolved_model(old(tracker)@, req_data.path@, now, id),
                id,
                req_data.message,
            ),
{
    let session = tracker.fetch_session_id(&req_data.path, now);
    tracker.finalize_session(&session, &req_data.message);
    String::from_str("HTTP/1.1 200 OK\r\n\r\n")
}

/// Routes a request: `GET` waits on the pending session of the path
/// (created when there is none); any other method delivers a message.
pub fn process_request(tracker: &mut SessionTracker, req_data: &RequestData, now: u64) -> (r:
    RequestAction)
    requires
        old(tracker).wf(),
        now >= old(tracker).clock(),
    ensures
        final(tracker).wf(),
        model_wf(final(tracker)@),
        now >= final(tracker).clock(),
        req_data.method@ == "GET"@ ==> match r {
            RequestAction::Wait(id) => resolves_to(old(tracker)@, req_data.path@, now, id)
                && final(tracker)@ == resolved_model(old(tracker)@, req_data.path@, now, id),
            RequestAction::Respond(_) => false,
        },
        req_data.method@ != "GET"@ ==> match r {
            RequestAction::Respond(text) => text@ == ok_head(),
            RequestAction::Wait(_) => false,
        },
        req_data.method@ != "GET"@ ==> exists|id: u128|
            resolves_to(old(tracker)@, req_data.path@, now, id) && final(tracker)@
                == finalize_model(
                #[trigger] resolved_model(old(tracker)@, req_data.path@, now, id),
                id,
                req_data.message,
            ),
{
    let get = String::from_str("GET");
    if req_data.method == get {
        RequestAction::Wait(tracker.fetch_session_id(&req_data.path, now))
    } else {
        RequestAction::Respond(handle_message(tracker, req_data, now))
    }
}

/// From check `k` on, a session that every check sees pending makes the
/// wait end with a timeout after the last check.
proof fn lemma_wait_runs_out_from(seen: Seq<Option<SessionData>>, k: nat)
    requires
        k <= MAX_POLLS,
        seen.len() >= MAX_POLLS,
        forall|i: int|
            0 <= i < MAX_POLLS ==> (#[trigger] seen[i]) is Some && seen[i]->Some_0.state
                == StateKind::Pending,
    ensures
        wait_model(seen, k) == (WaitReply::RequestTimeout, MAX_POLLS as nat),
    decreases MAX_POLLS - k,
{
    if k < MAX_POLLS {
        assert(seen[k as int] is Some);
        lemma_wait_runs_out_from(seen, k + 1);
    }
}

/// A wait on a session that stays pending through every check ends with
/// a timeout, after exactly the maximum number of checks.
pub proof fn lemma_wait_runs_out(seen: Seq<Option<SessionData>>)
    requires
        seen.len() >= MAX_POLLS,
        forall|i: int|
            0 <= i < MAX_POLLS ==> (#[trigger] seen[i]) is Some && seen[i]->Some_0.state
                == StateKind::Pending,
    ensures
        wait_model(seen, 0) == (WaitReply::RequestTimeout, MAX_POLLS as nat),
{
    lemma_wait_runs_out_from(seen, 0);
}

/// From check `k` on, a wait whose session is pending until check `j`,
/// where it has timed out or vanished, ends at check `j` as unprocessable.
proof fn lemma_wait_sees_timeout_from(seen: Seq<Option<SessionData>>, j: nat, k: nat)
    requires
        k <= j < MAX_POLLS,
        forall|i: nat|
            i < j ==> (#[trigger] seen_at(seen, i)) is Some && seen_at(seen, i)->Some_0.state
                == StateKind::Pending,
        match seen_at(seen, j) {
            Some(s) => s.state == StateKind::Timeout,
            None => true,
        },
    ensures
        wait_model(seen, k) == (WaitReply::Unprocessable, j),
    decreases j - k,
{
    if k < j {
        assert(seen_at(seen, k) is Some);
        lemma_wait_sees_timeout_from(seen, j, k + 1);
    }
}

/// A wait whose session times out (or vanishes) at check `j`, before the
/// budget runs out, ends at that check as unprocessable.
pub proof fn lemma_wait_sees_timeout(seen: Seq<Option<SessionData>>, j: nat)
    requires
        j < MAX_POLLS,
        forall|i: nat|
            i < j ==> (#[trigger] seen_at(seen, i)) is Some && seen_at(seen, i)->Some_0.state
                == StateKind::Pending,
        match seen_at(seen, j) {
            Some(s) => s.state == StateKind::Timeout,
            None => true,
        },
    ensures
        wait_model(seen, 0) == (WaitReply::Unprocessable, j),
{
    lemma_wait_sees_timeout_from(seen, j, 0);
}

/// A producer that arrives while the waiter's session `id` is pending
/// writes into that session, and the waiter's next check delivers the
/// producer's message.
pub proof fn lemma_delivery_reaches_waiter(
    m: TrackerModel,
    path: Seq<char>,
    now: u64,
    id: u128,
    producer_id: u128,
    message: String,
    k: nat,
)
    requires
        pending_model(m, path, now) == Some(id),
        resolves_to(m, path, now, producer_id),
        k < MAX_POLLS,
    ensures
        producer_id == id,
        poll_model(
            session_model(
                finalize_model(resolved_model(m, path, now, producer_id), producer_id, message),
                id,
            ),
            k,
        ) == PollStep::Finish(WaitReply::Message(message)),
{
}

/// From check `k` on, a wait ends by the last check, whatever it sees.
proof fn lemma_wait_bounded_from(seen: Seq<Option<SessionData>>, k: nat)
    requires
        k <= MAX_POLLS,
    ensures
        k <= wait_model(seen, k).1 <= MAX_POLLS,
    decreases MAX_POLLS - k,
{
    if k < MAX_POLLS {
        lemma_wait_bounded_from(seen, k + 1);
    }
}

/// Every wait ends, whatever its checks see, after at most the maximum
/// number of checks.
pub proof fn lemma_wait_ends_within_budget(seen: Seq<Option<SessionData>>)
    ensures
        wait_model(seen, 0).1 <= MAX_POLLS,
{
    lemma_wait_bounded_from(seen, 0);
}

} // verus!
