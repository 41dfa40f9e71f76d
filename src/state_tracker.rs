use std::collections::HashMap;
use std::collections::VecDeque;
use vstd::prelude::*;

verus! {

broadcast use vstd::std_specs::hash::group_hash_axioms;

/// Age in seconds after which a pending session is marked timed out.
pub const PENDING_TIMEOUT: u64 = 30;

/// Age in seconds after which a session is evicted from the store.
pub const DEAD_TIMEOUT: u64 = 90;

/// Room kept above the first candidate of a new session id, so that
/// counting up past every stored or bound id cannot overflow.
pub const PROBE_ROOM: u128 = 0x4_0000_0000_0000_0000;

/// Most expiry-queue entries that one sweep examines.
pub const SWEEP_BATCH: u64 = 5;

/// State of a rendezvous session.
#[derive(Clone, Copy, PartialEq, Eq, Debug, Structural)]
pub enum StateKind {
    Pending,
    Done,
    Timeout,
}

/// A session record: its state, the delivered message, and the time
/// (in whole seconds on the tracker's clock) at which it was created.
#[derive(Clone, Debug)]
pub struct SessionData {
    pub state: StateKind,
    pub message: Option<String>,
    pub created_at: u64,
}

impl SessionData {
    /// A copy of the record.
    pub fn snapshot(&self) -> (r: SessionData)
        ensures
            r == *self,
    {
        let message = match &self.message {
            Some(m) => Some(m.clone()),
            None => None,
        };
        SessionData { state: self.state, message, created_at: self.created_at }
    }
}

/// The record a fresh session starts with.
pub open spec fn fresh_session(now: u64) -> SessionData {
    SessionData { state: StateKind::Pending, message: None, created_at: now }
}

/// The same record with another state.
pub open spec fn with_state(s: SessionData, state: StateKind) -> SessionData {
    SessionData { state, message: s.message, created_at: s.created_at }
}

/// The abstract state of a tracker.
pub struct TrackerModel {
    /// Path registry: the session most recently created for each path.
    pub bindings: Map<Seq<char>, u128>,
    /// Session store.
    pub store: Map<u128, SessionData>,
    /// Expiry queue, oldest first.
    pub queue: Seq<u128>,
    pub pending_timeout: u64,
    pub dead_timeout: u64,
}

/// Age of a session at time `now`.
pub open spec fn age(s: SessionData, now: u64) -> int {
    now - s.created_at
}

/// One bounded sweep over the front of the expiry queue, with `fuel`
/// iterations left: the resulting model and the number of evictions.
pub open spec fn sweep_model(m: TrackerModel, now: u64, fuel: nat) -> (TrackerModel, nat)
    decreases fuel,
{
    if fuel == 0 || m.queue.len() == 0 || !m.store.contains_key(m.queue[0]) {
        (m, 0)
    } else {
        let id = m.queue[0];
        let s = m.store[id];
        if age(s, now) < m.pending_timeout {
            (m, 0)
        } else if age(s, now) < m.dead_timeout && s.state == StateKind::Pending {
            sweep_model(
                TrackerModel { store: m.store.insert(id, with_state(s, StateKind::Timeout)), ..m },
                now,
                (fuel - 1) as nat,
            )
        } else if age(s, now) >= m.dead_timeout {
            let r = sweep_model(
                TrackerModel { store: m.store.remove(id), queue: m.queue.drop_first(), ..m },
                now,
                (fuel - 1) as nat,
            );
            (r.0, r.1 + 1)
        } else {
            sweep_model(m, now, (fuel - 1) as nat)
        }
    }
}

/// The sweep that runs before each session creation.
pub open spec fn swept(m: TrackerModel, now: u64) -> TrackerModel {
    sweep_model(m, now, SWEEP_BATCH as nat).0
}

/// Creation of session `id` for `path` at `now`: a sweep, then the new
/// pending record, the path binding and the queue entry.
pub open spec fn create_model(m: TrackerModel, path: Seq<char>, id: u128, now: u64) -> TrackerModel {
    let s = swept(m, now);
    TrackerModel {
        bindings: s.bindings.insert(path, id),
        store: s.store.insert(id, fresh_session(now)),
        queue: s.queue.push(id),
        ..s
    }
}

/// The session bound to `path`, if it is still stored, within the pending
/// window and in state `Pending`.
pub open spec fn pending_model(m: TrackerModel, path: Seq<char>, now: u64) -> Option<u128> {
    if m.bindings.contains_key(path) && m.store.contains_key(m.bindings[path]) && age(
        m.store[m.bindings[path]],
        now,
    ) <= m.pending_timeout && m.store[m.bindings[path]].state == StateKind::Pending {
        Some(m.bindings[path])
    } else {
        None
    }
}

/// No path is bound to `id`.
pub open spec fn unbound(m: TrackerModel, id: u128) -> bool {
    forall|p: Seq<char>| #[trigger] m.bindings.contains_key(p) ==> m.bindings[p] != id
}

/// `id` names no stored session and no path binding.
pub open spec fn id_unused(m: TrackerModel, id: u128) -> bool {
    !m.store.contains_key(id) && unbound(m, id)
}

/// Whether resolving `path` at `now` may give `id`: the pending session
/// of the path when there is one, else any id that names no stored session
/// and no binding.
pub open spec fn resolves_to(m: TrackerModel, path: Seq<char>, now: u64, id: u128) -> bool {
    match pending_model(m, path, now) {
        Some(p) => id == p,
        None => id_unused(m, id),
    }
}

/// The model after resolving `path` at `now` to `id`: unchanged when a
/// pending session exists, else with the new session `id`.
pub open spec fn resolved_model(m: TrackerModel, path: Seq<char>, now: u64, id: u128) -> TrackerModel {
    match pending_model(m, path, now) {
        Some(_) => m,
        None => create_model(m, path, id, now),
    }
}

/// The stored record of `id`, if any.
pub open spec fn session_model(m: TrackerModel, id: u128) -> Option<SessionData> {
    if m.store.contains_key(id) {
        Some(m.store[id])
    } else {
        None
    }
}

/// Finalization of `id` with `message`: `Done` with the message if the
/// session is stored, no change otherwise.
pub open spec fn finalize_model(m: TrackerModel, id: u128, message: String) -> TrackerModel {
    if m.store.contains_key(id) {
        TrackerModel {
            store: m.store.insert(
                id,
                SessionData {
                    state: StateKind::Done,
                    message: Some(message),
                    created_at: m.store[id].created_at,
                },
            ),
            ..m
        }
    } else {
        m
    }
}

/// Session store, path registry and expiry queue of the broker.
pub struct SessionTracker {
    paths: Vec<(String, u128)>,
    bound: Ghost<Map<Seq<char>, u128>>,
    states: HashMap<u128, SessionData>,
    queue: VecDeque<u128>,
    pending_timeout: u64,
    dead_timeout: u64,
    latest: u64,
}

impl View for SessionTracker {
    type V = TrackerModel;

    closed spec fn view(&self) -> TrackerModel {
        TrackerModel {
            bindings: self.bound@,
            store: self.states@,
            queue: self.queue@,
            pending_timeout: self.pending_timeout,
            dead_timeout: self.dead_timeout,
        }
    }
}

impl SessionTracker {
    /// The latest time at which the tracker was used.
    pub closed spec fn clock(&self) -> u64 {
        self.latest
    }

    /// Internal consistency of the tracker.
    pub closed spec fn wf(&self) -> bool {
        &&& registry_wf(self.paths@, self.bound@)
        &&& model_wf(self@)
        &&& created_before(self@.store, self.latest)
    }
}

/// The path list holds each path once, and the ghost map mirrors it.
spec fn registry_wf(paths: Seq<(String, u128)>, bound: Map<Seq<char>, u128>) -> bool {
    &&& forall|i: int|
        0 <= i < paths.len() ==> #[trigger] bound.contains_key(paths[i].0@) && bound[paths[i].0@]
            == paths[i].1
    &&& forall|p: Seq<char>|
        #[trigger] bound.contains_key(p) ==> exists|i: int|
            0 <= i < paths.len() && #[trigger] paths[i].0@ == p
    &&& forall|i: int, j: int| 0 <= i < j < paths.len() ==> paths[i].0@ != paths[j].0@
}

/// Every stored session was created no later than `latest`.
pub open spec fn created_before(store: Map<u128, SessionData>, latest: u64) -> bool {
    forall|k: u128| #[trigger] store.contains_key(k) ==> store[k].created_at <= latest
}

/// Consistency of a tracker model: the queue lists each stored session
/// once, oldest first, and the timeouts are ordered.
pub open spec fn model_wf(m: TrackerModel) -> bool {
    &&& m.queue.no_duplicates()
    &&& forall|i: int| 0 <= i < m.queue.len() ==> #[trigger] m.store.contains_key(m.queue[i])
    &&& forall|k: u128| #[trigger] m.store.contains_key(k) ==> m.queue.contains(k)
    &&& forall|i: int, j: int|
        0 <= i < j < m.queue.len() ==> (#[trigger] m.store[m.queue[i]]).created_at <= (
        #[trigger] m.store[m.queue[j]]).created_at
    &&& 0 < m.pending_timeout < m.dead_timeout
}

impl SessionTracker {
    /// An empty tracker with the default timeouts.
    pub fn new() -> (r: SessionTracker)
        ensures
            r.wf(),
            model_wf(r@),
            r@.bindings.is_empty(),
            r@.store.is_empty(),
            r@.queue.len() == 0,
            r@.pending_timeout == PENDING_TIMEOUT,
            r@.dead_timeout == DEAD_TIMEOUT,
            r.clock() == 0,
    {
        SessionTracker::with_timeouts(PENDING_TIMEOUT, DEAD_TIMEOUT)
    }

    /// An empty tracker with the given timeouts, in seconds.
    pub fn with_timeouts(pending_timeout: u64, dead_timeout: u64) -> (r: SessionTracker)
        requires
            0 < pending_timeout < dead_timeout,
        ensures
            r.wf(),
            model_wf(r@),
            r@.bindings.is_empty(),
            r@.store.is_empty(),
            r@.queue.len() == 0,
            r@.pending_timeout == pending_timeout,
            r@.dead_timeout == dead_timeout,
            r.clock() == 0,
    {
        let r = SessionTracker {
            paths: Vec::new(),
            bound: Ghost(Map::empty()),
            states: HashMap::new(),
            queue: VecDeque::new(),
            pending_timeout,
            dead_timeout,
            latest: 0,
        };
        assert(r@.store =~= Map::empty());
        r
    }

    /// The latest time at which the tracker was used.
    pub fn latest_time(&self) -> (r: u64)
        ensures
            r == self.clock(),
    {
        self.latest
    }

    /// Number of stored sessions.
    pub fn session_count(&self) -> (r: usize)
        ensures
            r == self@.store.len(),
    {
        self.states.len()
    }

    /// One bounded sweep over the front of the expiry queue at time `now`:
    /// stale pending sessions become `Timeout`, dead ones are evicted.
    /// Returns the number of evicted sessions.
    pub fn check_expired_sessions(&mut self, now: u64) -> (count: u64)
        requires
            old(self).wf(),
            now >= old(self).clock(),
        ensures
            final(self).wf(),
            model_wf(final(self)@),
            (final(self)@, count as nat) == sweep_model(old(self)@, now, SWEEP_BATCH as nat),
            final(self).clock() == old(self).clock(),
    {
        let ghost start = self@;
        let mut counter: u64 = 0;
        let mut i: u64 = 0;
        while i < SWEEP_BATCH
            invariant
                self.wf(),
                self.paths == old(self).paths,
                self.bound == old(self).bound,
                now >= self.clock(),
                self.clock() == old(self).clock(),
                self@.bindings == start.bindings,
                self@.pending_timeout == start.pending_timeout,
                self@.dead_timeout == start.dead_timeout,
                i <= SWEEP_BATCH,
                counter <= i,
                sweep_model(start, now, SWEEP_BATCH as nat) == ({
                    let r = sweep_model(self@, now, (SWEEP_BATCH - i) as nat);
                    (r.0, (r.1 + counter) as nat)
                }),
            ensures
                self.wf(),
                self.clock() == old(self).clock(),
                sweep_model(start, now, SWEEP_BATCH as nat) == (self@, counter as nat),
            decreases SWEEP_BATCH - i,
        {
            if self.queue.len() == 0 {
                assert(sweep_model(self@, now, (SWEEP_BATCH - i) as nat) == (self@, 0nat));
                break;
            }
            let uid = self.queue[0];
            let (created_at, state) = match self.states.get(&uid) {
                Some(s) => (s.created_at, s.state),
                None => {
                    assert(sweep_model(self@, now, (SWEEP_BATCH - i) as nat) == (self@, 0nat));
                    break;
                },
            };
            let duration = now - created_at;
            if duration < self.pending_timeout {
                assert(sweep_model(self@, now, (SWEEP_BATCH - i) as nat) == (self@, 0nat));
                break;
            } else if duration < self.dead_timeout && state == StateKind::Pending {
                let ghost before = self@;
                if let Some(mut session) = self.states.remove(&uid) {
                    session.state = StateKind::Timeout;
                    self.states.insert(uid, session);
                }
                assert(self@.store =~= before.store.insert(
                    uid,
                    with_state(before.store[uid], StateKind::Timeout),
                ));
                proof {
                    lemma_retime_front_wf(before, StateKind::Timeout);
                    assert forall|k: u128| #[trigger]
                        self@.store.contains_key(k) implies self@.store[k].created_at
                        <= self.latest by {
                        assert(before.store.contains_key(k));
                    }
                }
            } else if duration >= self.dead_timeout {
                let ghost before = self@;
                let _ = self.queue.pop_front();
                let _ = self.states.remove(&uid);
                counter = counter + 1;
                assert(self@.queue =~= before.queue.drop_first());
                proof {
                    lemma_evict_front_wf(before);
                    assert forall|k: u128| #[trigger]
                        self@.store.contains_key(k) implies self@.store[k].created_at
                        <= self.latest by {
                        assert(before.store.contains_key(k));
                    }
                }
            }
            i = i + 1;
        }
        counter
    }
}

impl SessionTracker {
    /// Index of the registry entry for `path`.
    fn find_path(&self, path: &String) -> (r: Option<usize>)
        requires
            self.wf(),
        ensures
            match r {
                Some(i) => i < self.paths@.len() && self.paths@[i as int].0@ == path@,
                None => !self@.bindings.contains_key(path@),
            },
    {
        let mut i: usize = 0;
        while i < self.paths.len()
            invariant
                i <= self.paths@.len(),
                forall|j: int| 0 <= j < i ==> self.paths@[j].0@ != path@,
            decreases self.paths@.len() - i,
        {
            if self.paths[i].0 == *path {
                return Some(i);
            }
            i = i + 1;
        }
        None
    }

    /// Binds `path` to `id`, replacing any earlier binding of the path.
    fn bind_path(&mut self, path: &String, id: u128)
        requires
            old(self).wf(),
        ensures
            final(self).wf(),
            final(self)@ == (TrackerModel { bindings: old(self)@.bindings.insert(path@, id), ..old(self)@ }),
            final(self).clock() == old(self).clock(),
    {
        let ghost b = self.bound@;
        let ghost mut idx: int = 0;
        match self.find_path(path) {
            Some(i) => {
                self.paths.set(i, (path.clone(), id));
                proof {
                    idx = i as int;
                }
            },
            None => {
                self.paths.push((path.clone(), id));
                proof {
                    idx = self.paths@.len() - 1;
                }
            },
        }
        assert(0 <= idx < self.paths@.len() && self.paths@[idx].0@ == path@);
        self.bound = Ghost(b.insert(path@, id));
        assert(self@.bindings =~= b.insert(path@, id));
        assert forall|p: Seq<char>| #[trigger] self.bound@.contains_key(p) implies exists|i: int|
            0 <= i < self.paths@.len() && #[trigger] self.paths@[i].0@ == p by {
            if p != path@ {
                let i = choose|i: int| 0 <= i < old(self).paths@.len() && old(self).paths@[i].0@ == p;
                assert(self.paths@[i].0@ == p);
            } else {
                assert(self.paths@[idx].0@ == p);
            }
        }
    }

    /// Whether some path is bound to `id`.
    fn bound_to(&self, id: u128) -> (r: bool)
        requires
            self.wf(),
        ensures
            r == !unbound(self@, id),
    {
        let mut i: usize = 0;
        while i < self.paths.len()
            invariant
                self.wf(),
                i <= self.paths@.len(),
                forall|j: int| 0 <= j < i ==> self.paths@[j].1 != id,
            decreases self.paths@.len() - i,
        {
            if self.paths[i].1 == id {
                assert(self.bound@.contains_key(self.paths@[i as int].0@));
                assert(self@.bindings[self.paths@[i as int].0@] == id);
                return true;
            }
            i = i + 1;
        }
        assert forall|p: Seq<char>| #[trigger] self@.bindings.contains_key(p) implies self@.bindings[p]
            != id by {
            let j = choose|j: int| 0 <= j < self.paths@.len() && #[trigger] self.paths@[j].0@ == p;
            assert(self.bound@.contains_key(self.paths@[j].0@));
        }
        false
    }

    /// A session id that is neither stored nor bound to a path: `drawn`,
    /// or the first such value counting up from it (from a lower start
    /// where counting up could overflow).
    fn fresh_id(&self, drawn: u128) -> (id: u128)
        requires
            self.wf(),
        ensures
            id_unused(self@, id),
    {
        let n: u128 = self.queue.len() as u128 + self.paths.len() as u128;
        let base: u128 = if drawn <= u128::MAX - PROBE_ROOM {
            drawn
        } else {
            u128::MAX - PROBE_ROOM
        };
        let ghost stored = self@.queue.to_set();
        let ghost named = self.paths@.map_values(|e: (String, u128)| e.1).to_set();
        let ghost keys = stored.union(named);
        proof {
            self@.queue.lemma_cardinality_of_set();
            self.paths@.map_values(|e: (String, u128)| e.1).lemma_cardinality_of_set();
            vstd::set_lib::lemma_len_union(stored, named);
            assert(self@.store.dom().subset_of(stored));
        }
        let mut c: u128 = base;
        let mut k: u128 = 0;
        let ghost mut tried: Set<u128> = Set::empty();
        while self.states.contains_key(&c) || self.bound_to(c)
            invariant
                self.wf(),
                keys == self@.queue.to_set().union(
                    self.paths@.map_values(|e: (String, u128)| e.1).to_set(),
                ),
                keys.finite(),
                keys.len() <= n,
                n == self@.queue.len() + self.paths@.len(),
                self@.store.dom().subset_of(keys),
                k <= n,
                c == base + k,
                base + n <= u128::MAX,
                tried.finite(),
                tried.len() == k,
                forall|x: u128| #[trigger] tried.contains(x) ==> keys.contains(x) && x < c,
            decreases n - k,
        {
            proof {
                if !self@.store.contains_key(c) {
                    let p = choose|p: Seq<char>| self@.bindings.contains_key(p) && self@.bindings[p] == c;
                    let j = choose|j: int| 0 <= j < self.paths@.len() && #[trigger] self.paths@[j].0@ == p;
                    assert(self.bound@.contains_key(self.paths@[j].0@));
                    assert(self.paths@.map_values(|e: (String, u128)| e.1)[j] == c);
                }
                let t2 = tried.insert(c);
                assert(t2.subset_of(keys));
                vstd::set_lib::lemma_len_subset(t2, keys);
                tried = t2;
            }
            c = c + 1;
            k = k + 1;
        }
        c
    }
}

/// Relies on uuid::Uuid::new_v4: a random version-4 UUID, as its 128-bit value.
#[verifier::external_body]
fn draw_session_id() -> (r: u128) {
    uuid::Uuid::new_v4().as_u128()
}

impl SessionTracker {
    /// Sweeps, then creates a new pending session for `path` at `now`,
    /// binds the path to it and queues it for expiry.
    pub fn create_pending_session(&mut self, path: &String, now: u64) -> (id: u128)
        requires
            old(self).wf(),
            now >= old(self).clock(),
        ensures
            final(self).wf(),
            model_wf(final(self)@),
            id_unused(old(self)@, id),
            final(self)@ == create_model(old(self)@, path@, id, now),
            final(self).clock() == now,
    {
        let drawn = draw_session_id();
        let id = self.fresh_id(drawn);
        let ghost start = self@;
        let _ = self.check_expired_sessions(now);
        proof {
            lemma_sweep_frame(start, now, SWEEP_BATCH as nat);
        }
        self.bind_path(path, id);
        let ghost before = self@;
        self.states.insert(id, SessionData { state: StateKind::Pending, message: None, created_at: now });
        self.queue.push_back(id);
        self.latest = now;
        proof {
            lemma_push_fresh_wf(before, id, now);
            assert forall|k: u128| #[trigger] self@.store.contains_key(k) implies self@.store[k].created_at
                <= self.latest by {
                if k != id {
                    assert(before.store.contains_key(k));
                }
            }
        }
        id
    }

    /// The session bound to `path` if it is stored, at most the pending
    /// timeout old, and still `Pending`.
    pub fn get_pending_session(&self, path: &String, now: u64) -> (r: Option<u128>)
        requires
            self.wf(),
            now >= self.clock(),
        ensures
            r == pending_model(self@, path@, now),
    {
        let i = match self.find_path(path) {
            Some(i) => i,
            None => {
                return None;
            },
        };
        let uid = self.paths[i].1;
        let session = match self.states.get(&uid) {
            Some(s) => s,
            None => {
                return None;
            },
        };
        let duration = now - session.created_at;
        if duration > self.pending_timeout {
            return None;
        }
        match session.state {
            StateKind::Pending => Some(uid),
            _ => None,
        }
    }

    /// The pending session for `path`, or a new one when there is none.
    pub fn fetch_session_id(&mut self, path: &String, now: u64) -> (id: u128)
        requires
            old(self).wf(),
            now >= old(self).clock(),
        ensures
            final(self).wf(),
            model_wf(final(self)@),
            final(self).clock() >= old(self).clock(),
            now >= final(self).clock(),
            resolves_to(old(self)@, path@, now, id),
            final(self)@ == resolved_model(old(self)@, path@, now, id),
    {
        match self.get_pending_session(path, now) {
            Some(uid) => uid,
            None => self.create_pending_session(path, now),
        }
    }

    /// Marks session `uid` `Done` with `message`; no effect when the
    /// session is not stored.
    pub fn finalize_session(&mut self, uid: &u128, message: &String)
        requires
            old(self).wf(),
        ensures
            final(self).wf(),
            model_wf(final(self)@),
            final(self)@ == finalize_model(old(self)@, *uid, *message),
            final(self).clock() == old(self).clock(),
    {
        let ghost before = self@;
        if let Some(mut session) = self.states.remove(uid) {
            session.state = StateKind::Done;
            session.message = Some(message.clone());
            self.states.insert(*uid, session);
            assert(self@.store =~= finalize_model(before, *uid, *message).store);
            proof {
                lemma_finalize_wf(before, *uid, *message);
                assert forall|k: u128| #[trigger] self@.store.contains_key(k) implies self@.store[k].created_at
                    <= self.latest by {
                    assert(before.store.contains_key(k));
                }
            }
        } else {
            assert(self@.store =~= before.store);
        }
    }

    /// A copy of the record of session `uid`, if it is stored.
    pub fn get_session(&self, uid: &u128) -> (r: Option<SessionData>)
        requires
            self.wf(),
        ensures
            r == session_model(self@, *uid),
    {
        match self.states.get(uid) {
            Some(s) => Some(s.snapshot()),
            None => None,
        }
    }
}

/// Adding a fresh session at the back of the queue keeps the model
/// consistent.
proof fn lemma_push_fresh_wf(m: TrackerModel, id: u128, now: u64)
    requires
        model_wf(m),
        !m.store.contains_key(id),
        created_before(m.store, now),
    ensures
        model_wf(
            TrackerModel {
                store: m.store.insert(id, fresh_session(now)),
                queue: m.queue.push(id),
                ..m
            },
        ),
{
    let n = TrackerModel { store: m.store.insert(id, fresh_session(now)), queue: m.queue.push(id), ..m };
    assert(!m.queue.contains(id));
    assert forall|k: u128| #[trigger] n.store.contains_key(k) implies n.queue.contains(k) by {
        if k != id {
            assert(m.queue.contains(k));
            let i = choose|i: int| 0 <= i < m.queue.len() && m.queue[i] == k;
            assert(n.queue[i] == k);
        } else {
            assert(n.queue[m.queue.len() as int] == id);
        }
    }
    assert forall|i: int| 0 <= i < n.queue.len() implies #[trigger] n.store.contains_key(n.queue[i]) by {
        if i < m.queue.len() {
            assert(m.store.contains_key(m.queue[i]));
        }
    }
    assert forall|i: int, j: int| 0 <= i < j < n.queue.len() implies (#[trigger] n.store[n.queue[i]]).created_at
        <= (#[trigger] n.store[n.queue[j]]).created_at by {
        assert(m.store.contains_key(m.queue[i]));
        if j < m.queue.len() {
            assert(m.store.contains_key(m.queue[j]));
            assert(m.store[m.queue[i]].created_at <= m.store[m.queue[j]].created_at);
        }
    }
}

/// Finalizing a stored session keeps the model consistent.
proof fn lemma_finalize_wf(m: TrackerModel, id: u128, message: String)
    requires
        model_wf(m),
        m.store.contains_key(id),
    ensures
        model_wf(finalize_model(m, id, message)),
{
    let n = finalize_model(m, id, message);
    assert forall|i: int, j: int| 0 <= i < j < n.queue.len() implies (#[trigger] n.store[n.queue[i]]).created_at
        <= (#[trigger] n.store[n.queue[j]]).created_at by {
        assert(m.store.contains_key(m.queue[i]));
        assert(m.store.contains_key(m.queue[j]));
        assert(m.store[m.queue[i]].created_at <= m.store[m.queue[j]].created_at);
    }
}

/// A sweep keeps the bindings and the timeouts, and only removes sessions
/// or changes their state.
pub proof fn lemma_sweep_frame(m: TrackerModel, now: u64, fuel: nat)
    ensures
        sweep_model(m, now, fuel).0.bindings == m.bindings,
        sweep_model(m, now, fuel).0.pending_timeout == m.pending_timeout,
        sweep_model(m, now, fuel).0.dead_timeout == m.dead_timeout,
        sweep_model(m, now, fuel).0.store.dom().subset_of(m.store.dom()),
        forall|x: u128| #[trigger]
            sweep_model(m, now, fuel).0.store.contains_key(x) ==> sweep_model(
                m,
                now,
                fuel,
            ).0.store[x].created_at == m.store[x].created_at,
    decreases fuel,
{
    if fuel == 0 || m.queue.len() == 0 || !m.store.contains_key(m.queue[0]) {
    } else {
        let id = m.queue[0];
        let s = m.store[id];
        let f = (fuel - 1) as nat;
        if age(s, now) < m.pending_timeout {
        } else if age(s, now) < m.dead_timeout && s.state == StateKind::Pending {
            lemma_sweep_frame(
                TrackerModel { store: m.store.insert(id, with_state(s, StateKind::Timeout)), ..m },
                now,
                f,
            );
        } else if age(s, now) >= m.dead_timeout {
            lemma_sweep_frame(
                TrackerModel { store: m.store.remove(id), queue: m.queue.drop_first(), ..m },
                now,
                f,
            );
        } else {
            lemma_sweep_frame(m, now, f);
        }
    }
}

/// Two creations in a row for the same path give two distinct session
/// ids, and the path then
/// resolves to the second one.
pub proof fn lemma_create_twice(m: TrackerModel, path: Seq<char>, id1: u128, id2: u128, now: u64)
    requires
        id_unused(m, id1),
        id_unused(create_model(m, path, id1, now), id2),
    ensures
        id1 != id2,
        pending_model(create_model(create_model(m, path, id1, now), path, id2, now), path, now)
            == Some(id2),
{
    let m1 = create_model(m, path, id1, now);
    lemma_sweep_frame(m, now, SWEEP_BATCH as nat);
    lemma_sweep_frame(m1, now, SWEEP_BATCH as nat);
    assert(m1.store.contains_key(id1));
}

/// A sweep that finds a timed-out, not yet dead session at the front of
/// the queue leaves everything as it is.
proof fn lemma_sweep_stuck(m: TrackerModel, now: u64, fuel: nat)
    requires
        m.queue.len() > 0,
        m.store.contains_key(m.queue[0]),
        m.store[m.queue[0]].state == StateKind::Timeout,
        m.pending_timeout <= age(m.store[m.queue[0]], now) < m.dead_timeout,
    ensures
        sweep_model(m, now, fuel) == (m, 0nat),
    decreases fuel,
{
    if fuel > 0 {
        lemma_sweep_stuck(m, now, (fuel - 1) as nat);
    }
}

/// A pending session at the front of the queue whose age has reached the
/// pending timeout, but not the dead timeout, is `Timeout` after a sweep.
pub proof fn lemma_sweep_times_out_stale_front(m: TrackerModel, now: u64)
    requires
        model_wf(m),
        m.queue.len() > 0,
        m.store[m.queue[0]].state == StateKind::Pending,
        m.pending_timeout <= age(m.store[m.queue[0]], now) < m.dead_timeout,
    ensures
        session_model(swept(m, now), m.queue[0]) == Some(
            with_state(m.store[m.queue[0]], StateKind::Timeout),
        ),
{
    let id = m.queue[0];
    assert(m.store.contains_key(id));
    let m2 = TrackerModel { store: m.store.insert(id, with_state(m.store[id], StateKind::Timeout)), ..m };
    lemma_sweep_stuck(m2, now, (SWEEP_BATCH - 1) as nat);
}

/// A session at the front of the queue whose age has reached the dead
/// timeout is gone after a sweep: no lookup by id or by path finds it.
pub proof fn lemma_sweep_evicts_dead_front(m: TrackerModel, now: u64)
    requires
        model_wf(m),
        m.queue.len() > 0,
        age(m.store[m.queue[0]], now) >= m.dead_timeout,
    ensures
        session_model(swept(m, now), m.queue[0]) == None::<SessionData>,
        forall|p: Seq<char>| pending_model(swept(m, now), p, now) != Some(m.queue[0]),
{
    let id = m.queue[0];
    assert(m.store.contains_key(id));
    let m2 = TrackerModel { store: m.store.remove(id), queue: m.queue.drop_first(), ..m };
    lemma_sweep_frame(m2, now, (SWEEP_BATCH - 1) as nat);
    assert(!swept(m, now).store.contains_key(id));
}

/// Finalizing a session twice is the same as finalizing it once with the
/// second message: the session is `Done` with that message.
pub proof fn lemma_finalize_twice(m: TrackerModel, id: u128, first: String, second: String)
    ensures
        finalize_model(finalize_model(m, id, first), id, second) == finalize_model(m, id, second),
        m.store.contains_key(id) ==> session_model(
            finalize_model(finalize_model(m, id, first), id, second),
            id,
        ) == Some(
            SessionData {
                state: StateKind::Done,
                message: Some(second),
                created_at: m.store[id].created_at,
            },
        ),
{
    if m.store.contains_key(id) {
        assert(finalize_model(finalize_model(m, id, first), id, second).store =~= finalize_model(
            m,
            id,
            second,
        ).store);
    }
}

/// Changing the state of the front session keeps the model consistent.
proof fn lemma_retime_front_wf(m: TrackerModel, state: StateKind)
    requires
        model_wf(m),
        m.queue.len() > 0,
    ensures
        model_wf(
            TrackerModel {
                store: m.store.insert(m.queue[0], with_state(m.store[m.queue[0]], state)),
                ..m
            },
        ),
{
    let id = m.queue[0];
    assert(m.store.contains_key(id));
    let n = TrackerModel { store: m.store.insert(id, with_state(m.store[id], state)), ..m };
    assert forall|i: int, j: int| 0 <= i < j < n.queue.len() implies (#[trigger] n.store[n.queue[i]]).created_at
        <= (#[trigger] n.store[n.queue[j]]).created_at by {
        assert(m.store.contains_key(m.queue[i]));
        assert(m.store.contains_key(m.queue[j]));
        assert(m.store[m.queue[i]].created_at <= m.store[m.queue[j]].created_at);
    }
}

/// Evicting the front session keeps the model consistent.
proof fn lemma_evict_front_wf(m: TrackerModel)
    requires
        model_wf(m),
        m.queue.len() > 0,
    ensures
        model_wf(TrackerModel { store: m.store.remove(m.queue[0]), queue: m.queue.drop_first(), ..m }),
{
    let id = m.queue[0];
    let n = TrackerModel { store: m.store.remove(id), queue: m.queue.drop_first(), ..m };
    assert forall|k: u128| #[trigger] n.store.contains_key(k) implies n.queue.contains(k) by {
        assert(m.queue.contains(k));
        let i = choose|i: int| 0 <= i < m.queue.len() && m.queue[i] == k;
        assert(i != 0);
        assert(n.queue[i - 1] == k);
    }
    assert forall|i: int| 0 <= i < n.queue.len() implies #[trigger] n.store.contains_key(n.queue[i]) by {
        assert(m.queue[i + 1] != m.queue[0]);
        assert(m.store.contains_key(m.queue[i + 1]));
    }
    assert forall|i: int, j: int| 0 <= i < j < n.queue.len() implies (#[trigger] n.store[n.queue[i]]).created_at
        <= (#[trigger] n.store[n.queue[j]]).created_at by {
        assert(m.queue[i + 1] != m.queue[0]);
        assert(m.queue[j + 1] != m.queue[0]);
        assert(m.store[m.queue[i + 1]].created_at <= m.store[m.queue[j + 1]].created_at);
    }
}

} // verus!
