//! Per-version runtime state: admission of new requests, request leases,
//! draining, forced cancellation, and the registry of all known versions.
//!
//! A version keeps its state and its active-request count in one packed word,
//! so that admitting a request and switching state read and write one value.
//! Cancellation of residual requests is tracked per activation cycle: a lease
//! remembers the cycle it was taken in and counts as cancelled once that cycle
//! has been cancelled.

use vstd::prelude::*;

use crate::error::HyperError;
use crate::request::RequestKind;
use crate::text::{lemma_seq_lt_irreflexive, lemma_seq_lt_total, lemma_seq_lt_transitive, seq_lt, text_lt};
use crate::version::{holds_id, id_set, initial_word, packed_requests, packed_state, unpack_requests, unpack_state, with_state, VersionId, VersionState, REQUEST_INCREMENT};

verus! {

/// Largest active-request count the packed word can hold.
pub open spec fn max_requests() -> nat {
    0xFF_FFFF_FFFF_FFFF
}

/// Counter increment that wraps around, as an atomic `fetch_add(1)` does.
pub open spec fn wrap_inc(x: u64) -> u64 {
    if x == u64::MAX {
        0
    } else {
        (x + 1) as u64
    }
}

/// Counter decrement that wraps around, as an atomic `fetch_sub(1)` does.
pub open spec fn wrap_dec(x: u64) -> u64 {
    if x == 0 {
        u64::MAX
    } else {
        (x - 1) as u64
    }
}

/// Abstract state of one version.
pub struct RuntimeView {
    /// Lifecycle state.
    pub state: VersionState,
    /// Active request leases.
    pub requests: nat,
    /// Active streaming connections.
    pub streams: u64,
    /// Request leases granted so far.
    pub total: u64,
    /// When draining started.
    pub drain_started_at: Option<u64>,
    /// Current activation cycle of the cancellation signal.
    pub cycle: u64,
    /// Whether the current cycle has been cancelled.
    pub cancelled: bool,
}

impl RuntimeView {
    /// A version that was just registered.
    pub open spec fn fresh() -> RuntimeView {
        RuntimeView {
            state: VersionState::Stopped,
            requests: 0,
            streams: 0,
            total: 0,
            drain_started_at: None,
            cycle: 0,
            cancelled: false,
        }
    }

    /// Whether a new lease would be granted.
    pub open spec fn admits(self) -> bool {
        self.state == VersionState::Active && self.requests < max_requests()
    }

    /// After granting a lease of `kind`.
    pub open spec fn leased(self, kind: RequestKind) -> RuntimeView {
        RuntimeView {
            requests: self.requests + 1,
            streams: if kind == RequestKind::Stream {
                wrap_inc(self.streams)
            } else {
                self.streams
            },
            total: wrap_inc(self.total),
            ..self
        }
    }

    /// After releasing a lease of `kind`.
    pub open spec fn released(self, kind: RequestKind) -> RuntimeView {
        RuntimeView {
            requests: (self.requests - 1) as nat,
            streams: if kind == RequestKind::Stream {
                wrap_dec(self.streams)
            } else {
                self.streams
            },
            ..self
        }
    }

    /// After a unary lease turned into a streaming one.
    pub open spec fn promoted(self) -> RuntimeView {
        RuntimeView { streams: wrap_inc(self.streams), ..self }
    }

    /// After activation: a cancelled cycle is replaced by a fresh one.
    pub open spec fn activated(self) -> RuntimeView {
        RuntimeView {
            state: VersionState::Active,
            drain_started_at: None,
            cycle: if self.cancelled {
                wrap_inc(self.cycle)
            } else {
                self.cycle
            },
            cancelled: false,
            ..self
        }
    }

    /// After entering draining at time `now`.
    pub open spec fn drained(self, now: u64) -> RuntimeView {
        RuntimeView { state: VersionState::Draining, drain_started_at: Some(now), ..self }
    }

    /// Whether the version may be stopped.
    pub open spec fn idle(self) -> bool {
        self.requests == 0 && self.streams == 0
    }

    /// After stopping an idle version.
    pub open spec fn stopped(self) -> RuntimeView {
        RuntimeView { state: VersionState::Stopped, drain_started_at: None, ..self }
    }

    /// After a forced close: only a draining version cancels its cycle.
    pub open spec fn force_closed(self) -> RuntimeView {
        if self.state == VersionState::Draining {
            RuntimeView { cancelled: true, ..self }
        } else {
            self
        }
    }
}

/// Runtime state of one deployed version.
pub struct VersionRuntime {
    /// Version identifier.
    pub id: VersionId,
    /// State code in the low byte, active-request count above it.
    state_and_requests: u64,
    /// Active streaming connections.
    active_streams: u64,
    /// Request leases granted so far.
    total_requests: u64,
    /// When draining started.
    drain_started_at: Option<u64>,
    /// Current cancellation cycle.
    cycle: u64,
    /// Whether the current cycle has been cancelled.
    cancelled: bool,
}

impl View for VersionRuntime {
    type V = RuntimeView;

    closed spec fn view(&self) -> RuntimeView {
        RuntimeView {
            state: packed_state(self.state_and_requests),
            requests: packed_requests(self.state_and_requests),
            streams: self.active_streams,
            total: self.total_requests,
            drain_started_at: self.drain_started_at,
            cycle: self.cycle,
            cancelled: self.cancelled,
        }
    }
}

/// A request's hold on a version; releasing it lowers the version's counters.
#[derive(Debug)]
pub struct VersionLease {
    /// The version the request is bound to.
    pub version: VersionId,
    /// How the request holds its connection.
    pub kind: RequestKind,
    /// Cancellation cycle the lease was taken in.
    pub cycle: u64,
}

impl VersionLease {
    /// Whether a version in state `v` has cancelled this lease's cycle.
    pub open spec fn cancelled_in(self, v: RuntimeView) -> bool {
        self.cycle != v.cycle || v.cancelled
    }
}

/// Point-in-time view of a version.
#[derive(Debug, Clone)]
pub struct VersionSnapshot {
    /// Version identifier.
    pub id: VersionId,
    /// Current state.
    pub state: VersionState,
    /// Active requests.
    pub active_requests: u64,
    /// Active streaming connections.
    pub active_streams: u64,
    /// Request leases granted so far.
    pub total_requests: u64,
    /// Seconds spent draining, if draining has started.
    pub drain_elapsed_secs: Option<u64>,
}

/// Elapsed seconds as `Instant::elapsed` reports them: never negative.
pub open spec fn elapsed(started: u64, now: u64) -> u64 {
    if now >= started {
        (now - started) as u64
    } else {
        0
    }
}

/// Whether a snapshot reports the version state `v` at time `now`.
pub open spec fn snapshot_of(s: VersionSnapshot, v: RuntimeView, now: u64) -> bool {
    &&& s.state == v.state
    &&& s.active_requests == v.requests
    &&& s.active_streams == v.streams
    &&& s.total_requests == v.total
    &&& s.drain_elapsed_secs == match v.drain_started_at {
        Some(t) => Some(elapsed(t, now)),
        None => None,
    }
}

fn wrapping_inc(x: u64) -> (y: u64)
    ensures
        y == wrap_inc(x),
{
    if x == u64::MAX {
        0
    } else {
        x + 1
    }
}

fn wrapping_dec(x: u64) -> (y: u64)
    ensures
        y == wrap_dec(x),
{
    if x == 0 {
        u64::MAX
    } else {
        x - 1
    }
}

impl VersionRuntime {
    /// The identifier as text.
    pub closed spec fn key(&self) -> Seq<char> {
        self.id@
    }

    /// A newly registered version: stopped, idle, in cycle zero.
    pub fn new(id: VersionId) -> (r: VersionRuntime)
        ensures
            r.key() == id@,
            r@ == RuntimeView::fresh(),
    {
        VersionRuntime {
            id,
            state_and_requests: initial_word(VersionState::Stopped),
            active_streams: 0,
            total_requests: 0,
            drain_started_at: None,
            cycle: 0,
            cancelled: false,
        }
    }

    /// Grants a request lease while the version is active.
    pub fn lease(&mut self, kind: RequestKind) -> (r: Result<VersionLease, HyperError>)
        ensures
            final(self).key() == old(self).key(),
            r is Ok <==> old(self)@.admits(),
            r matches Ok(l) ==> {
                &&& final(self)@ == old(self)@.leased(kind)
                &&& l.version@ == old(self).key()
                &&& l.kind == kind
                &&& l.cycle == old(self)@.cycle
            },
            r matches Err(e) ==> {
                &&& final(self)@ == old(self)@
                &&& e.message@ == if old(self)@.state != VersionState::Active {
                    "version does not accept new requests"@
                } else {
                    "version request counter overflow"@
                }
            },
    {
        let current = self.state_and_requests;
        if !unpack_state(current).accepts_new_requests() {
            return Err(HyperError::new("version does not accept new requests"));
        }
        let next = match current.checked_add(REQUEST_INCREMENT) {
            Some(n) => n,
            None => {
                assert(current / 256 >= max_requests());
                return Err(HyperError::new("version request counter overflow"));
            },
        };
        assert(next % 256 == current % 256 && next / 256 == current / 256 + 1);
        self.state_and_requests = next;
        if let RequestKind::Stream = kind {
            self.active_streams = wrapping_inc(self.active_streams);
        }
        self.total_requests = wrapping_inc(self.total_requests);
        Ok(VersionLease { version: self.id.clone(), kind, cycle: self.cycle })
    }

    /// Marks the version active; a cancelled cycle is replaced by a new one.
    pub fn activate(&mut self)
        ensures
            final(self).key() == old(self).key(),
            final(self)@ == old(self)@.activated(),
    {
        self.drain_started_at = None;
        if self.cancelled {
            self.cycle = wrapping_inc(self.cycle);
            self.cancelled = false;
        }
        self.state_and_requests = with_state(self.state_and_requests, VersionState::Active);
    }

    /// Moves the version to draining; existing leases stay valid.
    pub fn drain(&mut self, now: u64)
        ensures
            final(self).key() == old(self).key(),
            final(self)@ == old(self)@.drained(now),
    {
        self.drain_started_at = Some(now);
        self.state_and_requests = with_state(self.state_and_requests, VersionState::Draining);
    }

    /// Stops the version when it has no active requests or streams.
    pub fn stop_idle(&mut self) -> (r: Result<(), HyperError>)
        ensures
            final(self).key() == old(self).key(),
            r is Ok <==> old(self)@.idle(),
            r is Ok ==> final(self)@ == old(self)@.stopped(),
            r matches Err(e) ==> final(self)@ == old(self)@ && e.message@
                == "version still has active connections"@,
    {
        let current = self.state_and_requests;
        if unpack_requests(current) != 0 || self.active_streams != 0 {
            return Err(HyperError::new("version still has active connections"));
        }
        self.state_and_requests = with_state(current, VersionState::Stopped);
        self.drain_started_at = None;
        Ok(())
    }

    /// Releases the counters a lease of `kind` holds.
    pub fn release(&mut self, kind: RequestKind)
        requires
            old(self)@.requests > 0,
        ensures
            final(self).key() == old(self).key(),
            final(self)@ == old(self)@.released(kind),
    {
        if let RequestKind::Stream = kind {
            self.active_streams = wrapping_dec(self.active_streams);
        }
        let current = self.state_and_requests;
        assert(current >= 256);
        let next = current - REQUEST_INCREMENT;
        assert(next % 256 == current % 256 && next / 256 == current / 256 - 1);
        self.state_and_requests = next;
    }

    /// Counts an already granted request as a streaming connection.
    pub fn promote_stream(&mut self)
        ensures
            final(self).key() == old(self).key(),
            final(self)@ == old(self)@.promoted(),
    {
        self.active_streams = wrapping_inc(self.active_streams);
    }

    /// Cancels the current cycle's residual requests if the version is still draining.
    pub fn force_close_if_draining(&mut self)
        ensures
            final(self).key() == old(self).key(),
            final(self)@ == old(self)@.force_closed(),
    {
        if unpack_state(self.state_and_requests) == VersionState::Draining {
            self.cancelled = true;
        }
    }

    /// Whether the cancellation signal a lease carries has fired.
    pub fn lease_cancelled(&self, lease: &VersionLease) -> (r: bool)
        ensures
            r == lease.cancelled_in(self@),
    {
        lease.cycle != self.cycle || self.cancelled
    }

    /// A point-in-time snapshot at time `now`.
    pub fn snapshot(&self, now: u64) -> (s: VersionSnapshot)
        ensures
            s.id@ == self.key(),
            snapshot_of(s, self@, now),
    {
        let word = self.state_and_requests;
        let drain_elapsed_secs = match self.drain_started_at {
            Some(started) => Some(now.saturating_sub(started)),
            None => None,
        };
        VersionSnapshot {
            id: self.id.clone(),
            state: unpack_state(word),
            active_requests: unpack_requests(word),
            active_streams: self.active_streams,
            total_requests: self.total_requests,
            drain_elapsed_secs,
        }
    }
}

impl VersionLease {
    /// Turns a unary lease into a streaming one, counting it on its version.
    pub fn promote_stream(&mut self, runtime: &mut VersionRuntime)
        ensures
            final(self).version@ == old(self).version@,
            final(self).cycle == old(self).cycle,
            final(self).kind == RequestKind::Stream,
            final(runtime).key() == old(runtime).key(),
            final(runtime)@ == if old(self).kind == RequestKind::Stream {
                old(runtime)@
            } else {
                old(runtime)@.promoted()
            },
    {
        if let RequestKind::Stream = self.kind {
            return;
        }
        runtime.promote_stream();
        self.kind = RequestKind::Stream;
    }
}

// ---------------------------------------------------------------------------
// Laws of a version's lifecycle
// ---------------------------------------------------------------------------

/// Releasing a lease gives back the active-request and stream counts it
/// took; only the count of leases granted so far keeps it.
pub proof fn law_release_undoes_lease(v: RuntimeView, kind: RequestKind)
    ensures
        v.leased(kind).released(kind) == (RuntimeView { total: wrap_inc(v.total), ..v }),
{
}

/// Draining refuses new leases while every lease taken before it stays
/// valid, and the version can only stop once those leases are released.
pub proof fn law_draining_keeps_existing_leases(v: RuntimeView, lease: VersionLease, now: u64)
    requires
        !lease.cancelled_in(v),
    ensures
        !v.drained(now).admits(),
        !lease.cancelled_in(v.drained(now)),
        v.requests > 0 ==> !v.drained(now).idle(),
{
}

/// A forced close cancels exactly the draining cycle: leases taken before it
/// are cancelled, and after reactivation new leases are not, while the old
/// ones stay cancelled.
pub proof fn law_forced_drain_cancels_old_cycle_only(v: RuntimeView, old: VersionLease, next: VersionLease)
    requires
        v.state == VersionState::Draining,
        old.cycle == v.cycle,
        next.cycle == v.force_closed().activated().cycle,
    ensures
        old.cancelled_in(v.force_closed()),
        old.cancelled_in(v.force_closed().activated()),
        !next.cancelled_in(v.force_closed().activated()),
{
}

// ---------------------------------------------------------------------------
// Registry
// ---------------------------------------------------------------------------

/// Runtimes ordered strictly by identifier.
spec fn sorted_ids(s: Seq<VersionRuntime>) -> bool {
    forall|i: int, j: int| 0 <= i < j < s.len() ==> seq_lt(#[trigger] s[i].id@, #[trigger] s[j].id@)
}

/// Some runtime carries the identifier `k`.
spec fn has_id(s: Seq<VersionRuntime>, k: Seq<char>) -> bool {
    exists|i: int| 0 <= i < s.len() && #[trigger] s[i].id@ == k
}

/// Identifier-to-state map of a runtime sequence.
spec fn map_of(s: Seq<VersionRuntime>) -> Map<Seq<char>, RuntimeView> {
    Map::new(
        |k: Seq<char>| has_id(s, k),
        |k: Seq<char>| s[index_of(s, k)]@,
    )
}

/// Some position that carries the identifier `k`.
spec fn index_of(s: Seq<VersionRuntime>, k: Seq<char>) -> int {
    choose|i: int| 0 <= i < s.len() && #[trigger] s[i].id@ == k
}

/// In an ordered sequence an identifier occurs once.
proof fn lemma_sorted_unique(s: Seq<VersionRuntime>, i: int, j: int)
    requires
        sorted_ids(s),
        0 <= i < s.len(),
        0 <= j < s.len(),
        s[i].id@ == s[j].id@,
    ensures
        i == j,
{
    if i < j {
        lemma_seq_lt_irreflexive(s[i].id@);
    } else if j < i {
        lemma_seq_lt_irreflexive(s[i].id@);
    }
}

/// The map holds each runtime under its identifier.
proof fn lemma_map_of_at(s: Seq<VersionRuntime>, i: int)
    requires
        sorted_ids(s),
        0 <= i < s.len(),
    ensures
        map_of(s).contains_key(s[i].id@),
        map_of(s)[s[i].id@] == s[i]@,
{
    let k = s[i].id@;
    assert(has_id(s, k));
    let j = index_of(s, k);
    assert(0 <= j < s.len() && s[j].id@ == k);
    lemma_sorted_unique(s, i, j);
}

/// Replacing a runtime in place updates its entry.
proof fn lemma_map_of_update(s: Seq<VersionRuntime>, i: int, x: VersionRuntime)
    requires
        sorted_ids(s),
        0 <= i < s.len(),
        x.id@ == s[i].id@,
    ensures
        sorted_ids(s.update(i, x)),
        map_of(s.update(i, x)) == map_of(s).insert(x.id@, x@),
{
    let t = s.update(i, x);
    assert(sorted_ids(t)) by {
        assert forall|a: int, b: int| 0 <= a < b < t.len() implies seq_lt(
            #[trigger] t[a].id@,
            #[trigger] t[b].id@,
        ) by {
            assert(t[a].id@ == s[a].id@);
            assert(t[b].id@ == s[b].id@);
        }
    }
    assert forall|k: Seq<char>| has_id(t, k) == has_id(s, k) by {
        if has_id(t, k) {
            let a = choose|a: int| 0 <= a < t.len() && #[trigger] t[a].id@ == k;
            assert(s[a].id@ == k);
        }
        if has_id(s, k) {
            let a = choose|a: int| 0 <= a < s.len() && #[trigger] s[a].id@ == k;
            assert(t[a].id@ == k);
        }
    }
    assert(map_of(t) =~= map_of(s).insert(x.id@, x@)) by {
        assert forall|k: Seq<char>| #[trigger] map_of(t).contains_key(k) implies map_of(t)[k]
            == map_of(s).insert(x.id@, x@)[k] by {
            let a = choose|a: int| 0 <= a < t.len() && #[trigger] t[a].id@ == k;
            lemma_map_of_at(t, a);
            if k == x.id@ {
                lemma_sorted_unique(t, a, i);
            } else {
                assert(a != i);
                lemma_map_of_at(s, a);
            }
        }
    }
}

/// Inserting a runtime with a new identifier adds its entry.
proof fn lemma_map_of_insert(s: Seq<VersionRuntime>, p: int, x: VersionRuntime)
    requires
        sorted_ids(s),
        sorted_ids(s.insert(p, x)),
        0 <= p <= s.len(),
        !has_id(s, x.id@),
    ensures
        map_of(s.insert(p, x)) == map_of(s).insert(x.id@, x@),
{
    let t = s.insert(p, x);
    assert forall|k: Seq<char>| has_id(t, k) == (has_id(s, k) || k == x.id@) by {
        if has_id(t, k) {
            let a = choose|a: int| 0 <= a < t.len() && #[trigger] t[a].id@ == k;
            if a < p {
                assert(s[a].id@ == k);
            } else if a > p {
                assert(s[a - 1].id@ == k);
            }
        }
        if has_id(s, k) {
            let a = choose|a: int| 0 <= a < s.len() && #[trigger] s[a].id@ == k;
            if a < p {
                assert(t[a].id@ == k);
            } else {
                assert(t[a + 1].id@ == k);
            }
        }
        if k == x.id@ {
            assert(t[p].id@ == k);
        }
    }
    assert(map_of(t) =~= map_of(s).insert(x.id@, x@)) by {
        assert forall|k: Seq<char>| #[trigger] map_of(t).contains_key(k) implies map_of(t)[k]
            == map_of(s).insert(x.id@, x@)[k] by {
            let a = choose|a: int| 0 <= a < t.len() && #[trigger] t[a].id@ == k;
            lemma_map_of_at(t, a);
            if a < p {
                lemma_map_of_at(s, a);
            } else if a > p {
                lemma_map_of_at(s, a - 1);
            }
        }
    }
}

/// Extending an ordered sequence at the back by a larger identifier.
proof fn lemma_map_of_push(s: Seq<VersionRuntime>, x: VersionRuntime)
    requires
        sorted_ids(s),
        forall|i: int| 0 <= i < s.len() ==> seq_lt(#[trigger] s[i].id@, x.id@),
    ensures
        sorted_ids(s.push(x)),
        map_of(s.push(x)) == map_of(s).insert(x.id@, x@),
{
    assert(s.push(x) =~= s.insert(s.len() as int, x));
    assert(sorted_ids(s.push(x)));
    if has_id(s, x.id@) {
        let a = choose|a: int| 0 <= a < s.len() && #[trigger] s[a].id@ == x.id@;
        lemma_seq_lt_irreflexive(x.id@);
    }
    lemma_map_of_insert(s, s.len() as int, x);
}

/// The runtimes of all known versions, ordered by identifier.
pub struct VersionRegistry {
    /// Known version runtimes.
    versions: Vec<VersionRuntime>,
}

impl View for VersionRegistry {
    type V = Map<Seq<char>, RuntimeView>;

    closed spec fn view(&self) -> Map<Seq<char>, RuntimeView> {
        map_of(self.versions@)
    }
}

impl VersionRegistry {
    /// Runtimes in identifier order.
    pub closed spec fn entries(&self) -> Seq<VersionRuntime> {
        self.versions@
    }

    /// The registry keeps its runtimes ordered by identifier.
    pub closed spec fn wf(&self) -> bool {
        sorted_ids(self.versions@)
    }

    /// An empty registry.
    pub fn new() -> (r: VersionRegistry)
        ensures
            r.wf(),
            r@ == Map::<Seq<char>, RuntimeView>::empty(),
    {
        let r = VersionRegistry { versions: Vec::new() };
        assert(r@ =~= Map::<Seq<char>, RuntimeView>::empty());
        r
    }

    /// Number of known versions.
    pub fn len(&self) -> (n: usize)
        requires
            self.wf(),
        ensures
            n == self@.len(),
    {
        proof {
            self.lemma_len();
        }
        self.versions.len()
    }

    proof fn lemma_len(&self)
        requires
            self.wf(),
        ensures
            self@.dom().finite(),
            self@.len() == self.versions@.len(),
        decreases self.versions@.len(),
    {
        let s = self.versions@;
        let ids = Seq::new(s.len(), |i: int| s[i].id@);
        assert(self@.dom() =~= ids.to_set()) by {
            assert forall|k: Seq<char>| self@.dom().contains(k) <==> ids.to_set().contains(k) by {
                if self@.dom().contains(k) {
                    let a = choose|a: int| 0 <= a < s.len() && #[trigger] s[a].id@ == k;
                    assert(ids[a] == k);
                }
                if ids.to_set().contains(k) {
                    let a = choose|a: int| 0 <= a < ids.len() && ids[a] == k;
                    assert(s[a].id@ == k);
                }
            }
        }
        assert(ids.no_duplicates()) by {
            assert forall|a: int, b: int| 0 <= a < ids.len() && 0 <= b < ids.len() && a != b
                implies ids[a] != ids[b] by {
                if ids[a] == ids[b] {
                    lemma_sorted_unique(s, a, b);
                }
            }
        }
        ids.unique_seq_to_set();
    }

    /// Position of a version, if it is known.
    fn position(&self, id: &VersionId) -> (r: Option<usize>)
        requires
            self.wf(),
        ensures
            r is None <==> !self@.contains_key(id@),
            r matches Some(i) ==> i < self.versions@.len() && self.versions@[i as int].id@ == id@,
    {
        let mut i: usize = 0;
        while i < self.versions.len()
            invariant
                i <= self.versions@.len(),
                forall|j: int| 0 <= j < i ==> self.versions@[j].id@ != id@,
            decreases self.versions.len() - i,
        {
            if self.versions[i].id.same(id) {
                return Some(i);
            }
            i = i + 1;
        }
        None
    }

    /// Whether a version is known.
    pub fn contains(&self, id: &VersionId) -> (r: bool)
        requires
            self.wf(),
        ensures
            r == self@.contains_key(id@),
    {
        self.position(id).is_some()
    }

    /// Registers a version unless it is already known.
    pub fn ensure(&mut self, id: &VersionId)
        requires
            old(self).wf(),
        ensures
            final(self).wf(),
            final(self)@ == if old(self)@.contains_key(id@) {
                old(self)@
            } else {
                old(self)@.insert(id@, RuntimeView::fresh())
            },
    {
        let mut p: usize = 0;
        while p < self.versions.len() && text_lt(self.versions[p].id.value.as_str(), id.value.as_str())
            invariant
                p <= self.versions@.len(),
                forall|j: int| 0 <= j < p ==> seq_lt(#[trigger] self.versions@[j].id@, id@),
            decreases self.versions.len() - p,
        {
            p = p + 1;
        }
        if p < self.versions.len() && self.versions[p].id.same(id) {
            return;
        }
        let ghost s = self.versions@;
        proof {
            if p < s.len() {
                lemma_seq_lt_total(s[p as int].id@, id@);
            }
            assert forall|j: int| p <= j < s.len() implies seq_lt(id@, #[trigger] s[j].id@) by {
                if j > p {
                    lemma_seq_lt_transitive(id@, s[p as int].id@, s[j].id@);
                }
            }
            if has_id(s, id@) {
                let a = choose|a: int| 0 <= a < s.len() && #[trigger] s[a].id@ == id@;
                lemma_seq_lt_irreflexive(id@);
            }
        }
        let fresh = VersionRuntime::new(id.clone());
        self.versions.insert(p, fresh);
        proof {
            let t = self.versions@;
            assert(t =~= s.insert(p as int, fresh));
            assert(sorted_ids(t)) by {
                assert forall|a: int, b: int| 0 <= a < b < t.len() implies seq_lt(
                    #[trigger] t[a].id@,
                    #[trigger] t[b].id@,
                ) by {
                    if b < p {
                    } else if b == p {
                    } else if a < p {
                        lemma_seq_lt_transitive(s[a].id@, id@, s[b - 1].id@);
                    } else if a == p {
                        assert(seq_lt(id@, s[b - 1].id@));
                    } else {
                        assert(t[a] == s[a - 1] && t[b] == s[b - 1]);
                    }
                }
            }
            lemma_map_of_insert(s, p as int, fresh);
        }
    }

    /// The runtime of a version, if it is known.
    pub fn get(&self, id: &VersionId) -> (r: Option<&VersionRuntime>)
        requires
            self.wf(),
        ensures
            r is None <==> !self@.contains_key(id@),
            r matches Some(v) ==> v.key() == id@ && v@ == self@[id@],
    {
        match self.position(id) {
            Some(i) => {
                proof {
                    lemma_map_of_at(self.versions@, i as int);
                }
                Some(&self.versions[i])
            },
            None => None,
        }
    }

    /// Replaces the runtime at position `i` by one with the same identifier.
    fn replace_at(&mut self, i: usize, x: VersionRuntime)
        requires
            old(self).wf(),
            i < old(self).versions@.len(),
            x.id@ == old(self).versions@[i as int].id@,
        ensures
            final(self).wf(),
            final(self)@ == old(self)@.insert(x.id@, x@),
            final(self).versions@ == old(self).versions@.update(i as int, x),
    {
        proof {
            lemma_map_of_update(self.versions@, i as int, x);
        }
        self.versions.set(i, x);
    }

    /// Takes the runtime at position `i` out, leaving a fresh placeholder.
    fn take_at(&mut self, i: usize) -> (x: VersionRuntime)
        requires
            old(self).wf(),
            i < old(self).versions@.len(),
        ensures
            final(self).wf(),
            x == old(self).versions@[i as int],
            x.key() == old(self).versions@[i as int].id@,
            final(self).versions@.len() == old(self).versions@.len(),
            final(self).versions@[i as int].id@ == old(self).versions@[i as int].id@,
            old(self)@.contains_key(x.key()),
            old(self)@[x.key()] == x@,
            final(self)@ == old(self)@.insert(x.key(), RuntimeView::fresh()),
    {
        let placeholder = VersionRuntime::new(self.versions[i].id.clone());
        let ghost s = self.versions@;
        proof {
            lemma_map_of_at(s, i as int);
            lemma_map_of_update(s, i as int, placeholder);
        }
        let mut x = placeholder;
        std::mem::swap(&mut x, &mut self.versions[i]);
        assert(self.versions@ =~= s.update(i as int, placeholder));
        x
    }

    /// Applies `activate` to a known version; reports whether it was known.
    pub fn activate(&mut self, id: &VersionId) -> (found: bool)
        requires
            old(self).wf(),
        ensures
            final(self).wf(),
            found == old(self)@.contains_key(id@),
            final(self)@ == if found {
                old(self)@.insert(id@, old(self)@[id@].activated())
            } else {
                old(self)@
            },
    {
        match self.position(id) {
            Some(i) => {
                let mut x = self.take_at(i);
                x.activate();
                self.replace_at(i, x);
                assert(self@ =~= old(self)@.insert(id@, old(self)@[id@].activated()));
                true
            },
            None => false,
        }
    }

    /// Moves a known version to draining at time `now`; reports whether it was known.
    pub fn drain(&mut self, id: &VersionId, now: u64) -> (found: bool)
        requires
            old(self).wf(),
        ensures
            final(self).wf(),
            found == old(self)@.contains_key(id@),
            final(self)@ == if found {
                old(self)@.insert(id@, old(self)@[id@].drained(now))
            } else {
                old(self)@
            },
    {
        match self.position(id) {
            Some(i) => {
                let mut x = self.take_at(i);
                x.drain(now);
                self.replace_at(i, x);
                assert(self@ =~= old(self)@.insert(id@, old(self)@[id@].drained(now)));
                true
            },
            None => false,
        }
    }

    /// Stops a known idle version; `None` when the version is unknown.
    pub fn stop_idle(&mut self, id: &VersionId) -> (r: Option<Result<(), HyperError>>)
        requires
            old(self).wf(),
        ensures
            final(self).wf(),
            r is None <==> !old(self)@.contains_key(id@),
            r is None ==> final(self)@ == old(self)@,
            r matches Some(res) ==> {
                &&& (res is Ok <==> old(self)@[id@].idle())
                &&& res is Ok ==> final(self)@ == old(self)@.insert(id@, old(self)@[id@].stopped())
                &&& res matches Err(e) ==> final(self)@ == old(self)@ && e.message@
                    == "version still has active connections"@
            },
    {
        match self.position(id) {
            Some(i) => {
                let mut x = self.take_at(i);
                let res = x.stop_idle();
                self.replace_at(i, x);
                proof {
                    if res is Ok {
                        assert(self@ =~= old(self)@.insert(id@, old(self)@[id@].stopped()));
                    } else {
                        assert(self@ =~= old(self)@);
                    }
                }
                Some(res)
            },
            None => None,
        }
    }

    /// Grants a lease on a known version; `None` when the version is unknown.
    pub fn lease(&mut self, id: &VersionId, kind: RequestKind) -> (r: Option<
        Result<VersionLease, HyperError>,
    >)
        requires
            old(self).wf(),
        ensures
            final(self).wf(),
            r is None <==> !old(self)@.contains_key(id@),
            r is None ==> final(self)@ == old(self)@,
            r matches Some(res) ==> {
                &&& (res is Ok <==> old(self)@[id@].admits())
                &&& res matches Ok(l) ==> {
                    &&& final(self)@ == old(self)@.insert(id@, old(self)@[id@].leased(kind))
                    &&& l.version@ == id@
                    &&& l.kind == kind
                    &&& l.cycle == old(self)@[id@].cycle
                }
                &&& res is Err ==> final(self)@ == old(self)@
            },
    {
        match self.position(id) {
            Some(i) => {
                let mut x = self.take_at(i);
                let res = x.lease(kind);
                self.replace_at(i, x);
                proof {
                    if res is Ok {
                        assert(self@ =~= old(self)@.insert(id@, old(self)@[id@].leased(kind)));
                    } else {
                        assert(self@ =~= old(self)@);
                    }
                }
                Some(res)
            },
            None => None,
        }
    }

    /// Releases a lease on its version.
    pub fn release(&mut self, lease: VersionLease)
        requires
            old(self).wf(),
            old(self)@.contains_key(lease.version@),
            old(self)@[lease.version@].requests > 0,
        ensures
            final(self).wf(),
            final(self)@ == old(self)@.insert(
                lease.version@,
                old(self)@[lease.version@].released(lease.kind),
            ),
    {
        match self.position(&lease.version) {
            Some(i) => {
                let mut x = self.take_at(i);
                x.release(lease.kind);
                self.replace_at(i, x);
                assert(self@ =~= old(self)@.insert(
                    lease.version@,
                    old(self)@[lease.version@].released(lease.kind),
                ));
            },
            None => {},
        }
    }

    /// Counts a unary lease as a streaming connection of its version.
    pub fn promote_stream(&mut self, lease: &mut VersionLease)
        requires
            old(self).wf(),
            old(self)@.contains_key(old(lease).version@),
        ensures
            final(self).wf(),
            final(lease).version@ == old(lease).version@,
            final(lease).cycle == old(lease).cycle,
            final(lease).kind == RequestKind::Stream,
            final(self)@ == if old(lease).kind == RequestKind::Stream {
                old(self)@
            } else {
                old(self)@.insert(old(lease).version@, old(self)@[old(lease).version@].promoted())
            },
    {
        match self.position(&lease.version) {
            Some(i) => {
                let mut x = self.take_at(i);
                lease.promote_stream(&mut x);
                self.replace_at(i, x);
                proof {
                    if old(lease).kind == RequestKind::Stream {
                        assert(self@ =~= old(self)@);
                    } else {
                        assert(self@ =~= old(self)@.insert(
                            old(lease).version@,
                            old(self)@[old(lease).version@].promoted(),
                        ));
                    }
                }
            },
            None => {},
        }
    }

    /// Cancels a known version's residual requests if it is still draining.
    pub fn force_close_if_draining(&mut self, id: &VersionId) -> (found: bool)
        requires
            old(self).wf(),
        ensures
            final(self).wf(),
            found == old(self)@.contains_key(id@),
            final(self)@ == if found {
                old(self)@.insert(id@, old(self)@[id@].force_closed())
            } else {
                old(self)@
            },
    {
        match self.position(id) {
            Some(i) => {
                let mut x = self.take_at(i);
                x.force_close_if_draining();
                self.replace_at(i, x);
                assert(self@ =~= old(self)@.insert(id@, old(self)@[id@].force_closed()));
                true
            },
            None => false,
        }
    }

    /// Whether a lease's cancellation signal has fired.
    pub fn lease_cancelled(&self, lease: &VersionLease) -> (r: bool)
        requires
            self.wf(),
            self@.contains_key(lease.version@),
        ensures
            r == lease.cancelled_in(self@[lease.version@]),
    {
        match self.get(&lease.version) {
            Some(v) => v.lease_cancelled(lease),
            None => false,
        }
    }

    /// Snapshots of all versions at time `now`, ordered by identifier.
    pub fn snapshots(&self, now: u64) -> (r: Vec<VersionSnapshot>)
        requires
            self.wf(),
        ensures
            r@.len() == self@.len(),
            forall|i: int, j: int| 0 <= i < j < r@.len() ==> seq_lt(#[trigger] r@[i].id@, #[trigger] r@[j].id@),
            forall|i: int| 0 <= i < r@.len() ==> #[trigger] self@.contains_key(r@[i].id@)
                && snapshot_of(r@[i], self@[r@[i].id@], now),
            forall|k: Seq<char>| #[trigger] self@.contains_key(k) ==> exists|i: int| 0 <= i < r@.len() && #[trigger] r@[i].id@ == k,
    {
        proof {
            self.lemma_len();
        }
        let mut r: Vec<VersionSnapshot> = Vec::new();
        let mut i: usize = 0;
        while i < self.versions.len()
            invariant
                self.wf(),
                i <= self.versions@.len(),
                r@.len() == i,
                forall|a: int| 0 <= a < i ==> #[trigger] r@[a].id@ == self.versions@[a].id@
                    && snapshot_of(r@[a], self.versions@[a]@, now),
            decreases self.versions.len() - i,
        {
            r.push(self.versions[i].snapshot(now));
            i = i + 1;
        }
        proof {
            let s = self.versions@;
            assert forall|a: int| 0 <= a < r@.len() implies #[trigger] self@.contains_key(r@[a].id@)
                && snapshot_of(r@[a], self@[r@[a].id@], now) by {
                lemma_map_of_at(s, a);
            }
            assert forall|k: Seq<char>| #[trigger] self@.contains_key(k) implies exists|a: int|
                0 <= a < r@.len() && #[trigger] r@[a].id@ == k by {
                let a = index_of(s, k);
                assert(r@[a].id@ == k);
            }
        }
        r
    }

    /// Forgets every version whose identifier is not in `keep`.
    pub fn retain_configured(&mut self, keep: &Vec<VersionId>)
        requires
            old(self).wf(),
        ensures
            final(self).wf(),
            final(self)@ == old(self)@.restrict(id_set(keep@)),
    {
        let ghost keep_set = id_set(keep@);
        let mut old_versions: Vec<VersionRuntime> = Vec::new();
        std::mem::swap(&mut old_versions, &mut self.versions);
        let ghost s = old_versions@;
        assert(s == old(self).versions@);
        let mut kept: Vec<VersionRuntime> = Vec::new();
        let mut rest = old_versions;
        let n = rest.len();
        let mut i: usize = 0;
        assert(map_of(kept@) =~= map_of(s.take(0)).restrict(keep_set));
        assert(rest@ =~= s.skip(0));
        while rest.len() > 0
            invariant
                sorted_ids(s),
                keep_set == id_set(keep@),
                i + rest@.len() == s.len(),
                s.len() <= usize::MAX,
                rest@ == s.skip(i as int),
                sorted_ids(kept@),
                forall|a: int| 0 <= a < kept@.len() ==> exists|b: int| 0 <= b < i && #[trigger] kept@[a] == s[b],
                map_of(kept@) == map_of(s.take(i as int)).restrict(keep_set),
            decreases rest.len(),
        {
            let x = rest.remove(0);
            let ghost xid = x.id@;
            proof {
                assert(x == s[i as int]);
                assert(rest@ =~= s.skip(i + 1));
                let t = s.take(i as int);
                assert(s.take(i + 1) =~= t.push(x));
                assert forall|a: int| 0 <= a < t.len() implies seq_lt(#[trigger] t[a].id@, x.id@) by {}
                lemma_map_of_push(t, x);
            }
            let mut wanted = false;
            let mut j: usize = 0;
            while j < keep.len()
                invariant
                    j <= keep@.len(),
                    x.id@ == xid,
                    wanted == exists|b: int| 0 <= b < j && #[trigger] keep@[b]@ == xid,
                decreases keep.len() - j,
            {
                if keep[j].same(&x.id) {
                    wanted = true;
                }
                j = j + 1;
            }
            assert(j == keep@.len());
            assert(wanted == holds_id(keep@, xid));
            assert(keep_set.contains(xid) == holds_id(keep@, xid));
            let ghost before = kept@;
            let ghost xv = x;
            if wanted {
                proof {
                    assert forall|a: int| 0 <= a < before.len() implies seq_lt(#[trigger] before[a].id@, xid) by {
                        let b = choose|b: int| 0 <= b < i && #[trigger] before[a] == s[b];
                    }
                    lemma_map_of_push(before, xv);
                }
                kept.push(x);
            }
            proof {
                let t = s.take(i as int);
                assert(map_of(kept@) =~= map_of(t.push(xv)).restrict(keep_set));
                assert forall|a: int| 0 <= a < kept@.len() implies exists|b: int| 0 <= b < i + 1 && #[trigger] kept@[a] == s[b] by {
                    if a == before.len() {
                        assert(kept@[a] == s[i as int]);
                    } else {
                        let b = choose|b: int| 0 <= b < i && #[trigger] before[a] == s[b];
                        assert(kept@[a] == s[b]);
                    }
                }
            }
            i = i + 1;
        }
        assert(s.take(s.len() as int) =~= s);
        self.versions = kept;
    }
}

} // verus!
