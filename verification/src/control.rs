//! The gateway's lifecycle control: switch, rollback, drain, stop and reload.
//!
//! Every action is a decision on the control state. Where an action waits on
//! the outside world (a version health check, writing the state file, a drain
//! timer), the decision is split at that point: the library says what to do,
//! the caller does it and hands back the result, and the library then decides
//! the rest. The caller runs one action at a time, from its first step to its
//! last.

use vstd::prelude::*;

use crate::config::{ConfigLoader, ConfigManager, ConfigValidator, RuntimeConfig};
use crate::request::ConfigRevision;
use crate::state::PersistedState;
use crate::endpoint::{endpoint_error, ensured, opt_view, target_error, target_of, ActiveVersionTarget, Gateway};
use crate::error::HyperError;
use crate::runtime::{elapsed, wrap_inc, RuntimeView, VersionLease, VersionRegistry};
use crate::text::{decimal, lemma_seq_lt_irreflexive, lemma_seq_lt_total, lemma_seq_lt_transitive, owned, push_str, seq_lt, u64_to_text};
use crate::version::{holds_id, id_set, state_label, VersionId, VersionState};

verus! {

/// How many previous active versions rollback remembers.
pub const ROLLBACK_HISTORY_LIMIT: usize = 32;

/// The identifiers of a sequence of version ids.
pub open spec fn ids_of(v: Seq<VersionId>) -> Seq<Seq<char>> {
    v.map_values(|x: VersionId| x@)
}

/// The entries of `h` that are in `configured`, in order.
pub open spec fn keep_configured(h: Seq<Seq<char>>, configured: Set<Seq<char>>) -> Seq<Seq<char>>
    decreases h.len(),
{
    if h.len() == 0 {
        h
    } else {
        let rest = keep_configured(h.drop_last(), configured);
        if configured.contains(h.last()) {
            rest.push(h.last())
        } else {
            rest
        }
    }
}

/// The most recent `ROLLBACK_HISTORY_LIMIT` entries of `h`.
pub open spec fn keep_recent(h: Seq<Seq<char>>) -> Seq<Seq<char>> {
    if h.len() > ROLLBACK_HISTORY_LIMIT {
        h.skip(h.len() - ROLLBACK_HISTORY_LIMIT)
    } else {
        h
    }
}

/// A history without removed versions, holding only its recent entries.
pub open spec fn normalized(h: Seq<Seq<char>>, configured: Set<Seq<char>>) -> Seq<Seq<char>> {
    keep_recent(keep_configured(h, configured))
}

/// Every entry of `h` is in `configured` and `h` is within the limit.
pub open spec fn history_ok(h: Seq<Seq<char>>, configured: Set<Seq<char>>) -> bool {
    &&& h.len() <= ROLLBACK_HISTORY_LIMIT
    &&& forall|i: int| 0 <= i < h.len() ==> configured.contains(#[trigger] h[i])
}

proof fn lemma_keep_configured(h: Seq<Seq<char>>, configured: Set<Seq<char>>)
    ensures
        keep_configured(h, configured).len() <= h.len(),
        forall|i: int|
            0 <= i < keep_configured(h, configured).len() ==> configured.contains(
                #[trigger] keep_configured(h, configured)[i],
            ),
        (forall|i: int| 0 <= i < h.len() ==> configured.contains(#[trigger] h[i])) ==> keep_configured(h, configured) == h,
    decreases h.len(),
{
    if h.len() > 0 {
        lemma_keep_configured(h.drop_last(), configured);
        if forall|i: int| 0 <= i < h.len() ==> configured.contains(#[trigger] h[i]) {
            assert forall|i: int| 0 <= i < h.drop_last().len() implies configured.contains(
                #[trigger] h.drop_last()[i],
            ) by {
                assert(h.drop_last()[i] == h[i]);
            }
            assert(configured.contains(h[h.len() - 1]));
            assert(h.drop_last().push(h.last()) =~= h);
        }
    }
}

/// A normalized history is within the limit and holds configured versions only.
pub proof fn lemma_normalized(h: Seq<Seq<char>>, configured: Set<Seq<char>>)
    ensures
        history_ok(normalized(h, configured), configured),
        history_ok(h, configured) ==> normalized(h, configured) == h,
{
    lemma_keep_configured(h, configured);
    let k = keep_configured(h, configured);
    if k.len() > ROLLBACK_HISTORY_LIMIT {
        assert forall|i: int| 0 <= i < normalized(h, configured).len() implies configured.contains(
            #[trigger] normalized(h, configured)[i],
        ) by {
            assert(normalized(h, configured)[i] == k[i + (k.len() - ROLLBACK_HISTORY_LIMIT)]);
        }
    }
}

fn holds(ids: &Vec<VersionId>, id: &VersionId) -> (r: bool)
    ensures
        r == holds_id(ids@, id@),
{
    let mut i: usize = 0;
    while i < ids.len()
        invariant
            i <= ids@.len(),
            forall|j: int| 0 <= j < i ==> #[trigger] ids@[j]@ != id@,
        decreases ids.len() - i,
    {
        if ids[i].same(id) {
            return true;
        }
        i = i + 1;
    }
    false
}

/// The entries of a history whose versions are configured, in order.
fn configured_entries(history: &Vec<VersionId>, configured: &Vec<VersionId>) -> (kept: Vec<VersionId>)
    ensures
        ids_of(kept@) == keep_configured(ids_of(history@), id_set(configured@)),
{
    let ghost c = id_set(configured@);
    let ghost h = ids_of(history@);
    let mut kept: Vec<VersionId> = Vec::new();
    let mut i: usize = 0;
    while i < history.len()
        invariant
            i <= history@.len(),
            h == ids_of(history@),
            c == id_set(configured@),
            ids_of(kept@) == keep_configured(h.take(i as int), c),
        decreases history.len() - i,
    {
        let ghost before = kept@;
        assert(h.take(i + 1).drop_last() =~= h.take(i as int));
        assert(h.take(i + 1).last() == history@[i as int]@);
        if holds(configured, &history[i]) {
            kept.push(history[i].clone());
            assert(ids_of(kept@) =~= ids_of(before).push(history@[i as int]@));
        }
        i = i + 1;
    }
    assert(h.take(history@.len() as int) =~= h);
    kept
}

/// Drops versions that are no longer configured, then keeps only the most
/// recent `ROLLBACK_HISTORY_LIMIT` entries.
pub fn normalize_history(history: &mut Vec<VersionId>, configured: &Vec<VersionId>)
    ensures
        ids_of(final(history)@) == normalized(ids_of(old(history)@), id_set(configured@)),
{
    let kept = configured_entries(history, configured);
    let n = kept.len();
    if n > ROLLBACK_HISTORY_LIMIT {
        let mut recent: Vec<VersionId> = Vec::new();
        let start = n - ROLLBACK_HISTORY_LIMIT;
        let mut j: usize = start;
        while j < n
            invariant
                start <= j <= n,
                n == kept@.len(),
                start == n - ROLLBACK_HISTORY_LIMIT,
                ids_of(recent@) == ids_of(kept@).subrange(start as int, j as int),
            decreases n - j,
        {
            let ghost before = recent@;
            recent.push(kept[j].clone());
            assert(ids_of(recent@) =~= ids_of(before).push(kept@[j as int]@));
            assert(ids_of(kept@).subrange(start as int, j + 1) =~= ids_of(kept@).subrange(
                start as int,
                j as int,
            ).push(kept@[j as int]@));
            j = j + 1;
        }
        assert(ids_of(kept@).subrange(start as int, n as int) =~= ids_of(kept@).skip(start as int));
        *history = recent;
    } else {
        *history = kept;
    }
}

// ---------------------------------------------------------------------------
// Errors and outcomes
// ---------------------------------------------------------------------------

/// Why a control action failed.
#[derive(Debug)]
pub enum ControlError {
    /// The current state refuses the action; the client should refresh and decide again.
    Conflict(String),
    /// An internal component failed.
    Internal(HyperError),
}

impl ControlError {
    /// The error's text.
    pub open spec fn message(self) -> Seq<char> {
        match self {
            ControlError::Conflict(m) => m@,
            ControlError::Internal(e) => e.message@,
        }
    }

    /// Whether the error is a conflict with text `m`.
    pub open spec fn is_conflict(self, m: Seq<char>) -> bool {
        self matches ControlError::Conflict(x) && x@ == m
    }

    /// The error's text, as logged and shown on the console.
    pub fn to_text(&self) -> (s: String)
        ensures
            s@ == self.message(),
    {
        match self {
            ControlError::Conflict(m) => m.clone(),
            ControlError::Internal(e) => e.to_text(),
        }
    }

    /// The error as a general error with the same text.
    pub fn into_error(self) -> (e: HyperError)
        ensures
            e.message@ == self.message(),
    {
        match self {
            ControlError::Conflict(m) => HyperError::from_message(m),
            ControlError::Internal(e) => e,
        }
    }
}

fn conflict(message: &str) -> (e: ControlError)
    ensures
        e.is_conflict(message@),
{
    ControlError::Conflict(owned(message))
}

/// The text of a revision mismatch.
pub open spec fn mismatch_message(expected: u64, current: u64) -> Seq<char> {
    "revision mismatch: expected "@ + decimal(expected as nat) + ", current "@ + decimal(
        current as nat,
    )
}

/// A drain whose remaining streams must be cancelled after a delay.
pub struct DrainTimer {
    /// The draining version.
    pub version: VersionId,
    /// Seconds to wait before cancelling.
    pub after_secs: u64,
}

/// One version in a status snapshot.
pub struct VersionSnapshotDto {
    /// Version identifier.
    pub id: String,
    /// State text.
    pub state: String,
    /// Entry point, when the version is configured.
    pub endpoint: Option<String>,
    /// Health URL, when the version is configured.
    pub health: Option<String>,
    /// Active requests.
    pub active_requests: u64,
    /// Active streaming connections.
    pub active_streams: u64,
    /// Request leases granted so far.
    pub total_requests: u64,
    /// Seconds spent draining, when draining.
    pub drain_elapsed_seconds: Option<u64>,
    /// Whether draining has lasted as long as the drain timeout.
    pub drain_timed_out: bool,
}

/// A status snapshot of the gateway.
pub struct GatewaySnapshot {
    /// The active version.
    pub active_version: String,
    /// Configuration revision.
    pub revision: u64,
    /// Whether rollback has a target.
    pub rollback_available: bool,
    /// Seconds since the control started.
    pub uptime_seconds: u64,
    /// Every known version, ordered by identifier.
    pub versions: Vec<VersionSnapshotDto>,
}

/// The result of an action: a short summary and the state right after it.
pub struct ControlOutcome {
    /// Summary such as `active=v2`.
    pub summary: String,
    /// Snapshot taken when the action completed.
    pub snapshot: GatewaySnapshot,
    /// A forced-close timer the caller must start, if draining asks for one.
    pub drain_timer: Option<DrainTimer>,
}

/// Whether `d` reports version `id` in state `v` at time `now` under configuration `c`.
pub open spec fn dto_reports(d: VersionSnapshotDto, id: Seq<char>, v: RuntimeView, c: RuntimeConfig, now: u64) -> bool {
    &&& d.id@ == id
    &&& d.state@ == state_label(v.state)
    &&& d.active_requests == v.requests
    &&& d.active_streams == v.streams
    &&& d.total_requests == v.total
    &&& d.drain_elapsed_seconds == match v.drain_started_at {
        Some(t) => Some(elapsed(t, now)),
        None => None,
    }
    &&& d.drain_timed_out == (d.drain_elapsed_seconds matches Some(e) && e >= c.drain.timeout_secs)
    &&& if c.versions@.contains_key(id) {
        opt_view(d.endpoint) == Some(c.versions@[id].0) && opt_view(d.health) == Some(
            c.versions@[id].1,
        )
    } else {
        d.endpoint is None && d.health is None
    }
}

/// Whether `s` is the status of configuration `c`, registry `reg` and history
/// `h` at time `now` for a control started at `started`.
pub open spec fn snapshot_reports(s: GatewaySnapshot, c: RuntimeConfig, reg: Map<Seq<char>, RuntimeView>, h: Seq<Seq<char>>, started: u64, now: u64) -> bool {
    &&& s.active_version@ == c.active_version@
    &&& s.revision == c.revision.value
    &&& s.rollback_available == (h.len() > 0)
    &&& s.uptime_seconds == elapsed(started, now)
    &&& s.versions@.len() == reg.len()
    &&& forall|i: int, j: int| 0 <= i < j < s.versions@.len() ==> seq_lt(#[trigger] s.versions@[i].id@, #[trigger] s.versions@[j].id@)
    &&& forall|i: int| 0 <= i < s.versions@.len() ==> #[trigger] reg.contains_key(s.versions@[i].id@)
        && dto_reports(s.versions@[i], s.versions@[i].id@, reg[s.versions@[i].id@], c, now)
    &&& forall|k: Seq<char>| #[trigger] reg.contains_key(k) ==> exists|i: int| 0 <= i < s.versions@.len() && #[trigger] s.versions@[i].id@ == k
}

// ---------------------------------------------------------------------------
// Control state
// ---------------------------------------------------------------------------

/// The gateway's single lifecycle control entry, shared by the console and
/// the management API.
pub struct GatewayControl<L, V> {
    /// Configuration snapshots.
    pub manager: ConfigManager<RuntimeConfig, L, V>,
    /// Routing core.
    pub gateway: Gateway,
    /// Version runtimes.
    pub versions: VersionRegistry,
    /// Previous active versions, oldest first; rollback takes the last.
    pub history: Vec<VersionId>,
    /// When the control started, in seconds.
    pub started_at: u64,
}

impl<L: ConfigLoader<RuntimeConfig>, V: ConfigValidator<RuntimeConfig>> GatewayControl<L, V> {
    /// The current configuration.
    pub open spec fn config(&self) -> RuntimeConfig {
        self.manager.current
    }

    /// The configured version identifiers.
    pub open spec fn configured(&self) -> Set<Seq<char>> {
        self.manager.current.versions@.dom()
    }

    /// The rollback history as identifiers.
    pub open spec fn history_ids(&self) -> Seq<Seq<char>> {
        ids_of(self.history@)
    }

    /// The control's invariant: a well-formed configuration whose active version
    /// has a runtime, a bounded history of configured versions, and routing to
    /// the configured active version.
    pub open spec fn wf(&self) -> bool {
        &&& self.config().wf()
        &&& self.versions.wf()
        &&& self.versions@.contains_key(self.config().active_version@)
        &&& history_ok(self.history_ids(), self.configured())
        &&& target_of(self.gateway.active, self.config())
    }

    /// Whether the expected revision, if any, is the current one.
    pub open spec fn expected_ok(&self, expected: Option<u64>) -> bool {
        match expected {
            Some(e) => e == self.manager.revision,
            None => true,
        }
    }

    /// Checks an optimistic-concurrency expectation: `None` always passes,
    /// `Some(r)` passes only when `r` is the current revision.
    pub fn check_expected(&self, expected: Option<u64>) -> (r: Result<(), ControlError>)
        ensures
            r is Ok <==> self.expected_ok(expected),
            r matches Err(e) ==> e.is_conflict(mismatch_message(expected->0, self.manager.revision)),
    {
        match expected {
            None => Ok(()),
            Some(e) => {
                let current = self.manager.revision;
                if current == e {
                    Ok(())
                } else {
                    let mut m = owned("revision mismatch: expected ");
                    push_str(&mut m, u64_to_text(e).as_str());
                    push_str(&mut m, ", current ");
                    push_str(&mut m, u64_to_text(current).as_str());
                    Err(ControlError::Conflict(m))
                }
            },
        }
    }

    /// A status snapshot at time `now`.
    pub fn snapshot(&self, now: u64) -> (s: GatewaySnapshot)
        requires
            self.wf(),
        ensures
            snapshot_reports(s, self.config(), self.versions@, self.history_ids(), self.started_at, now),
    {
        let config = &self.manager.current;
        let snaps = self.versions.snapshots(now);
        let mut dtos: Vec<VersionSnapshotDto> = Vec::new();
        let mut i: usize = 0;
        while i < snaps.len()
            invariant
                config.wf(),
                *config == self.config(),
                i <= snaps@.len(),
                dtos@.len() == i,
                forall|a: int| 0 <= a < i ==> #[trigger] dtos@[a].id@ == snaps@[a].id@,
                forall|a: int| 0 <= a < i ==> dto_reports(#[trigger] dtos@[a], snaps@[a].id@, self.versions@[snaps@[a].id@], *config, now),
                forall|a: int| 0 <= a < snaps@.len() ==> #[trigger] self.versions@.contains_key(snaps@[a].id@)
                    && crate::runtime::snapshot_of(snaps@[a], self.versions@[snaps@[a].id@], now),
            decreases snaps.len() - i,
        {
            let s = &snaps[i];
            let (endpoint, health) = match config.versions.get(&s.id) {
                Some(v) => (Some(v.endpoint.clone()), Some(v.health.clone())),
                None => (None, None),
            };
            let timed_out = match s.drain_elapsed_secs {
                Some(e) => e >= config.drain.timeout_secs,
                None => false,
            };
            let d = VersionSnapshotDto {
                id: s.id.value.clone(),
                state: owned(s.state.as_str()),
                endpoint,
                health,
                active_requests: s.active_requests,
                active_streams: s.active_streams,
                total_requests: s.total_requests,
                drain_elapsed_seconds: s.drain_elapsed_secs,
                drain_timed_out: timed_out,
            };
            proof {
                let v = self.versions@[s.id@];
                assert(self.versions@.contains_key(snaps@[i as int].id@));
                assert(crate::runtime::snapshot_of(*s, v, now));
                assert(d.id@ == s.id@);
                assert(d.state@ == state_label(v.state));
                if config.versions@.contains_key(s.id@) {
                    assert(opt_view(d.endpoint) == Some(config.versions@[s.id@].0));
                    assert(opt_view(d.health) == Some(config.versions@[s.id@].1));
                }
                assert(dto_reports(d, s.id@, v, *config, now));
            }
            let ghost before = dtos@;
            dtos.push(d);
            assert(dtos@[i as int] == d);
            assert(forall|a: int| 0 <= a < i ==> dtos@[a] == before[a]);
            i = i + 1;
        }
        let uptime = if now >= self.started_at {
            now - self.started_at
        } else {
            0
        };
        proof {
            assert(self.history_ids().len() == self.history@.len());
            assert forall|a: int| 0 <= a < dtos@.len() implies #[trigger] self.versions@.contains_key(dtos@[a].id@)
                && dto_reports(dtos@[a], dtos@[a].id@, self.versions@[dtos@[a].id@], *config, now) by {
                assert(dtos@[a].id@ == snaps@[a].id@);
            }
            assert forall|a: int, b: int| 0 <= a < b < dtos@.len() implies seq_lt(#[trigger] dtos@[a].id@, #[trigger] dtos@[b].id@) by {
                assert(dtos@[a].id@ == snaps@[a].id@);
                assert(dtos@[b].id@ == snaps@[b].id@);
            }
            assert forall|k: Seq<char>| #[trigger] self.versions@.contains_key(k) implies exists|a: int| 0 <= a < dtos@.len() && #[trigger] dtos@[a].id@ == k by {
                let a = choose|a: int| 0 <= a < snaps@.len() && #[trigger] snaps@[a].id@ == k;
                assert(dtos@[a].id@ == k);
            }
        }
        GatewaySnapshot {
            active_version: config.active_version.value.clone(),
            revision: config.revision.value,
            rollback_available: self.history.len() > 0,
            uptime_seconds: uptime,
            versions: dtos,
        }
    }

    fn outcome(&self, summary: String, drain_timer: Option<DrainTimer>, now: u64) -> (o: ControlOutcome)
        requires
            self.wf(),
        ensures
            o.summary == summary,
            o.drain_timer == drain_timer,
            snapshot_reports(o.snapshot, self.config(), self.versions@, self.history_ids(), self.started_at, now),
    {
        ControlOutcome { summary, snapshot: self.snapshot(now), drain_timer }
    }
}


/// The configuration after switching to `target`: the next revision, routed to `target`.
pub open spec fn switched(c: RuntimeConfig, target: VersionId) -> RuntimeConfig {
    RuntimeConfig {
        revision: ConfigRevision { value: (c.revision.value + 1) as u64 },
        active_version: target,
        ..c
    }
}

/// The rollback history after a switch away from `old_active`: a forward
/// switch remembers it, a rollback consumes the last entry.
pub open spec fn switch_history(h: Seq<Seq<char>>, old_active: Seq<char>, push: bool, configured: Set<Seq<char>>) -> Seq<Seq<char>> {
    normalized(
        if push {
            h.push(old_active)
        } else if h.len() > 0 {
            h.drop_last()
        } else {
            h
        },
        configured,
    )
}

/// What the caller must do between `begin_switch` (or `begin_rollback`) and
/// `commit_switch`: probe `health` when there is one.
pub struct SwitchPlan {
    /// The version to route to.
    pub target: VersionId,
    /// Whether the current active version is remembered for rollback
    /// (a rollback consumes the history instead).
    pub push_history: bool,
    /// The revision the plan was made at.
    pub observed: u64,
    /// The health URL to probe; `None` when the target is already active.
    pub health: Option<String>,
    /// Connect timeout of the probe, in milliseconds.
    pub connect_timeout_ms: u64,
    /// Overall timeout of the probe, in milliseconds.
    pub health_timeout_ms: u64,
}

/// How an action is decided once the outside work it waited on is done.
pub enum Verdict {
    /// Nothing needs to change (a switch to the version already active).
    Unchanged,
    /// The action goes ahead once its state is saved.
    Proceed,
    /// Refused with a conflict of this text.
    Conflict(Seq<char>),
    /// Refused by an internal failure of this text.
    Internal(Seq<char>),
    /// Refused by the configuration validator.
    Rejected,
}

/// The text of a failed health check before a switch.
pub open spec fn health_failed_message(e: Seq<char>) -> Seq<char> {
    "version health check failed: "@ + e
}

/// Whether a drain timer is the one a drain of `id` under configuration `c` asks for.
pub open spec fn timer_for(t: Option<DrainTimer>, id: Seq<char>, c: RuntimeConfig) -> bool {
    if c.drain.force_close_streams {
        t matches Some(x) && x.version@ == id && x.after_secs == c.drain.timeout_secs
    } else {
        t is None
    }
}

fn wrapping_next(x: u64) -> (y: u64)
    ensures
        y == wrap_inc(x),
{
    if x == u64::MAX {
        0
    } else {
        x + 1
    }
}

impl<L: ConfigLoader<RuntimeConfig>, V: ConfigValidator<RuntimeConfig>> GatewayControl<L, V> {
    /// Starts the control on a validated configuration: registers a runtime
    /// for every configured version, activates the active one, routes to it,
    /// and restores the history without removed versions and beyond the limit.
    pub fn start(manager: ConfigManager<RuntimeConfig, L, V>, history: Vec<VersionId>, started_at: u64) -> (r: Result<Self, HyperError>)
        requires
            manager.current.wf(),
        ensures
            r is Ok <==> target_error(manager.current) is None,
            r matches Err(e) ==> Some(e.message@) == target_error(manager.current),
            r matches Ok(c) ==> {
                &&& c.wf()
                &&& c.manager == manager
                &&& c.started_at == started_at
                &&& c.history_ids() == normalized(ids_of(history@), manager.current.versions@.dom())
                &&& c.versions@.dom() == manager.current.versions@.dom()
                &&& forall|k: Seq<char>| #[trigger] c.versions@.contains_key(k) ==> c.versions@[k] == if k
                    == manager.current.active_version@ {
                    RuntimeView::fresh().activated()
                } else {
                    RuntimeView::fresh()
                }
            },
    {
        let mut manager = manager;
        let mut history = history;
        let ids = manager.current.versions.ids();
        let mut versions = VersionRegistry::new();
        let mut i: usize = 0;
        while i < ids.len()
            invariant
                i <= ids@.len(),
                versions.wf(),
                versions@ =~= Map::new(|k: Seq<char>| holds_id(ids@.take(i as int), k), |k: Seq<char>| RuntimeView::fresh()),
            decreases ids.len() - i,
        {
            versions.ensure(&ids[i]);
            proof {
                assert forall|k: Seq<char>| holds_id(ids@.take(i + 1), k) <==> holds_id(ids@.take(i as int), k) || k == ids@[i as int]@ by {
                    if holds_id(ids@.take(i + 1), k) {
                        let a = choose|a: int| 0 <= a < ids@.take(i + 1).len() && #[trigger] ids@.take(i + 1)[a]@ == k;
                        if a < i {
                            assert(ids@.take(i as int)[a]@ == k);
                        }
                    }
                    if holds_id(ids@.take(i as int), k) {
                        let a = choose|a: int| 0 <= a < ids@.take(i as int).len() && #[trigger] ids@.take(i as int)[a]@ == k;
                        assert(ids@.take(i + 1)[a]@ == k);
                    }
                    if k == ids@[i as int]@ {
                        assert(ids@.take(i + 1)[i as int]@ == k);
                    }
                }
            }
            i = i + 1;
        }
        assert(ids@.take(ids@.len() as int) =~= ids@);
        let gateway = match Gateway::new(&manager.current, &mut versions) {
            Ok(g) => g,
            Err(e) => return Err(e),
        };
        let ghost registered = versions@;
        proof {
            let a = manager.current.active_version@;
            assert(manager.current.versions@.contains_key(a));
            assert(holds_id(ids@, a));
            assert(registered.contains_key(a));
            assert(registered[a] == RuntimeView::fresh());
        }
        versions.activate(&manager.current.active_version);
        let ghost restored = ids_of(history@);
        normalize_history(&mut history, &ids);
        proof {
            assert(id_set(ids@) =~= manager.current.versions@.dom());
            lemma_normalized(restored, manager.current.versions@.dom());
            assert forall|k: Seq<char>| #[trigger] versions@.contains_key(k) implies versions@[k] == if k
                    == manager.current.active_version@ {
                    RuntimeView::fresh().activated()
                } else {
                    RuntimeView::fresh()
                } by {
                assert(registered.contains_key(k));
            }
            assert(registered.dom() =~= manager.current.versions@.dom());
            assert(versions@.dom() =~= manager.current.versions@.dom());
        }
        let c = GatewayControl { manager, gateway, versions, history, started_at };
        Ok(c)
    }

    /// Puts a non-active version into draining. The outcome carries a timer
    /// when remaining streams must be cancelled after the drain timeout.
    pub fn drain(&mut self, version: &VersionId, expected: Option<u64>, now: u64) -> (r: Result<ControlOutcome, ControlError>)
        requires
            old(self).wf(),
        ensures
            final(self).wf(),
            !old(self).expected_ok(expected) ==> (r matches Err(e) && e.is_conflict(mismatch_message(expected->0, old(self).manager.revision)) && *final(self) == *old(self)),
            old(self).expected_ok(expected) && version@ == old(self).config().active_version@ ==> (r matches Err(e) && e.is_conflict("active version cannot be drained directly"@) && *final(self) == *old(self)),
            old(self).expected_ok(expected) && version@ != old(self).config().active_version@ && !old(self).versions@.contains_key(version@) ==> (r matches Err(e) && e.is_conflict("version not found"@) && *final(self) == *old(self)),
            old(self).expected_ok(expected) && version@ != old(self).config().active_version@ && old(self).versions@.contains_key(version@) ==> (r matches Ok(o) && {
                &&& final(self).versions@ == old(self).versions@.insert(version@, old(self).versions@[version@].drained(now))
                &&& final(self).manager == old(self).manager
                &&& final(self).gateway == old(self).gateway
                &&& final(self).history == old(self).history
                &&& final(self).started_at == old(self).started_at
                &&& o.summary@ == "draining="@ + version@
                &&& timer_for(o.drain_timer, version@, old(self).config())
                &&& snapshot_reports(o.snapshot, final(self).config(), final(self).versions@, final(self).history_ids(), final(self).started_at, now)
            }),
    {
        match self.check_expected(expected) {
            Ok(()) => {},
            Err(e) => return Err(e),
        }
        if version.same(&self.manager.current.active_version) {
            return Err(conflict("active version cannot be drained directly"));
        }
        if !self.versions.contains(version) {
            return Err(conflict("version not found"));
        }
        let timer = self.begin_drain(version, now);
        let mut summary = owned("draining=");
        push_str(&mut summary, version.value.as_str());
        Ok(self.outcome(summary, timer, now))
    }

    /// Enters draining and says whether a forced-close timer must be started.
    fn begin_drain(&mut self, version: &VersionId, now: u64) -> (t: Option<DrainTimer>)
        requires
            old(self).wf(),
            old(self).versions@.contains_key(version@),
        ensures
            final(self).versions@ == old(self).versions@.insert(version@, old(self).versions@[version@].drained(now)),
            final(self).manager == old(self).manager,
            final(self).gateway == old(self).gateway,
            final(self).history == old(self).history,
            final(self).started_at == old(self).started_at,
            final(self).wf(),
            timer_for(t, version@, old(self).config()),
    {
        self.versions.drain(version, now);
        if self.manager.current.drain.force_close_streams {
            Some(DrainTimer { version: version.clone(), after_secs: self.manager.current.drain.timeout_secs })
        } else {
            None
        }
    }

    /// What a drain timer does when it fires: cancels the version's remaining
    /// streams if it is still draining.
    pub fn force_close_if_draining(&mut self, version: &VersionId)
        requires
            old(self).wf(),
        ensures
            final(self).wf(),
            final(self).versions@ == if old(self).versions@.contains_key(version@) {
                old(self).versions@.insert(version@, old(self).versions@[version@].force_closed())
            } else {
                old(self).versions@
            },
            final(self).manager == old(self).manager,
            final(self).gateway == old(self).gateway,
            final(self).history == old(self).history,
    {
        self.versions.force_close_if_draining(version);
    }

    /// Stops a non-active version once it has no connections left.
    pub fn stop(&mut self, version: &VersionId, expected: Option<u64>, now: u64) -> (r: Result<ControlOutcome, ControlError>)
        requires
            old(self).wf(),
        ensures
            final(self).wf(),
            !old(self).expected_ok(expected) ==> (r matches Err(e) && e.is_conflict(mismatch_message(expected->0, old(self).manager.revision)) && *final(self) == *old(self)),
            old(self).expected_ok(expected) && version@ == old(self).config().active_version@ ==> (r matches Err(e) && e.is_conflict("active version cannot be stopped"@) && *final(self) == *old(self)),
            old(self).expected_ok(expected) && version@ != old(self).config().active_version@ && !old(self).versions@.contains_key(version@) ==> (r matches Err(e) && e.is_conflict("version not found"@) && *final(self) == *old(self)),
            old(self).expected_ok(expected) && version@ != old(self).config().active_version@ && old(self).versions@.contains_key(version@) && !old(self).versions@[version@].idle() ==> (r matches Err(e) && e.is_conflict("version still has active connections"@) && final(self).versions@ == old(self).versions@ && final(self).manager == old(self).manager && final(self).history == old(self).history),
            old(self).expected_ok(expected) && version@ != old(self).config().active_version@ && old(self).versions@.contains_key(version@) && old(self).versions@[version@].idle() ==> (r matches Ok(o) && {
                &&& final(self).versions@ == old(self).versions@.insert(version@, old(self).versions@[version@].stopped())
                &&& final(self).manager == old(self).manager
                &&& final(self).gateway == old(self).gateway
                &&& final(self).history == old(self).history
                &&& o.summary@ == "stopped="@ + version@
                &&& o.drain_timer is None
                &&& snapshot_reports(o.snapshot, final(self).config(), final(self).versions@, final(self).history_ids(), final(self).started_at, now)
            }),
    {
        match self.check_expected(expected) {
            Ok(()) => {},
            Err(e) => return Err(e),
        }
        if version.same(&self.manager.current.active_version) {
            return Err(conflict("active version cannot be stopped"));
        }
        if !self.versions.contains(version) {
            return Err(conflict("version not found"));
        }
        match self.versions.stop_idle(version) {
            None => Err(conflict("version not found")),
            Some(Err(e)) => Err(ControlError::Conflict(e.message)),
            Some(Ok(())) => {
                let mut summary = owned("stopped=");
                push_str(&mut summary, version.value.as_str());
                Ok(self.outcome(summary, None, now))
            },
        }
    }
}


impl<L: ConfigLoader<RuntimeConfig>, V: ConfigValidator<RuntimeConfig>> GatewayControl<L, V> {
    /// Whether `p` plans a switch to the version `target` made on this state.
    pub open spec fn plans(&self, p: SwitchPlan, target: Seq<char>, push: bool) -> bool {
        &&& p.target@ == target
        &&& p.push_history == push
        &&& p.observed == self.manager.revision
        &&& if target == self.config().active_version@ {
            p.health is None
        } else {
            opt_view(p.health) == Some(self.config().versions@[target].1)
        }
        &&& p.connect_timeout_ms == self.config().server.version_connect_timeout_ms
        &&& p.health_timeout_ms == self.config().server.version_health_timeout_ms
    }

    fn plan(&self, target: VersionId, push: bool) -> (p: SwitchPlan)
        requires
            self.wf(),
            target@ == self.config().active_version@ || self.config().versions@.contains_key(target@),
        ensures
            self.plans(p, target@, push),
    {
        let config = &self.manager.current;
        let health = if target.same(&config.active_version) {
            None
        } else {
            match config.versions.get(&target) {
                Some(v) => Some(v.health.clone()),
                None => None,
            }
        };
        SwitchPlan {
            target,
            push_history: push,
            observed: self.manager.revision,
            health,
            connect_timeout_ms: config.server.version_connect_timeout_ms,
            health_timeout_ms: config.server.version_health_timeout_ms,
        }
    }

    /// First step of a switch: checks the expectation and the target, and
    /// says which health URL must answer before traffic moves.
    pub fn begin_switch(&self, target: VersionId, expected: Option<u64>) -> (r: Result<SwitchPlan, ControlError>)
        requires
            self.wf(),
        ensures
            !self.expected_ok(expected) ==> (r matches Err(e) && e.is_conflict(mismatch_message(expected->0, self.manager.revision))),
            self.expected_ok(expected) && target@ != self.config().active_version@ && !self.config().versions@.contains_key(target@) ==> (r matches Err(e) && e.is_conflict("version is not configured"@)),
            self.expected_ok(expected) && (target@ == self.config().active_version@ || self.config().versions@.contains_key(target@)) ==> (r matches Ok(p) && self.plans(p, target@, true)),
    {
        match self.check_expected(expected) {
            Ok(()) => {},
            Err(e) => return Err(e),
        }
        if !target.same(&self.manager.current.active_version) && !self.manager.current.versions.contains_key(&target) {
            return Err(conflict("version is not configured"));
        }
        Ok(self.plan(target, true))
    }

    /// First step of a rollback: the target is the last remembered active
    /// version, which the rollback consumes.
    pub fn begin_rollback(&self, expected: Option<u64>) -> (r: Result<SwitchPlan, ControlError>)
        requires
            self.wf(),
        ensures
            !self.expected_ok(expected) ==> (r matches Err(e) && e.is_conflict(mismatch_message(expected->0, self.manager.revision))),
            self.expected_ok(expected) && self.history_ids().len() == 0 ==> (r matches Err(e) && e.is_conflict("rollback history is empty"@)),
            self.expected_ok(expected) && self.history_ids().len() > 0 ==> (r matches Ok(p) && self.plans(p, self.history_ids().last(), false)),
    {
        match self.check_expected(expected) {
            Ok(()) => {},
            Err(e) => return Err(e),
        }
        let n = self.history.len();
        if n == 0 {
            return Err(conflict("rollback history is empty"));
        }
        let previous = self.history[n - 1].clone();
        proof {
            assert(self.history_ids()[n - 1] == previous@);
            assert(self.configured().contains(self.history_ids()[n - 1]));
        }
        Ok(self.plan(previous, false))
    }

    /// How a switch plan is decided on this state, given the health result.
    pub open spec fn switch_verdict(&self, plan: SwitchPlan, health: Result<(), HyperError>) -> Verdict {
        let c = self.config();
        let h = self.history_ids();
        let t = plan.target@;
        match health {
            Err(e) => Verdict::Conflict(health_failed_message(e.message@)),
            Ok(_) => if plan.observed != self.manager.revision {
                Verdict::Conflict(mismatch_message(plan.observed, self.manager.revision))
            } else if !plan.push_history && !(h.len() > 0 && h.last() == t) {
                Verdict::Conflict("rollback target changed during health check"@)
            } else if !c.versions@.contains_key(t) {
                Verdict::Conflict("version is not configured"@)
            } else if t == c.active_version@ {
                Verdict::Unchanged
            } else if endpoint_error(c.versions@[t].0) is Some {
                Verdict::Internal(endpoint_error(c.versions@[t].0)->0)
            } else if !self.manager.validator.accepts(&switched(c, plan.target)) {
                Verdict::Rejected
            } else {
                Verdict::Proceed
            },
        }
    }

    /// The history a switch by `plan` leaves.
    pub open spec fn next_history(&self, plan: SwitchPlan) -> Seq<Seq<char>> {
        switch_history(self.history_ids(), self.config().active_version@, plan.push_history, self.configured())
    }

    /// Whether `r` reports the verdict `v` of a switch check, with `state` the
    /// state to save before a switch that goes ahead.
    pub open spec fn check_reports(&self, plan: SwitchPlan, v: Verdict, r: Result<Option<PersistedState>, ControlError>) -> bool {
        match v {
            Verdict::Unchanged => r matches Ok(None),
            Verdict::Proceed => r matches Ok(Some(s)) && s.revision.value == self.config().revision.value + 1
                && s.active_version@ == plan.target@ && ids_of(s.history@) == self.next_history(plan),
            Verdict::Conflict(m) => r matches Err(e) && e.is_conflict(m),
            Verdict::Internal(m) => r matches Err(ControlError::Internal(e)) && e.message@ == m,
            Verdict::Rejected => r matches Err(ControlError::Internal(_)),
        }
    }

    /// Second step of a switch: decides it given the health check's result
    /// and, when it goes ahead, gives the state that must be saved first.
    /// Nothing changes.
    pub fn stage_switch(&mut self, plan: &SwitchPlan, health: &Result<(), HyperError>) -> (r: Result<Option<PersistedState>, ControlError>)
        requires
            old(self).wf(),
            old(self).config().revision.value < u64::MAX,
        ensures
            *final(self) == *old(self),
            old(self).check_reports(*plan, old(self).switch_verdict(*plan, *health), r),
    {
        match health {
            Err(e) => {
                let mut m = owned("version health check failed: ");
                push_str(&mut m, e.message.as_str());
                return Err(ControlError::Conflict(m));
            },
            Ok(()) => {},
        }
        if plan.observed != self.manager.revision {
            let mut m = owned("revision mismatch: expected ");
            push_str(&mut m, u64_to_text(plan.observed).as_str());
            push_str(&mut m, ", current ");
            push_str(&mut m, u64_to_text(self.manager.revision).as_str());
            return Err(ControlError::Conflict(m));
        }
        let n = self.history.len();
        if !plan.push_history && !(n > 0 && self.history[n - 1].same(&plan.target)) {
            return Err(conflict("rollback target changed during health check"));
        }
        proof {
            if n > 0 {
                assert(self.history_ids().last() == self.history@[n - 1]@);
            }
        }
        let entry = match self.manager.current.versions.get(&plan.target) {
            Some(v) => v,
            None => return Err(conflict("version is not configured")),
        };
        if plan.target.same(&self.manager.current.active_version) {
            return Ok(None);
        }
        match crate::endpoint::prepare_endpoint(entry.endpoint.as_str()) {
            Ok(_) => {},
            Err(e) => return Err(ControlError::Internal(e)),
        }
        let ghost before = *self;
        let old_revision = self.manager.current.revision;
        let mut swapped = VersionId { value: plan.target.value.clone() };
        std::mem::swap(&mut swapped, &mut self.manager.current.active_version);
        self.manager.current.revision = ConfigRevision { value: old_revision.value + 1 };
        assert(self.manager.current == switched(before.config(), plan.target));
        let accepted = self.manager.validator.validate(&self.manager.current);
        std::mem::swap(&mut swapped, &mut self.manager.current.active_version);
        self.manager.current.revision = old_revision;
        assert(*self == before);
        match accepted {
            Ok(()) => {},
            Err(e) => return Err(ControlError::Internal(e)),
        }
        let mut history = self.history.clone();
        let ghost h0 = ids_of(history@);
        assert(h0 =~= self.history_ids());
        if plan.push_history {
            history.push(self.manager.current.active_version.clone());
            assert(ids_of(history@) =~= h0.push(self.config().active_version@));
        } else {
            history.pop();
            assert(ids_of(history@) =~= h0.drop_last());
        }
        let ids = self.manager.current.versions.ids();
        normalize_history(&mut history, &ids);
        assert(id_set(ids@) =~= self.configured());
        Ok(Some(PersistedState {
            revision: ConfigRevision { value: old_revision.value + 1 },
            active_version: plan.target.clone(),
            history,
        }))
    }
}


impl<L: ConfigLoader<RuntimeConfig>, V: ConfigValidator<RuntimeConfig>> GatewayControl<L, V> {
    /// The registry after routing to `t` and draining `a` at time `now`.
    pub open spec fn switched_versions(&self, t: Seq<char>, now: u64) -> Map<Seq<char>, RuntimeView> {
        let e = ensured(self.versions@, t);
        let a = self.config().active_version@;
        e.insert(t, e[t].activated()).insert(a, self.versions@[a].drained(now))
    }

    /// Last step of a switch: applies it when the verdict lets it go ahead and
    /// its state was saved (`saved`), and otherwise changes nothing. The
    /// previous active version starts draining; the outcome carries a timer
    /// when its remaining streams must be cancelled later.
    pub fn commit_switch(&mut self, plan: SwitchPlan, health: Result<(), HyperError>, saved: Result<(), HyperError>, now: u64) -> (r: Result<ControlOutcome, ControlError>)
        requires
            old(self).wf(),
            old(self).config().revision.value < u64::MAX,
        ensures
            final(self).wf(),
            ({
                let before = *old(self);
                match before.switch_verdict(plan, health) {
                    Verdict::Unchanged => r matches Ok(o) && *final(self) == before
                        && o.summary@ == "active="@ + plan.target@ && o.drain_timer is None
                        && snapshot_reports(o.snapshot, before.config(), before.versions@, before.history_ids(), before.started_at, now),
                    Verdict::Proceed => match saved {
                        Err(e) => r matches Err(ControlError::Internal(x)) && x == e && *final(self) == before,
                        Ok(_) => r matches Ok(o) && {
                            &&& final(self).config() == switched(before.config(), plan.target)
                            &&& final(self).manager.revision == wrap_inc(before.manager.revision)
                            &&& final(self).manager.loader == before.manager.loader
                            &&& final(self).manager.validator == before.manager.validator
                            &&& final(self).history_ids() == before.next_history(plan)
                            &&& final(self).versions@ == before.switched_versions(plan.target@, now)
                            &&& final(self).started_at == before.started_at
                            &&& o.summary@ == "active="@ + plan.target@
                            &&& timer_for(o.drain_timer, before.config().active_version@, before.config())
                            &&& snapshot_reports(o.snapshot, final(self).config(), final(self).versions@, final(self).history_ids(), final(self).started_at, now)
                        },
                    },
                    Verdict::Conflict(m) => r matches Err(e) && e.is_conflict(m) && *final(self) == before,
                    Verdict::Internal(m) => r matches Err(ControlError::Internal(e)) && e.message@ == m && *final(self) == before,
                    Verdict::Rejected => r matches Err(ControlError::Internal(_)) && *final(self) == before,
                }
            }),
    {
        let ghost before = *self;
        let staged = self.stage_switch(&plan, &health);
        let state = match staged {
            Err(e) => return Err(e),
            Ok(None) => {
                let mut summary = owned("active=");
                push_str(&mut summary, plan.target.value.as_str());
                return Ok(self.outcome(summary, None, now));
            },
            Ok(Some(state)) => state,
        };
        match saved {
            Ok(()) => {},
            Err(e) => return Err(ControlError::Internal(e)),
        }
        let mut summary = owned("active=");
        push_str(&mut summary, plan.target.value.as_str());
        let mut previous = plan.target;
        std::mem::swap(&mut previous, &mut self.manager.current.active_version);
        let next_revision = self.manager.current.revision.value + 1;
        self.manager.current.revision = ConfigRevision { value: next_revision };
        self.manager.revision = wrapping_next(self.manager.revision);
        assert(self.manager.current == switched(before.config(), plan.target));
        let target = match ActiveVersionTarget::build(&self.manager.current, &mut self.versions) {
            Ok(t) => t,
            Err(e) => {
                proof {
                    assert(target_error(self.manager.current) is None);
                }
                return Err(ControlError::Internal(e));
            },
        };
        self.versions.activate(&self.manager.current.active_version);
        self.gateway.swap_active(target);
        assert(previous@ == before.config().active_version@);
        assert(previous@ != plan.target@);
        self.history = state.history;
        proof {
            lemma_normalized(
                if plan.push_history {
                    before.history_ids().push(before.config().active_version@)
                } else if before.history_ids().len() > 0 {
                    before.history_ids().drop_last()
                } else {
                    before.history_ids()
                },
                before.configured(),
            );
        }
        let timer = self.begin_drain(&previous, now);
        proof {
            assert(self.versions@ =~= before.switched_versions(plan.target@, now));
        }
        Ok(self.outcome(summary, timer, now))
    }
}


/// Law: a switch remembers the version it leaves as the newest rollback
/// target, and a rollback right after it restores the history the switch
/// started from (when that history was below the limit, so nothing was evicted).
pub proof fn law_rollback_restores_history(h: Seq<Seq<char>>, a: Seq<char>, x: Seq<char>, configured: Set<Seq<char>>)
    requires
        history_ok(h, configured),
        configured.contains(a),
        h.len() < ROLLBACK_HISTORY_LIMIT,
    ensures
        switch_history(h, a, true, configured).len() > 0,
        switch_history(h, a, true, configured).last() == a,
        switch_history(switch_history(h, a, true, configured), x, false, configured) == h,
{
    let p = h.push(a);
    assert(history_ok(p, configured)) by {
        assert forall|i: int| 0 <= i < p.len() implies configured.contains(#[trigger] p[i]) by {
            if i < h.len() {
                assert(p[i] == h[i]);
            }
        }
    }
    lemma_normalized(p, configured);
    assert(p.drop_last() =~= h);
    lemma_normalized(h, configured);
}

/// Law: at the limit, a switch evicts the oldest rollback target and
/// remembers the version it leaves as the newest.
pub proof fn law_switch_evicts_oldest(h: Seq<Seq<char>>, a: Seq<char>, configured: Set<Seq<char>>)
    requires
        history_ok(h, configured),
        configured.contains(a),
        h.len() == ROLLBACK_HISTORY_LIMIT,
    ensures
        switch_history(h, a, true, configured) == h.skip(1).push(a),
{
    let p = h.push(a);
    lemma_keep_configured(p, configured);
    assert forall|i: int| 0 <= i < p.len() implies configured.contains(#[trigger] p[i]) by {
        if i < h.len() {
            assert(p[i] == h[i]);
        }
    }
    assert(keep_configured(p, configured) == p);
    assert(p.skip(1) =~= h.skip(1).push(a));
}

/// Law: a rollback right after a switch routes back to the version that was
/// active before the switch (its outcome reports `active=` that version),
/// leaves the rollback history as it was (when that history was below the
/// limit), and the two actions advance the revision by two. The states and plans are related as
/// `commit_switch` and `begin_rollback` state it.
pub proof fn law_rollback_undoes_switch<L: ConfigLoader<RuntimeConfig>, V: ConfigValidator<RuntimeConfig>>(
    c0: GatewayControl<L, V>,
    c1: GatewayControl<L, V>,
    c2: GatewayControl<L, V>,
    forward: SwitchPlan,
    back: SwitchPlan,
)
    requires
        c0.wf(),
        c0.history_ids().len() < ROLLBACK_HISTORY_LIMIT,
        forward.push_history,
        c1.config() == switched(c0.config(), forward.target),
        c1.history_ids() == c0.next_history(forward),
        c1.history_ids().len() > 0,
        c1.plans(back, c1.history_ids().last(), false),
        c2.config() == switched(c1.config(), back.target),
        c2.history_ids() == c1.next_history(back),
        c1.manager.revision == wrap_inc(c0.manager.revision),
        c2.manager.revision == wrap_inc(c1.manager.revision),
        c0.manager.revision + 2 <= u64::MAX,
    ensures
        back.target@ == c0.config().active_version@,
        c2.config().active_version@ == c0.config().active_version@,
        c2.history_ids() == c0.history_ids(),
        c2.manager.revision == c0.manager.revision + 2,
{
    let a = c0.config().active_version@;
    assert(c0.configured().contains(a));
    law_rollback_restores_history(c0.history_ids(), a, c1.config().active_version@, c0.configured());
    assert(c1.configured() == c0.configured());
}


/// Law: a switch that goes ahead makes the target active and admitting new
/// requests, and puts the previous active version into draining without
/// cancelling any lease it had granted.
pub proof fn law_switch_keeps_old_leases<L: ConfigLoader<RuntimeConfig>, V: ConfigValidator<RuntimeConfig>>(
    c: GatewayControl<L, V>,
    target: Seq<char>,
    now: u64,
    lease: VersionLease,
)
    requires
        c.wf(),
        target != c.config().active_version@,
        !lease.cancelled_in(c.versions@[c.config().active_version@]),
    ensures
        c.switched_versions(target, now)[target].state == VersionState::Active,
        c.switched_versions(target, now)[c.config().active_version@].state == VersionState::Draining,
        !c.switched_versions(target, now)[c.config().active_version@].admits(),
        !lease.cancelled_in(c.switched_versions(target, now)[c.config().active_version@]),
{
}

/// What a reload waits on after `begin_reload`: the configuration loaded for `next_revision`.
pub struct ReloadPlan {
    /// The revision the reload was planned at.
    pub observed: u64,
    /// The revision the loaded configuration must carry.
    pub next_revision: ConfigRevision,
}

/// A loaded configuration kept on the current active version, and the
/// health URL of that version that must answer before it is installed.
pub struct StagedReload {
    /// The configuration to install.
    pub next: RuntimeConfig,
    /// The revision the reload was planned at.
    pub observed: u64,
    /// The active version's health URL under the new configuration.
    pub health: String,
    /// Connect timeout of the probe, in milliseconds.
    pub connect_timeout_ms: u64,
    /// Overall timeout of the probe, in milliseconds.
    pub health_timeout_ms: u64,
}

/// A loaded configuration kept on the active version of `c`.
pub open spec fn kept_active(n: RuntimeConfig, c: RuntimeConfig) -> RuntimeConfig {
    RuntimeConfig { active_version: c.active_version, ..n }
}

/// The registry `m` with a fresh runtime for every identifier of `keys` it lacks.
pub open spec fn ensured_all(m: Map<Seq<char>, RuntimeView>, keys: Set<Seq<char>>) -> Map<Seq<char>, RuntimeView> {
    Map::new(
        |k: Seq<char>| m.contains_key(k) || keys.contains(k),
        |k: Seq<char>|
            if m.contains_key(k) {
                m[k]
            } else {
                RuntimeView::fresh()
            },
    )
}

/// Whether removing version `k` by installing `n` is refused: it is still running.
pub open spec fn blocks(reg: Map<Seq<char>, RuntimeView>, n: RuntimeConfig, k: Seq<char>) -> bool {
    &&& reg.contains_key(k)
    &&& reg[k].state != VersionState::Stopped
    &&& !n.versions@.contains_key(k)
}

/// The first (in identifier order) running version that `n` would remove.
pub open spec fn first_blocker(reg: Map<Seq<char>, RuntimeView>, n: RuntimeConfig) -> Seq<char> {
    choose|k: Seq<char>| blocks(reg, n, k) && forall|j: Seq<char>| #[trigger] blocks(reg, n, j) ==> !seq_lt(j, k)
}

/// The text of a failed health check before a reload.
pub open spec fn reload_health_message(e: Seq<char>) -> Seq<char> {
    "active version health check failed: "@ + e
}

fn ensure_all(versions: &mut VersionRegistry, ids: &Vec<VersionId>)
    requires
        old(versions).wf(),
    ensures
        final(versions).wf(),
        final(versions)@ == ensured_all(old(versions)@, id_set(ids@)),
{
    let ghost start = versions@;
    let mut i: usize = 0;
    while i < ids.len()
        invariant
            i <= ids@.len(),
            versions.wf(),
            versions@ == ensured_all(start, id_set(ids@.take(i as int))),
        decreases ids.len() - i,
    {
        versions.ensure(&ids[i]);
        proof {
            let a = id_set(ids@.take(i as int));
            let b = id_set(ids@.take(i + 1));
            assert forall|k: Seq<char>| b.contains(k) <==> a.contains(k) || k == ids@[i as int]@ by {
                if b.contains(k) {
                    let x = choose|x: int| 0 <= x < ids@.take(i + 1).len() && #[trigger] ids@.take(i + 1)[x]@ == k;
                    if x < i {
                        assert(ids@.take(i as int)[x]@ == k);
                    }
                }
                if a.contains(k) {
                    let x = choose|x: int| 0 <= x < ids@.take(i as int).len() && #[trigger] ids@.take(i as int)[x]@ == k;
                    assert(ids@.take(i + 1)[x]@ == k);
                }
                if k == ids@[i as int]@ {
                    assert(ids@.take(i + 1)[i as int]@ == k);
                }
            }
            assert(versions@ =~= ensured_all(start, b));
        }
        i = i + 1;
    }
    assert(ids@.take(ids@.len() as int) =~= ids@);
}

/// The first version, in identifier order, that installing `n` would remove
/// while it is still running.
fn find_blocker(versions: &VersionRegistry, n: &RuntimeConfig) -> (r: Option<VersionId>)
    requires
        versions.wf(),
        n.wf(),
    ensures
        r is None <==> !exists|k: Seq<char>| blocks(versions@, *n, k),
        r matches Some(k) ==> k@ == first_blocker(versions@, *n),
{
    let snaps = versions.snapshots(0);
    let mut i: usize = 0;
    while i < snaps.len()
        invariant
            i <= snaps@.len(),
            n.wf(),
            forall|a: int| 0 <= a < i ==> !blocks(versions@, *n, #[trigger] snaps@[a].id@),
            forall|a: int| 0 <= a < snaps@.len() ==> #[trigger] versions@.contains_key(snaps@[a].id@)
                && crate::runtime::snapshot_of(snaps@[a], versions@[snaps@[a].id@], 0),
            forall|a: int, b: int| 0 <= a < b < snaps@.len() ==> seq_lt(#[trigger] snaps@[a].id@, #[trigger] snaps@[b].id@),
            forall|k: Seq<char>| #[trigger] versions@.contains_key(k) ==> exists|b: int| 0 <= b < snaps@.len() && #[trigger] snaps@[b].id@ == k,
        decreases snaps.len() - i,
    {
        let s = &snaps[i];
        assert(versions@.contains_key(snaps@[i as int].id@));
        let stopped = match s.state {
            VersionState::Stopped => true,
            _ => false,
        };
        if !stopped && !n.versions.contains_key(&s.id) {
            let k = s.id.clone();
            proof {
                assert(blocks(versions@, *n, k@));
                assert forall|j: Seq<char>| #[trigger] blocks(versions@, *n, j) implies !seq_lt(j, k@) by {
                    let b = choose|b: int| 0 <= b < snaps@.len() && #[trigger] snaps@[b].id@ == j;
                    if b < i {
                    } else if b == i {
                        lemma_seq_lt_irreflexive(k@);
                    } else {
                        assert(seq_lt(snaps@[i as int].id@, snaps@[b].id@));
                        if seq_lt(j, k@) {
                            lemma_seq_lt_transitive(j, k@, j);
                            lemma_seq_lt_irreflexive(j);
                        }
                    }
                }
                let m = first_blocker(versions@, *n);
                assert(blocks(versions@, *n, m) && forall|j: Seq<char>| #[trigger] blocks(versions@, *n, j) ==> !seq_lt(j, m));
                if m != k@ {
                    lemma_seq_lt_total(m, k@);
                }
            }
            return Some(k);
        }
        i = i + 1;
    }
    proof {
        assert forall|k: Seq<char>| !blocks(versions@, *n, k) by {
            if versions@.contains_key(k) {
                let b = choose|b: int| 0 <= b < snaps@.len() && #[trigger] snaps@[b].id@ == k;
            }
        }
    }
    None
}

impl<L: ConfigLoader<RuntimeConfig>, V: ConfigValidator<RuntimeConfig>> GatewayControl<L, V> {
    /// First step of a reload: checks the expectation and names the revision
    /// the configuration must be loaded for.
    pub fn begin_reload(&self, expected: Option<u64>) -> (r: Result<ReloadPlan, ControlError>)
        requires
            self.wf(),
            self.manager.revision < u64::MAX,
        ensures
            !self.expected_ok(expected) ==> (r matches Err(e) && e.is_conflict(mismatch_message(expected->0, self.manager.revision))),
            self.expected_ok(expected) ==> (r matches Ok(p) && p.observed == self.manager.revision && p.next_revision.value == self.manager.revision + 1),
    {
        match self.check_expected(expected) {
            Ok(()) => {},
            Err(e) => return Err(e),
        }
        Ok(ReloadPlan { observed: self.manager.revision, next_revision: ConfigRevision { value: self.manager.revision + 1 } })
    }

    /// The registry once every version of a loaded configuration has a runtime.
    pub open spec fn staged_versions(&self, n: RuntimeConfig) -> Map<Seq<char>, RuntimeView> {
        ensured_all(self.versions@, n.versions@.dom())
    }

    /// Second step of a reload: takes the loaded configuration (or the load's
    /// error), keeps it on the current active version, registers its
    /// versions, and checks it; gives the health URL to probe.
    pub fn stage_reload(&mut self, plan: &ReloadPlan, loaded: Result<RuntimeConfig, HyperError>) -> (r: Result<StagedReload, ControlError>)
        requires
            old(self).wf(),
            loaded matches Ok(n) ==> n.wf(),
        ensures
            final(self).wf(),
            final(self).manager == old(self).manager,
            final(self).gateway == old(self).gateway,
            final(self).history == old(self).history,
            final(self).started_at == old(self).started_at,
            ({
                let before = *old(self);
                let c = before.config();
                match loaded {
                    Err(e) => r matches Err(ControlError::Internal(x)) && x == e && *final(self) == before,
                    Ok(l) => if l.server@ != c.server@ {
                        r matches Err(e) && e.is_conflict("server configuration changes require a gateway restart"@) && *final(self) == before
                    } else {
                        let n = kept_active(l, c);
                        &&& final(self).versions@ == before.staged_versions(n)
                        &&& if target_error(n) is Some {
                            r matches Err(ControlError::Internal(e)) && Some(e.message@) == target_error(n)
                        } else if !before.manager.validator.accepts(&n) {
                            r matches Err(ControlError::Internal(_))
                        } else {
                            r matches Ok(s) && s.next == n && s.observed == plan.observed
                                && s.health@ == n.versions@[c.active_version@].1
                                && s.connect_timeout_ms == n.server.version_connect_timeout_ms
                                && s.health_timeout_ms == n.server.version_health_timeout_ms
                        }
                    },
                }
            }),
    {
        let mut next = match loaded {
            Ok(n) => n,
            Err(e) => return Err(ControlError::Internal(e)),
        };
        if !next.server.same_as(&self.manager.current.server) {
            return Err(conflict("server configuration changes require a gateway restart"));
        }
        next.active_version = VersionId { value: self.manager.current.active_version.value.clone() };
        let ids = next.versions.ids();
        ensure_all(&mut self.versions, &ids);
        proof {
            assert(id_set(ids@) =~= next.versions@.dom());
            assert(self.versions@.contains_key(self.config().active_version@));
        }
        match ActiveVersionTarget::build(&next, &mut self.versions) {
            Ok(_) => {},
            Err(e) => return Err(ControlError::Internal(e)),
        }
        assert(self.versions@ == old(self).staged_versions(next));
        match self.manager.validator.validate(&next) {
            Ok(()) => {},
            Err(e) => return Err(ControlError::Internal(e)),
        }
        let health = match next.versions.get(&next.active_version) {
            Some(v) => v.health.clone(),
            None => return Err(conflict("active version is not configured")),
        };
        let connect_timeout_ms = next.server.version_connect_timeout_ms;
        let health_timeout_ms = next.server.version_health_timeout_ms;
        Ok(StagedReload { next, observed: plan.observed, health, connect_timeout_ms, health_timeout_ms })
    }
}


impl<L: ConfigLoader<RuntimeConfig>, V: ConfigValidator<RuntimeConfig>> GatewayControl<L, V> {
    /// How a staged reload is decided on this state, given the health result.
    pub open spec fn reload_verdict(&self, staged: StagedReload, health: Result<(), HyperError>) -> Verdict {
        let c = self.config();
        let n = kept_active(staged.next, c);
        if staged.next.server@ != c.server@ {
            Verdict::Conflict("server configuration changes require a gateway restart"@)
        } else if target_error(n) is Some {
            Verdict::Internal(target_error(n)->0)
        } else if !self.manager.validator.accepts(&n) {
            Verdict::Rejected
        } else {
            match health {
                Err(e) => Verdict::Conflict(reload_health_message(e.message@)),
                Ok(_) => if staged.observed != self.manager.revision {
                    Verdict::Conflict(mismatch_message(staged.observed, self.manager.revision))
                } else if exists|k: Seq<char>| blocks(self.versions@, n, k) {
                    Verdict::Conflict("running version cannot be removed: "@ + first_blocker(self.versions@, n))
                } else {
                    Verdict::Proceed
                },
            }
        }
    }

    /// Whether `r` reports the verdict `v` of a reload check.
    pub open spec fn reload_reports(&self, staged: StagedReload, v: Verdict, r: Result<PersistedState, ControlError>) -> bool {
        let n = kept_active(staged.next, self.config());
        match v {
            Verdict::Proceed => r matches Ok(s) && s.revision == n.revision
                && s.active_version@ == self.config().active_version@
                && ids_of(s.history@) == normalized(self.history_ids(), n.versions@.dom()),
            Verdict::Conflict(m) => r matches Err(e) && e.is_conflict(m),
            Verdict::Internal(m) => r matches Err(ControlError::Internal(e)) && e.message@ == m,
            Verdict::Rejected => r matches Err(ControlError::Internal(_)),
            Verdict::Unchanged => false,
        }
    }

    /// Third step of a reload: decides it given the health check's result
    /// and, when it goes ahead, gives the state that must be saved first.
    /// Nothing changes.
    pub fn check_reload(&mut self, staged: &mut StagedReload, health: &Result<(), HyperError>) -> (r: Result<PersistedState, ControlError>)
        requires
            old(self).wf(),
            old(staged).next.wf(),
        ensures
            *final(self) == *old(self),
            *final(staged) == *old(staged),
            old(self).reload_reports(*old(staged), old(self).reload_verdict(*old(staged), *health), r),
    {
        let ghost c = self.config();
        let ghost n = kept_active(staged.next, c);
        if !staged.next.server.same_as(&self.manager.current.server) {
            return Err(conflict("server configuration changes require a gateway restart"));
        }
        let ghost staged_before = *staged;
        let mut kept = VersionId { value: self.manager.current.active_version.value.clone() };
        std::mem::swap(&mut kept, &mut staged.next.active_version);
        assert(staged.next == n);
        let entry = match staged.next.active_version_config() {
            Ok(e) => e,
            Err(e) => {
                std::mem::swap(&mut kept, &mut staged.next.active_version);
                assert(*staged == staged_before);
                return Err(ControlError::Internal(e));
            },
        };
        match crate::endpoint::prepare_endpoint(entry.endpoint.as_str()) {
            Ok(_) => {},
            Err(e) => {
                std::mem::swap(&mut kept, &mut staged.next.active_version);
                assert(*staged == staged_before);
                return Err(ControlError::Internal(e));
            },
        }
        let accepted = self.manager.validator.validate(&staged.next);
        let ids = staged.next.versions.ids();
        let blocker = find_blocker(&self.versions, &staged.next);
        std::mem::swap(&mut kept, &mut staged.next.active_version);
        assert(*staged == staged_before);
        match accepted {
            Ok(()) => {},
            Err(e) => return Err(ControlError::Internal(e)),
        }
        match health {
            Err(e) => {
                let mut m = owned("active version health check failed: ");
                push_str(&mut m, e.message.as_str());
                return Err(ControlError::Conflict(m));
            },
            Ok(()) => {},
        }
        if staged.observed != self.manager.revision {
            let mut m = owned("revision mismatch: expected ");
            push_str(&mut m, u64_to_text(staged.observed).as_str());
            push_str(&mut m, ", current ");
            push_str(&mut m, u64_to_text(self.manager.revision).as_str());
            return Err(ControlError::Conflict(m));
        }
        match blocker {
            Some(k) => {
                let mut m = owned("running version cannot be removed: ");
                push_str(&mut m, k.value.as_str());
                return Err(ControlError::Conflict(m));
            },
            None => {},
        }
        let mut history = self.history.clone();
        assert(ids_of(history@) =~= self.history_ids());
        normalize_history(&mut history, &ids);
        assert(id_set(ids@) =~= n.versions@.dom());
        Ok(PersistedState {
            revision: staged.next.revision,
            active_version: self.manager.current.active_version.clone(),
            history,
        })
    }

    /// Last step of a reload: installs the staged configuration when the
    /// verdict lets it go ahead and its state was saved (`saved`). Once the
    /// verdict lets it go ahead, versions the new configuration drops are
    /// forgotten even if saving failed; otherwise nothing changes.
    pub fn commit_reload(&mut self, staged: StagedReload, health: Result<(), HyperError>, saved: Result<(), HyperError>, now: u64) -> (r: Result<ControlOutcome, ControlError>)
        requires
            old(self).wf(),
            staged.next.wf(),
        ensures
            final(self).wf(),
            ({
                let before = *old(self);
                let n = kept_active(staged.next, before.config());
                match before.reload_verdict(staged, health) {
                    Verdict::Proceed => {
                        &&& final(self).versions@ == before.staged_versions(n).restrict(n.versions@.dom())
                        &&& match saved {
                            Err(e) => r matches Err(ControlError::Internal(x)) && x == e
                                && final(self).manager == before.manager && final(self).gateway == before.gateway
                                && final(self).history == before.history && final(self).started_at == before.started_at,
                            Ok(_) => r matches Ok(o) && {
                                &&& final(self).config() == n
                                &&& final(self).manager.revision == wrap_inc(before.manager.revision)
                                &&& final(self).manager.loader == before.manager.loader
                                &&& final(self).manager.validator == before.manager.validator
                                &&& final(self).history_ids() == normalized(before.history_ids(), n.versions@.dom())
                                &&& final(self).started_at == before.started_at
                                &&& o.summary@ == "reload=ok"@
                                &&& o.drain_timer is None
                                &&& snapshot_reports(o.snapshot, final(self).config(), final(self).versions@, final(self).history_ids(), final(self).started_at, now)
                            },
                        }
                    },
                    Verdict::Conflict(m) => r matches Err(e) && e.is_conflict(m) && *final(self) == before,
                    Verdict::Internal(m) => r matches Err(ControlError::Internal(e)) && e.message@ == m && *final(self) == before,
                    Verdict::Rejected => r matches Err(ControlError::Internal(_)) && *final(self) == before,
                    Verdict::Unchanged => false,
                }
            }),
    {
        let ghost before = *self;
        let mut staged = staged;
        let state = match self.check_reload(&mut staged, &health) {
            Ok(s) => s,
            Err(e) => return Err(e),
        };
        let mut next = staged.next;
        next.active_version = VersionId { value: self.manager.current.active_version.value.clone() };
        let ghost n = next;
        let ids = next.versions.ids();
        ensure_all(&mut self.versions, &ids);
        proof {
            assert(id_set(ids@) =~= n.versions@.dom());
        }
        self.versions.retain_configured(&ids);
        match saved {
            Ok(()) => {},
            Err(e) => return Err(ControlError::Internal(e)),
        }
        let target = match ActiveVersionTarget::build(&next, &mut self.versions) {
            Ok(t) => t,
            Err(e) => return Err(ControlError::Internal(e)),
        };
        proof {
            assert(self.versions@ == before.staged_versions(n).restrict(n.versions@.dom()));
            lemma_normalized(before.history_ids(), n.versions@.dom());
        }
        self.manager.current = next;
        self.manager.revision = wrapping_next(self.manager.revision);
        self.gateway.swap_active(target);
        self.history = state.history;
        Ok(self.outcome(owned("reload=ok"), None, now))
    }
}


/// The text refusing a persisted active version that is not configured.
pub open spec fn unconfigured_active_message(id: Seq<char>) -> Seq<char> {
    "persisted active version is not configured: "@ + id
}

/// Restores the persisted state on a freshly loaded configuration at
/// startup: the persisted active version must still be configured; the
/// configuration takes the persisted revision and active version, and the
/// history keeps only configured versions.
pub fn restore_startup_state(config: &mut RuntimeConfig, persisted: &mut PersistedState) -> (r: Result<(), HyperError>)
    requires
        old(config).wf(),
    ensures
        r is Ok <==> old(config).versions@.contains_key(old(persisted).active_version@),
        r matches Err(e) ==> e.message@ == unconfigured_active_message(old(persisted).active_version@)
            && *final(config) == *old(config) && *final(persisted) == *old(persisted),
        r is Ok ==> {
            &&& *final(config) == RuntimeConfig {
                revision: old(persisted).revision,
                active_version: old(persisted).active_version,
                ..*old(config)
            }
            &&& final(persisted).revision == old(persisted).revision
            &&& final(persisted).active_version == old(persisted).active_version
            &&& ids_of(final(persisted).history@) == keep_configured(ids_of(old(persisted).history@), old(config).versions@.dom())
        },
{
    if !config.versions.contains_key(&persisted.active_version) {
        let mut m = owned("persisted active version is not configured: ");
        push_str(&mut m, persisted.active_version.value.as_str());
        return Err(HyperError::from_message(m));
    }
    let ids = config.versions.ids();
    let kept = configured_entries(&persisted.history, &ids);
    assert(id_set(ids@) =~= config.versions@.dom());
    persisted.history = kept;
    config.revision = persisted.revision;
    config.active_version = VersionId { value: persisted.active_version.value.clone() };
    Ok(())
}

} // verus!
