//! Runtime configuration schema, the version table, validators, the
//! file-configuration mapping and the configuration snapshot manager.

use vstd::prelude::*;

use crate::error::HyperError;
use crate::extension::ExtensionDescriptor;
use crate::net::{network_of, parse_network, parsed_ip_network, TrustedNetwork};
use crate::request::ConfigRevision;
use crate::text::{owned, push_str};
use crate::version::{holds_id, VersionId};

verus! {

// ---------------------------------------------------------------------------
// Schema
// ---------------------------------------------------------------------------

/// Public HTTP service settings. Timeouts keep the unit the file states them in.
#[derive(Debug, Clone)]
pub struct ServerConfig {
    /// Listen socket address, as text (for example `127.0.0.1:8080`).
    pub listen: String,
    /// Maximum concurrently served inbound connections; `0` disables the limit.
    pub max_connections: usize,
    /// Time allowed for a request line and headers, in milliseconds; `0` disables it.
    pub header_read_timeout_ms: u64,
    /// Time allowed to connect to a version app, in milliseconds; `0` disables it.
    pub version_connect_timeout_ms: u64,
    /// Time allowed until a version app's response headers arrive, in milliseconds.
    pub version_response_header_timeout_ms: u64,
    /// Time allowed for a version health check before switching, in milliseconds.
    pub version_health_timeout_ms: u64,
    /// Time allowed for connections to drain at shutdown, in seconds.
    pub shutdown_timeout_secs: u64,
    /// Direct upstream proxies allowed to supply forwarding headers.
    pub trusted_proxies: Vec<TrustedNetwork>,
}

/// Long-connection draining settings.
#[derive(Debug, Clone)]
pub struct DrainConfig {
    /// How long a draining version waits for its connections, in seconds.
    pub timeout_secs: u64,
    /// Whether remaining streams are cancelled when the timeout passes.
    pub force_close_streams: bool,
}

/// One deployed version.
#[derive(Debug, Clone)]
pub struct VersionConfig {
    /// HTTP entry point of the version app.
    pub endpoint: String,
    /// Health URL that must answer 2xx before traffic moves to the version.
    pub health: String,
}

/// Abstract value of a version entry: (endpoint, health).
pub type VersionConfigView = (Seq<char>, Seq<char>);

impl View for VersionConfig {
    type V = VersionConfigView;

    open spec fn view(&self) -> VersionConfigView {
        (self.endpoint@, self.health@)
    }
}

impl VersionConfig {
    /// A copy of the entry.
    pub fn copy(&self) -> (r: VersionConfig)
        ensures
            r@ == self@,
    {
        VersionConfig { endpoint: self.endpoint.clone(), health: self.health.clone() }
    }
}

impl DrainConfig {
    /// Thirty minutes, without forced closing.
    pub fn default_config() -> (d: DrainConfig)
        ensures
            d.timeout_secs == 1800,
            !d.force_close_streams,
    {
        DrainConfig { timeout_secs: 30 * 60, force_close_streams: false }
    }

    /// A copy of the settings.
    pub fn copy(&self) -> (d: DrainConfig)
        ensures
            d == *self,
    {
        DrainConfig { timeout_secs: self.timeout_secs, force_close_streams: self.force_close_streams }
    }
}

/// Abstract value of the server settings.
pub struct ServerView {
    pub listen: Seq<char>,
    pub max_connections: usize,
    pub header_read_timeout_ms: u64,
    pub version_connect_timeout_ms: u64,
    pub version_response_header_timeout_ms: u64,
    pub version_health_timeout_ms: u64,
    pub shutdown_timeout_secs: u64,
    pub trusted_proxies: Seq<TrustedNetwork>,
}

impl View for ServerConfig {
    type V = ServerView;

    open spec fn view(&self) -> ServerView {
        ServerView {
            listen: self.listen@,
            max_connections: self.max_connections,
            header_read_timeout_ms: self.header_read_timeout_ms,
            version_connect_timeout_ms: self.version_connect_timeout_ms,
            version_response_header_timeout_ms: self.version_response_header_timeout_ms,
            version_health_timeout_ms: self.version_health_timeout_ms,
            shutdown_timeout_secs: self.shutdown_timeout_secs,
            trusted_proxies: self.trusted_proxies@,
        }
    }
}

fn copy_networks(v: &Vec<TrustedNetwork>) -> (r: Vec<TrustedNetwork>)
    ensures
        r@ == v@,
{
    let mut r: Vec<TrustedNetwork> = Vec::new();
    let mut i: usize = 0;
    while i < v.len()
        invariant
            i <= v@.len(),
            r@ == v@.take(i as int),
        decreases v.len() - i,
    {
        let n = &v[i];
        r.push(TrustedNetwork { is_v6: n.is_v6, address: n.address, prefix_len: n.prefix_len });
        assert(v@.take(i + 1) =~= v@.take(i as int).push(v@[i as int]));
        i = i + 1;
    }
    assert(v@.take(v@.len() as int) =~= v@);
    r
}

fn same_networks(a: &Vec<TrustedNetwork>, b: &Vec<TrustedNetwork>) -> (r: bool)
    ensures
        r == (a@ == b@),
{
    if a.len() != b.len() {
        return false;
    }
    let mut i: usize = 0;
    while i < a.len()
        invariant
            a@.len() == b@.len(),
            i <= a@.len(),
            forall|j: int| 0 <= j < i ==> a@[j] == b@[j],
        decreases a.len() - i,
    {
        let x = &a[i];
        let y = &b[i];
        if x.is_v6 != y.is_v6 || x.address != y.address || x.prefix_len != y.prefix_len {
            return false;
        }
        i = i + 1;
    }
    assert(a@ =~= b@);
    true
}

impl ServerConfig {
    /// Listen on `127.0.0.1:8080` with protective limits.
    pub fn default_config() -> (s: ServerConfig)
        ensures
            s.listen@ == "127.0.0.1:8080"@,
            s.max_connections == 4096,
            s.header_read_timeout_ms == 30_000,
            s.version_connect_timeout_ms == 5_000,
            s.version_response_header_timeout_ms == 300_000,
            s.version_health_timeout_ms == 5_000,
            s.shutdown_timeout_secs == 1800,
            s.trusted_proxies@.len() == 0,
    {
        ServerConfig {
            listen: owned("127.0.0.1:8080"),
            max_connections: 4096,
            header_read_timeout_ms: 30 * 1000,
            version_connect_timeout_ms: 5 * 1000,
            version_response_header_timeout_ms: 300 * 1000,
            version_health_timeout_ms: 5 * 1000,
            shutdown_timeout_secs: 30 * 60,
            trusted_proxies: Vec::new(),
        }
    }

    /// A copy of the settings.
    pub fn copy(&self) -> (s: ServerConfig)
        ensures
            s@ == self@,
    {
        ServerConfig {
            listen: self.listen.clone(),
            max_connections: self.max_connections,
            header_read_timeout_ms: self.header_read_timeout_ms,
            version_connect_timeout_ms: self.version_connect_timeout_ms,
            version_response_header_timeout_ms: self.version_response_header_timeout_ms,
            version_health_timeout_ms: self.version_health_timeout_ms,
            shutdown_timeout_secs: self.shutdown_timeout_secs,
            trusted_proxies: copy_networks(&self.trusted_proxies),
        }
    }

    /// Whether two server settings are equal.
    pub fn same_as(&self, other: &ServerConfig) -> (r: bool)
        ensures
            r == (self@ == other@),
    {
        self.listen == other.listen && self.max_connections == other.max_connections
            && self.header_read_timeout_ms == other.header_read_timeout_ms
            && self.version_connect_timeout_ms == other.version_connect_timeout_ms
            && self.version_response_header_timeout_ms == other.version_response_header_timeout_ms
            && self.version_health_timeout_ms == other.version_health_timeout_ms
            && self.shutdown_timeout_secs == other.shutdown_timeout_secs && same_networks(
            &self.trusted_proxies,
            &other.trusted_proxies,
        )
    }
}

// ---------------------------------------------------------------------------
// Version table
// ---------------------------------------------------------------------------

/// No identifier occurs twice.
spec fn unique_keys(s: Seq<(VersionId, VersionConfig)>) -> bool {
    forall|i: int, j: int| 0 <= i < j < s.len() ==> #[trigger] s[i].0@ != #[trigger] s[j].0@
}

spec fn has_key(s: Seq<(VersionId, VersionConfig)>, k: Seq<char>) -> bool {
    exists|i: int| 0 <= i < s.len() && #[trigger] s[i].0@ == k
}

spec fn key_index(s: Seq<(VersionId, VersionConfig)>, k: Seq<char>) -> int {
    choose|i: int| 0 <= i < s.len() && #[trigger] s[i].0@ == k
}

spec fn table_map(s: Seq<(VersionId, VersionConfig)>) -> Map<Seq<char>, VersionConfigView> {
    Map::new(|k: Seq<char>| has_key(s, k), |k: Seq<char>| s[key_index(s, k)].1@)
}

proof fn lemma_table_at(s: Seq<(VersionId, VersionConfig)>, i: int)
    requires
        unique_keys(s),
        0 <= i < s.len(),
    ensures
        table_map(s).contains_key(s[i].0@),
        table_map(s)[s[i].0@] == s[i].1@,
{
    let k = s[i].0@;
    assert(has_key(s, k));
    let j = key_index(s, k);
    assert(0 <= j < s.len() && s[j].0@ == k);
    if j < i {
    } else if i < j {
    }
}

/// Version id to version entry, without duplicate ids.
#[derive(Debug, Clone)]
pub struct VersionTable {
    /// Entries in insertion order.
    entries: Vec<(VersionId, VersionConfig)>,
}

impl View for VersionTable {
    type V = Map<Seq<char>, VersionConfigView>;

    closed spec fn view(&self) -> Map<Seq<char>, VersionConfigView> {
        table_map(self.entries@)
    }
}

impl VersionTable {
    /// Entries in insertion order.
    pub closed spec fn entry_seq(&self) -> Seq<(VersionId, VersionConfig)> {
        self.entries@
    }

    /// The table holds each id once.
    pub closed spec fn wf(&self) -> bool {
        unique_keys(self.entries@)
    }

    /// Every entry is listed in the map, and every key has an entry.
    pub proof fn lemma_entries(&self)
        requires
            self.wf(),
        ensures
            forall|i: int|
                0 <= i < self.entry_seq().len() ==> #[trigger] self@.contains_key(
                    self.entry_seq()[i].0@,
                ) && self@[self.entry_seq()[i].0@] == self.entry_seq()[i].1@,
            forall|k: Seq<char>| #[trigger]
                self@.contains_key(k) ==> exists|i: int|
                    0 <= i < self.entry_seq().len() && #[trigger] self.entry_seq()[i].0@ == k,
            self@.dom().finite(),
            self@.len() == self.entry_seq().len(),
    {
        let s = self.entries@;
        assert forall|i: int| 0 <= i < s.len() implies #[trigger] self@.contains_key(s[i].0@)
            && self@[s[i].0@] == s[i].1@ by {
            lemma_table_at(s, i);
        }
        assert forall|k: Seq<char>| #[trigger] self@.contains_key(k) implies exists|i: int|
            0 <= i < self.entry_seq().len() && #[trigger] self.entry_seq()[i].0@ == k by {
            let i = key_index(s, k);
            assert(has_key(s, k));
            assert(0 <= i < s.len() && s[i].0@ == k);
            assert(self.entry_seq()[i].0@ == k);
        }
        let ids = Seq::new(s.len(), |i: int| s[i].0@);
        assert(self@.dom() =~= ids.to_set()) by {
            assert forall|k: Seq<char>| self@.dom().contains(k) <==> ids.to_set().contains(k) by {
                if self@.dom().contains(k) {
                    let a = key_index(s, k);
                    assert(ids[a] == k);
                }
                if ids.to_set().contains(k) {
                    let a = choose|a: int| 0 <= a < ids.len() && ids[a] == k;
                    assert(s[a].0@ == k);
                }
            }
        }
        assert(ids.no_duplicates()) by {
            assert forall|a: int, b: int| 0 <= a < ids.len() && 0 <= b < ids.len() && a != b
                implies ids[a] != ids[b] by {
                if a < b {
                    assert(s[a].0@ != s[b].0@);
                } else {
                    assert(s[b].0@ != s[a].0@);
                }
            }
        }
        ids.unique_seq_to_set();
    }

    /// Entries hold distinct ids.
    pub proof fn lemma_distinct(&self, a: int, b: int)
        requires
            self.wf(),
            0 <= a < self.entry_seq().len(),
            0 <= b < self.entry_seq().len(),
            a != b,
        ensures
            self.entry_seq()[a].0@ != self.entry_seq()[b].0@,
    {
        if a > b {
            assert(self.entries@[b].0@ != self.entries@[a].0@);
        }
    }

    /// An empty table.
    pub fn new() -> (t: VersionTable)
        ensures
            t.wf(),
            t@ == Map::<Seq<char>, VersionConfigView>::empty(),
    {
        let t = VersionTable { entries: Vec::new() };
        assert(t@ =~= Map::<Seq<char>, VersionConfigView>::empty());
        t
    }

    fn position(&self, id: &VersionId) -> (r: Option<usize>)
        requires
            self.wf(),
        ensures
            r is None <==> !self@.contains_key(id@),
            r matches Some(i) ==> i < self.entries@.len() && self.entries@[i as int].0@ == id@,
    {
        let mut i: usize = 0;
        while i < self.entries.len()
            invariant
                i <= self.entries@.len(),
                forall|j: int| 0 <= j < i ==> self.entries@[j].0@ != id@,
            decreases self.entries.len() - i,
        {
            if self.entries[i].0.same(id) {
                return Some(i);
            }
            i = i + 1;
        }
        None
    }

    /// Number of versions.
    pub fn len(&self) -> (n: usize)
        requires
            self.wf(),
        ensures
            n == self@.len(),
    {
        proof {
            self.lemma_entries();
        }
        self.entries.len()
    }

    /// Whether a version is configured.
    pub fn contains_key(&self, id: &VersionId) -> (r: bool)
        requires
            self.wf(),
        ensures
            r == self@.contains_key(id@),
    {
        self.position(id).is_some()
    }

    /// The entry of a version, if configured.
    pub fn get(&self, id: &VersionId) -> (r: Option<&VersionConfig>)
        requires
            self.wf(),
        ensures
            r is None <==> !self@.contains_key(id@),
            r matches Some(c) ==> c@ == self@[id@],
    {
        match self.position(id) {
            Some(i) => {
                proof {
                    lemma_table_at(self.entries@, i as int);
                }
                Some(&self.entries[i].1)
            },
            None => None,
        }
    }

    /// Sets the entry of a version, replacing an existing one.
    pub fn insert(&mut self, id: VersionId, config: VersionConfig)
        requires
            old(self).wf(),
        ensures
            final(self).wf(),
            final(self)@ == old(self)@.insert(id@, config@),
    {
        let ghost s = self.entries@;
        let ghost k = id@;
        let ghost v = config@;
        match self.position(&id) {
            Some(i) => {
                self.entries.set(i, (id, config));
                proof {
                    let t = self.entries@;
                    assert(t =~= s.update(i as int, t[i as int]));
                    assert(unique_keys(t)) by {
                        assert forall|a: int, b: int| 0 <= a < b < t.len() implies #[trigger] t[a].0@
                            != #[trigger] t[b].0@ by {
                            assert(t[a].0@ == s[a].0@ && t[b].0@ == s[b].0@);
                        }
                    }
                    assert(table_map(t) =~= table_map(s).insert(k, v)) by {
                        assert forall|q: Seq<char>| has_key(t, q) == has_key(s, q) by {
                            if has_key(t, q) {
                                let a = key_index(t, q);
                                assert(s[a].0@ == q);
                            }
                            if has_key(s, q) {
                                let a = key_index(s, q);
                                assert(t[a].0@ == q);
                            }
                        }
                        assert forall|q: Seq<char>| #[trigger] table_map(t).contains_key(q) implies table_map(t)[q]
                            == table_map(s).insert(k, v)[q] by {
                            let a = key_index(t, q);
                            lemma_table_at(t, a);
                            if a != i {
                                lemma_table_at(s, a);
                            }
                        }
                    }
                }
            },
            None => {
                self.entries.push((id, config));
                proof {
                    let t = self.entries@;
                    assert(t =~= s.push(t.last()));
                    assert(unique_keys(t)) by {
                        assert forall|a: int, b: int| 0 <= a < b < t.len() implies #[trigger] t[a].0@
                            != #[trigger] t[b].0@ by {
                            if b == s.len() {
                                assert(t[a].0@ == s[a].0@);
                                assert(!has_key(s, k));
                            }
                        }
                    }
                    assert(table_map(t) =~= table_map(s).insert(k, v)) by {
                        assert forall|q: Seq<char>| has_key(t, q) == (has_key(s, q) || q == k) by {
                            if has_key(t, q) {
                                let a = key_index(t, q);
                                if a < s.len() {
                                    assert(s[a].0@ == q);
                                }
                            }
                            if has_key(s, q) {
                                let a = key_index(s, q);
                                assert(t[a].0@ == q);
                            }
                            if q == k {
                                assert(t[s.len() as int].0@ == q);
                            }
                        }
                        assert forall|q: Seq<char>| #[trigger] table_map(t).contains_key(q) implies table_map(t)[q]
                            == table_map(s).insert(k, v)[q] by {
                            let a = key_index(t, q);
                            lemma_table_at(t, a);
                            if a < s.len() {
                                lemma_table_at(s, a);
                            }
                        }
                    }
                }
            },
        }
    }

    /// Removes the entry of a version if it is configured.
    pub fn remove(&mut self, id: &VersionId)
        requires
            old(self).wf(),
        ensures
            final(self).wf(),
            final(self)@ == old(self)@.remove(id@),
    {
        let ghost s = self.entries@;
        match self.position(id) {
            Some(i) => {
                self.entries.remove(i);
                proof {
                    let t = self.entries@;
                    assert(t =~= s.remove(i as int));
                    assert(unique_keys(t)) by {
                        assert forall|a: int, b: int| 0 <= a < b < t.len() implies #[trigger] t[a].0@
                            != #[trigger] t[b].0@ by {
                            let a2 = if a < i { a } else { a + 1 };
                            let b2 = if b < i { b } else { b + 1 };
                            assert(t[a] == s[a2] && t[b] == s[b2]);
                        }
                    }
                    assert(table_map(t) =~= table_map(s).remove(id@)) by {
                        assert forall|q: Seq<char>| has_key(t, q) == (has_key(s, q) && q != id@) by {
                            if has_key(t, q) {
                                let a = key_index(t, q);
                                let a2 = if a < i { a } else { a + 1 };
                                assert(s[a2].0@ == q);
                                assert(a2 != i);
                            }
                            if has_key(s, q) && q != id@ {
                                let a = key_index(s, q);
                                if a < i {
                                    assert(t[a].0@ == q);
                                } else {
                                    assert(a != i);
                                    assert(t[a - 1].0@ == q);
                                }
                            }
                        }
                        assert forall|q: Seq<char>| #[trigger] table_map(t).contains_key(q) implies table_map(t)[q]
                            == table_map(s).remove(id@)[q] by {
                            let a = key_index(t, q);
                            lemma_table_at(t, a);
                            let a2 = if a < i { a } else { a + 1 };
                            assert(t[a] == s[a2]);
                            lemma_table_at(s, a2);
                        }
                    }
                }
            },
            None => {
                assert(table_map(s) =~= table_map(s).remove(id@));
            },
        }
    }

    /// Number of stored entries (equal to the number of versions).
    pub fn entry_count(&self) -> (n: usize)
        ensures
            n == self.entry_seq().len(),
    {
        self.entries.len()
    }

    /// The id and entry stored at position `i`.
    pub fn entry_at(&self, i: usize) -> (r: (&VersionId, &VersionConfig))
        requires
            i < self.entry_seq().len(),
        ensures
            *r.0 == self.entry_seq()[i as int].0,
            *r.1 == self.entry_seq()[i as int].1,
    {
        (&self.entries[i].0, &self.entries[i].1)
    }

    /// The configured ids, each once.
    pub fn ids(&self) -> (r: Vec<VersionId>)
        requires
            self.wf(),
        ensures
            r@.len() == self@.len(),
            forall|k: Seq<char>| #[trigger] holds_id(r@, k) <==> self@.contains_key(k),
    {
        proof {
            self.lemma_entries();
        }
        let mut r: Vec<VersionId> = Vec::new();
        let mut i: usize = 0;
        while i < self.entries.len()
            invariant
                self.wf(),
                i <= self.entries@.len(),
                r@.len() == i,
                forall|a: int| 0 <= a < i ==> #[trigger] r@[a]@ == self.entries@[a].0@,
            decreases self.entries.len() - i,
        {
            r.push(self.entries[i].0.clone());
            i = i + 1;
        }
        proof {
            assert forall|k: Seq<char>| #[trigger] holds_id(r@, k) <==> self@.contains_key(k) by {
                if holds_id(r@, k) {
                    let a = choose|a: int| 0 <= a < r@.len() && #[trigger] r@[a]@ == k;
                    lemma_table_at(self.entries@, a);
                }
                if self@.contains_key(k) {
                    let a = key_index(self.entries@, k);
                    assert(r@[a]@ == k);
                }
            }
        }
        r
    }

    /// A copy of the table.
    pub fn copy(&self) -> (t: VersionTable)
        requires
            self.wf(),
        ensures
            t.wf(),
            t@ == self@,
            t.entry_seq().len() == self.entry_seq().len(),
            forall|i: int| 0 <= i < self.entry_seq().len() ==> #[trigger] t.entry_seq()[i].0@ == self.entry_seq()[i].0@ && t.entry_seq()[i].1@ == self.entry_seq()[i].1@,
    {
        let mut entries: Vec<(VersionId, VersionConfig)> = Vec::new();
        let mut i: usize = 0;
        while i < self.entries.len()
            invariant
                self.wf(),
                i <= self.entries@.len(),
                entries@.len() == i,
                forall|a: int| 0 <= a < i ==> #[trigger] entries@[a].0@ == self.entries@[a].0@ && entries@[a].1@ == self.entries@[a].1@,
            decreases self.entries.len() - i,
        {
            let id = self.entries[i].0.clone();
            let cfg = self.entries[i].1.copy();
            assert(id@ == self.entries@[i as int].0@);
            entries.push((id, cfg));
            i = i + 1;
        }
        let t = VersionTable { entries };
        proof {
            let a = t.entries@;
            let b = self.entries@;
            assert(unique_keys(a)) by {
                assert forall|x: int, y: int| 0 <= x < y < a.len() implies #[trigger] a[x].0@
                    != #[trigger] a[y].0@ by {
                    assert(b[x].0@ != b[y].0@);
                }
            }
            assert(table_map(a) =~= table_map(b)) by {
                assert forall|q: Seq<char>| has_key(a, q) == has_key(b, q) by {
                    if has_key(a, q) {
                        let x = key_index(a, q);
                        assert(b[x].0@ == q);
                    }
                    if has_key(b, q) {
                        let x = key_index(b, q);
                        assert(a[x].0@ == q);
                    }
                }
                assert forall|q: Seq<char>| #[trigger] table_map(a).contains_key(q) implies table_map(a)[q]
                    == table_map(b)[q] by {
                    let x = key_index(a, q);
                    lemma_table_at(a, x);
                    lemma_table_at(b, x);
                }
            }
        }
        t
    }
}

// ---------------------------------------------------------------------------
// Runtime configuration
// ---------------------------------------------------------------------------

/// Gateway runtime configuration.
#[derive(Debug, Clone)]
pub struct RuntimeConfig {
    /// Revision of this configuration.
    pub revision: ConfigRevision,
    /// Public HTTP service settings.
    pub server: ServerConfig,
    /// The version that receives new requests.
    pub active_version: VersionId,
    /// Deployed versions.
    pub versions: VersionTable,
    /// Draining settings.
    pub drain: DrainConfig,
}

impl RuntimeConfig {
    /// The version table is well formed.
    pub open spec fn wf(&self) -> bool {
        self.versions.wf()
    }

    /// Same configuration values.
    pub open spec fn same_values(&self, other: &RuntimeConfig) -> bool {
        &&& self.revision == other.revision
        &&& self.server@ == other.server@
        &&& self.active_version@ == other.active_version@
        &&& self.versions@ == other.versions@
        &&& self.drain == other.drain
    }

    /// A minimal configuration: revision 1, default server, active `v1`, no versions.
    pub fn minimal() -> (c: RuntimeConfig)
        ensures
            c.wf(),
            c.revision.value == 1,
            c.active_version@ == "v1"@,
            c.versions@ == Map::<Seq<char>, VersionConfigView>::empty(),
            c.drain.timeout_secs == 1800,
            !c.drain.force_close_streams,
            c.server.listen@ == "127.0.0.1:8080"@,
    {
        RuntimeConfig {
            revision: ConfigRevision::initial(),
            server: ServerConfig::default_config(),
            active_version: VersionId::new("v1"),
            versions: VersionTable::new(),
            drain: DrainConfig::default_config(),
        }
    }

    /// The entry of the active version.
    pub fn active_version_config(&self) -> (r: Result<&VersionConfig, HyperError>)
        requires
            self.wf(),
        ensures
            r is Ok <==> self.versions@.contains_key(self.active_version@),
            r matches Ok(c) ==> c@ == self.versions@[self.active_version@],
            r matches Err(e) ==> e.message@ == "active version config not found"@,
    {
        match self.versions.get(&self.active_version) {
            Some(c) => Ok(c),
            None => Err(HyperError::new("active version config not found")),
        }
    }

    /// A copy of the configuration.
    pub fn copy(&self) -> (c: RuntimeConfig)
        requires
            self.wf(),
        ensures
            c.wf(),
            c.same_values(self),
    {
        RuntimeConfig {
            revision: self.revision,
            server: self.server.copy(),
            active_version: self.active_version.clone(),
            versions: self.versions.copy(),
            drain: self.drain.copy(),
        }
    }
}

// ---------------------------------------------------------------------------
// Validators and loaders
// ---------------------------------------------------------------------------

/// Checks that a configuration is safe to apply.
pub trait ConfigValidator<T> {
    /// Which configurations this validator accepts.
    spec fn accepts(&self, config: &T) -> bool;

    /// The validator's extension descriptor.
    fn descriptor(&self) -> (d: ExtensionDescriptor)
        default_ensures
            d.id@ == "config.validator"@,
            d.kind@ == "config-validator"@,
            d.description@ == "validate runtime config"@,
    {
        ExtensionDescriptor::new("config.validator", "config-validator", "validate runtime config")
    }

    /// The message this validator refuses a configuration with.
    spec fn refusal(&self, config: &T) -> Seq<char>;

    /// Accepts or refuses a configuration.
    fn validate(&self, config: &T) -> (r: Result<(), HyperError>)
        ensures
            r is Ok <==> self.accepts(config),
            r matches Err(e) ==> e.message@ == self.refusal(config),
    ;
}

/// Loads a configuration for the next revision.
pub trait ConfigLoader<T> {
    /// The loader's extension descriptor.
    fn descriptor(&self) -> (d: ExtensionDescriptor)
        default_ensures
            d.id@ == "config.loader"@,
            d.kind@ == "config-loader"@,
            d.description@ == "load runtime config"@,
    {
        ExtensionDescriptor::new("config.loader", "config-loader", "load runtime config")
    }

    /// Whether `r` is a result this loader may give for `next_revision`. A
    /// loader that does not say may give any result.
    open spec fn loads(&self, next_revision: ConfigRevision, r: Result<T, HyperError>) -> bool {
        true
    }

    /// Loads a configuration that will carry `next_revision`.
    fn load(&self, next_revision: ConfigRevision) -> (r: Result<T, HyperError>)
        ensures
            self.loads(next_revision, r),
    ;
}

/// The entry point of a local version app listening on `port`.
pub open spec fn sample_endpoint(port: u16) -> Seq<char> {
    "http://127.0.0.1:"@ + crate::text::decimal(port as nat)
}

/// Adds a local version app on `port` with its `/health` URL.
pub fn insert_sample_version(config: &mut RuntimeConfig, id: &str, port: u16)
    requires
        old(config).wf(),
    ensures
        final(config).wf(),
        final(config).versions@ == old(config).versions@.insert(
            id@,
            (sample_endpoint(port), sample_endpoint(port) + "/health"@),
        ),
        final(config).revision == old(config).revision,
        final(config).server == old(config).server,
        final(config).active_version == old(config).active_version,
        final(config).drain == old(config).drain,
{
    let mut endpoint = owned("http://127.0.0.1:");
    push_str(&mut endpoint, crate::text::u64_to_text(port as u64).as_str());
    let mut health = endpoint.clone();
    push_str(&mut health, "/health");
    config.versions.insert(VersionId::new(id), VersionConfig { endpoint, health });
}

/// A runnable configuration for two local version apps, `v1` on port 9101
/// (active) and `v2` on port 9102.
pub fn default_config() -> (c: RuntimeConfig)
    ensures
        c.wf(),
        c.active_version@ == "v1"@,
        c.revision.value == 1,
        c.versions@ == Map::<Seq<char>, VersionConfigView>::empty().insert(
            "v1"@,
            (sample_endpoint(9101), sample_endpoint(9101) + "/health"@),
        ).insert("v2"@, (sample_endpoint(9102), sample_endpoint(9102) + "/health"@)),
{
    let mut config = RuntimeConfig::minimal();
    insert_sample_version(&mut config, "v1", 9101);
    insert_sample_version(&mut config, "v2", 9102);
    config
}

/// The message for the first entry with an empty id or endpoint, if any.
pub open spec fn first_bad_entry(s: Seq<(VersionId, VersionConfig)>) -> Seq<char>
    decreases s.len(),
{
    if s.len() == 0 {
        Seq::empty()
    } else if s[0].0@.len() == 0 {
        "version id is empty"@
    } else if s[0].1.endpoint@.len() == 0 {
        "version endpoint is empty"@
    } else {
        first_bad_entry(s.drop_first())
    }
}

/// The message the default rules refuse a configuration with: the first of a
/// duplicate id, an empty active version, an unconfigured active version, or
/// (in table order) an entry with an empty id or endpoint.
pub open spec fn default_refusal(c: &RuntimeConfig) -> Seq<char> {
    if !c.versions.wf() {
        "version table holds a duplicate id"@
    } else if c.active_version@.len() == 0 {
        "active version is empty"@
    } else if !c.versions@.contains_key(c.active_version@) {
        "active version is not configured"@
    } else {
        first_bad_entry(c.versions.entry_seq())
    }
}

/// The refusal of the first validator of `vs` that refuses `c`.
pub open spec fn chain_refusal<T, V: ConfigValidator<T>>(vs: Seq<V>, c: &T) -> Seq<char>
    decreases vs.len(),
{
    if vs.len() == 0 {
        Seq::empty()
    } else if !vs[0].accepts(c) {
        vs[0].refusal(c)
    } else {
        chain_refusal(vs.drop_first(), c)
    }
}

/// The minimal constraints a gateway configuration must meet.
pub open spec fn default_accepts(c: &RuntimeConfig) -> bool {
    &&& c.active_version@.len() > 0
    &&& c.versions@.contains_key(c.active_version@)
    &&& forall|k: Seq<char>| #[trigger] c.versions@.contains_key(k) ==> k.len() > 0
    &&& forall|k: Seq<char>| #[trigger] c.versions@.contains_key(k) ==> c.versions@[k].0.len() > 0
}

/// Checks the minimal constraints of a gateway configuration.
pub struct DefaultConfigValidator;

impl ConfigValidator<RuntimeConfig> for DefaultConfigValidator {
    open spec fn accepts(&self, config: &RuntimeConfig) -> bool {
        config.wf() && default_accepts(config)
    }

    open spec fn refusal(&self, config: &RuntimeConfig) -> Seq<char> {
        default_refusal(config)
    }

    fn descriptor(&self) -> (d: ExtensionDescriptor)
        ensures
            d.id@ == "config.validator.default"@,
            d.kind@ == "config-validator"@,
            d.description@ == "validate required hypergate config"@,
    {
        ExtensionDescriptor::new(
            "config.validator.default",
            "config-validator",
            "validate required hypergate config",
        )
    }

    fn validate(&self, config: &RuntimeConfig) -> (r: Result<(), HyperError>) {
        validate_runtime_config(config)
    }
}

/// The default validation with its exact error messages.
pub fn validate_runtime_config(config: &RuntimeConfig) -> (r: Result<(), HyperError>)
    ensures
        r is Ok <==> config.wf() && default_accepts(config),
        r matches Err(e) ==> config.wf() ==> {
            if config.active_version@.len() == 0 {
                e.message@ == "active version is empty"@
            } else if !config.versions@.contains_key(config.active_version@) {
                e.message@ == "active version is not configured"@
            } else {
                ||| e.message@ == "version id is empty"@ && exists|k: Seq<char>| #[trigger] config.versions@.contains_key(k) && k.len() == 0
                ||| e.message@ == "version endpoint is empty"@ && exists|k: Seq<char>| #[trigger] config.versions@.contains_key(k) && config.versions@[k].0.len() == 0
            }
        },
        r matches Err(e) ==> e.message@ == default_refusal(config),
{
    if !config.versions.check_wf() {
        return Err(HyperError::new("version table holds a duplicate id"));
    }
    if config.active_version.value.as_str().unicode_len() == 0 {
        return Err(HyperError::new("active version is empty"));
    }
    if !config.versions.contains_key(&config.active_version) {
        return Err(HyperError::new("active version is not configured"));
    }
    proof {
        config.versions.lemma_entries();
        assert(config.versions.entry_seq().skip(0) =~= config.versions.entry_seq());
    }
    let n = config.versions.entry_count();
    let mut i: usize = 0;
    while i < n
        invariant
            config.wf(),
            config.active_version@.len() > 0,
            config.versions@.contains_key(config.active_version@),
            n == config.versions.entry_seq().len(),
            i <= n,
            forall|a: int| 0 <= a < i ==> #[trigger] config.versions.entry_seq()[a].0@.len() > 0
                && config.versions.entry_seq()[a].1.endpoint@.len() > 0,
            first_bad_entry(config.versions.entry_seq()) == first_bad_entry(config.versions.entry_seq().skip(i as int)),
        decreases n - i,
    {
        let (id, version) = config.versions.entry_at(i);
        proof {
            config.versions.lemma_entries();
            let rest = config.versions.entry_seq().skip(i as int);
            assert(rest[0] == config.versions.entry_seq()[i as int]);
            assert(rest.drop_first() =~= config.versions.entry_seq().skip(i + 1));
        }
        if id.value.as_str().unicode_len() == 0 {
            proof {
                assert(config.versions@.contains_key(id@));
            }
            return Err(HyperError::new("version id is empty"));
        }
        if version.endpoint.as_str().unicode_len() == 0 {
            proof {
                assert(config.versions@.contains_key(id@));
                assert(config.versions@[id@].0.len() == 0);
            }
            return Err(HyperError::new("version endpoint is empty"));
        }
        i = i + 1;
    }
    proof {
        assert forall|k: Seq<char>| #[trigger] config.versions@.contains_key(k) implies k.len() > 0
            && config.versions@[k].0.len() > 0 by {
            let a = choose|a: int|
                0 <= a < config.versions.entry_seq().len() && #[trigger] config.versions.entry_seq()[a].0@ == k;
        }
    }
    Ok(())
}

impl VersionTable {
    /// Whether the table holds each id once.
    pub fn check_wf(&self) -> (r: bool)
        ensures
            r == self.wf(),
    {
        let mut i: usize = 0;
        while i < self.entries.len()
            invariant
                i <= self.entries@.len(),
                forall|a: int, b: int| 0 <= a < b < i ==> #[trigger] self.entries@[a].0@ != #[trigger] self.entries@[b].0@,
            decreases self.entries.len() - i,
        {
            let mut j: usize = 0;
            while j < i
                invariant
                    i < self.entries@.len(),
                    j <= i,
                    forall|a: int, b: int| 0 <= a < b < i ==> #[trigger] self.entries@[a].0@ != #[trigger] self.entries@[b].0@,
                    forall|a: int| 0 <= a < j ==> #[trigger] self.entries@[a].0@ != self.entries@[i as int].0@,
                decreases i - j,
            {
                if self.entries[j].0.same(&self.entries[i].0) {
                    return false;
                }
                j = j + 1;
            }
            i = i + 1;
        }
        true
    }
}

/// Runs validators in registration order; the first refusal stops the chain.
pub struct ConfigValidatorChain<V> {
    /// Validators, in the order they run.
    pub validators: Vec<V>,
}

impl<V> ConfigValidatorChain<V> {
    /// An empty chain.
    pub fn new() -> (c: ConfigValidatorChain<V>)
        ensures
            c.validators@ == Seq::<V>::empty(),
    {
        ConfigValidatorChain { validators: Vec::new() }
    }

    /// Appends a validator.
    pub fn push(&mut self, validator: V)
        ensures
            final(self).validators@ == old(self).validators@.push(validator),
    {
        self.validators.push(validator);
    }
}

impl<T, V: ConfigValidator<T>> ConfigValidator<T> for ConfigValidatorChain<V> {
    open spec fn accepts(&self, config: &T) -> bool {
        forall|i: int| 0 <= i < self.validators@.len() ==> #[trigger] self.validators@[i].accepts(config)
    }

    open spec fn refusal(&self, config: &T) -> Seq<char> {
        chain_refusal(self.validators@, config)
    }

    fn descriptor(&self) -> (d: ExtensionDescriptor)
        ensures
            d.id@ == "config.validator.chain"@,
            d.kind@ == "config-validator"@,
            d.description@ == "run config validators in order"@,
    {
        ExtensionDescriptor::new(
            "config.validator.chain",
            "config-validator",
            "run config validators in order",
        )
    }

    fn validate(&self, config: &T) -> (r: Result<(), HyperError>)
        ensures
            r is Err ==> exists|i: int| #![trigger self.validators@[i]]
                0 <= i < self.validators@.len() && !self.validators@[i].accepts(config)
                    && forall|j: int| 0 <= j < i ==> #[trigger] self.validators@[j].accepts(config),
    {
        let mut i: usize = 0;
        assert(self.validators@.skip(0) =~= self.validators@);
        while i < self.validators.len()
            invariant
                i <= self.validators@.len(),
                forall|j: int| 0 <= j < i ==> #[trigger] self.validators@[j].accepts(config),
                chain_refusal(self.validators@, config) == chain_refusal(self.validators@.skip(i as int), config),
            decreases self.validators.len() - i,
        {
            proof {
                let rest = self.validators@.skip(i as int);
                assert(rest[0] == self.validators@[i as int]);
                assert(rest.drop_first() =~= self.validators@.skip(i + 1));
            }
            match self.validators[i].validate(config) {
                Ok(()) => {},
                Err(e) => return Err(e),
            }
            i = i + 1;
        }
        Ok(())
    }
}

/// A loader that returns copies of an in-memory template.
pub struct StaticConfigLoader<T> {
    /// The configuration handed out by every load.
    pub template: T,
}

impl<T: Clone> ConfigLoader<T> for StaticConfigLoader<T> {
    fn descriptor(&self) -> (d: ExtensionDescriptor)
        ensures
            d.id@ == "config.loader.static"@,
            d.kind@ == "config-loader"@,
            d.description@ == "load config from in-memory template"@,
    {
        ExtensionDescriptor::new(
            "config.loader.static",
            "config-loader",
            "load config from in-memory template",
        )
    }

    open spec fn loads(&self, next_revision: ConfigRevision, r: Result<T, HyperError>) -> bool {
        r matches Ok(c) && vstd::pervasive::cloned(self.template, c)
    }

    fn load(&self, next_revision: ConfigRevision) -> (r: Result<T, HyperError>) {
        Ok(self.template.clone())
    }
}

// ---------------------------------------------------------------------------
// Snapshot manager
// ---------------------------------------------------------------------------

/// Holds the current configuration snapshot; a new one replaces it only after
/// it has been loaded and accepted by the validator.
pub struct ConfigManager<T, L, V> {
    /// Current snapshot.
    pub current: T,
    /// Loader used by reloads.
    pub loader: L,
    /// Validator every new snapshot must pass.
    pub validator: V,
    /// Revision of the last applied change.
    pub revision: u64,
}

impl<T, L: ConfigLoader<T>, V: ConfigValidator<T>> ConfigManager<T, L, V> {
    /// The current snapshot.
    pub open spec fn current(&self) -> T {
        self.current
    }

    /// The revision of the last applied change.
    pub open spec fn revision_value(&self) -> u64 {
        self.revision
    }

    /// A manager starting at revision 1.
    pub fn new(initial: T, loader: L, validator: V) -> (m: Self)
        ensures
            m.current() == initial,
            m.revision_value() == 1,
            m.loader == loader,
            m.validator == validator,
    {
        Self::with_revision(initial, loader, validator, ConfigRevision::initial())
    }

    /// A manager starting at a persisted revision.
    pub fn with_revision(initial: T, loader: L, validator: V, revision: ConfigRevision) -> (m: Self)
        ensures
            m.current() == initial,
            m.revision_value() == revision.value,
            m.loader == loader,
            m.validator == validator,
    {
        ConfigManager { current: initial, loader, validator, revision: revision.value }
    }

    /// The current snapshot.
    pub fn snapshot(&self) -> (r: &T)
        ensures
            *r == self.current(),
    {
        &self.current
    }

    /// The revision of the last applied change.
    pub fn revision(&self) -> (r: ConfigRevision)
        ensures
            r.value == self.revision_value(),
    {
        ConfigRevision { value: self.revision }
    }

    /// Installs the outcome of a load for revision `next`: a load error is
    /// returned as it is, a loaded configuration is installed with `next` as
    /// its revision only if the validator accepts it; otherwise nothing changes.
    pub fn install_loaded(&mut self, loaded: Result<T, HyperError>, next: ConfigRevision) -> (r: Result<(), HyperError>)
        ensures
            final(self).loader == old(self).loader,
            final(self).validator == old(self).validator,
            match loaded {
                Err(e) => r == Err::<(), HyperError>(e),
                Ok(n) => (r is Ok <==> old(self).validator.accepts(&n)) && (r is Ok ==> final(self).current() == n)
                    && (r matches Err(e) ==> e.message@ == old(self).validator.refusal(&n)),
            },
            r is Ok ==> final(self).revision_value() == next.value,
            r is Err ==> final(self).current() == old(self).current()
                && final(self).revision_value() == old(self).revision_value(),
    {
        let candidate = match loaded {
            Ok(c) => c,
            Err(e) => return Err(e),
        };
        match self.validator.validate(&candidate) {
            Ok(()) => {},
            Err(e) => return Err(e),
        }
        self.current = candidate;
        self.revision = next.value;
        Ok(())
    }

    /// Loads the configuration for the next revision and installs it with
    /// `install_loaded`; returns the new snapshot. On any failure the current
    /// snapshot and revision stay.
    pub fn reload(&mut self, trigger: ReloadTrigger) -> (r: Result<&T, HyperError>)
        requires
            old(self).revision_value() < u64::MAX,
        ensures
            final(self).loader == old(self).loader,
            final(self).validator == old(self).validator,
            r matches Ok(c) ==> *c == final(self).current()
                && final(self).revision_value() == old(self).revision_value() + 1
                && final(self).validator.accepts(&final(self).current())
                && old(self).loader.loads(
                    ConfigRevision { value: (old(self).revision_value() + 1) as u64 },
                    Ok::<T, HyperError>(final(self).current()),
                ),
            r matches Err(e) ==> old(self).loader.loads(
                ConfigRevision { value: (old(self).revision_value() + 1) as u64 },
                Err::<T, HyperError>(e),
            ) || exists|n: T| #![trigger old(self).validator.refusal(&n)]
                old(self).loader.loads(ConfigRevision { value: (old(self).revision_value() + 1) as u64 }, Ok::<T, HyperError>(n))
                    && !old(self).validator.accepts(&n) && e.message@ == old(self).validator.refusal(&n),
            r is Err ==> final(self).current() == old(self).current()
                && final(self).revision_value() == old(self).revision_value(),
    {
        let next_revision = self.revision().next();
        let loaded = self.loader.load(next_revision);
        match self.install_loaded(loaded, next_revision) {
            Ok(()) => Ok(&self.current),
            Err(e) => Err(e),
        }
    }

    /// Validates and applies a configuration built by a control action.
    pub fn apply(&mut self, next: T) -> (r: Result<(), HyperError>)
        ensures
            final(self).loader == old(self).loader,
            final(self).validator == old(self).validator,
            r is Ok <==> old(self).validator.accepts(&next),
            r is Ok ==> final(self).current() == next && final(self).revision_value() == crate::runtime::wrap_inc(old(self).revision_value()),
            r is Err ==> final(self).current() == old(self).current()
                && final(self).revision_value() == old(self).revision_value(),
    {
        match self.validator.validate(&next) {
            Ok(()) => {},
            Err(e) => return Err(e),
        }
        self.apply_validated(next);
        Ok(())
    }

    /// Applies a configuration the caller has already validated with this
    /// manager's validator.
    pub fn apply_validated(&mut self, next: T)
        ensures
            final(self).loader == old(self).loader,
            final(self).validator == old(self).validator,
            final(self).current() == next,
            final(self).revision_value() == crate::runtime::wrap_inc(old(self).revision_value()),
    {
        self.current = next;
        self.revision = if self.revision == u64::MAX { 0 } else { self.revision + 1 };
    }
}

impl<T: Clone, V: ConfigValidator<T>> ConfigManager<T, StaticConfigLoader<T>, V> {
    /// A manager for a configuration that only ever reloads a copy of its
    /// initial value, checked by `validator`.
    pub fn static_config(initial: T, validator: V) -> (m: Self)
        ensures
            m.current() == initial,
            m.revision_value() == 1,
            vstd::pervasive::cloned(initial, m.loader.template),
            m.validator == validator,
    {
        let template = initial.clone();
        Self::new(initial, StaticConfigLoader { template }, validator)
    }
}

/// What triggered a reload.
pub enum ReloadTrigger {
    /// A watched file changed.
    FileWatch {
        /// The file that changed.
        path: String,
    },
    /// A management command.
    Command {
        /// Where the command came from.
        source: String,
    },
}


// ---------------------------------------------------------------------------
// File configuration
// ---------------------------------------------------------------------------

/// `[server]` table of the configuration file; absent keys are `None`.
pub struct FileServerConfig {
    /// Listen socket address.
    pub listen: Option<String>,
    /// Connection limit.
    pub max_connections: Option<usize>,
    /// Header read timeout in milliseconds.
    pub header_read_timeout_ms: Option<u64>,
    /// Version connect timeout in milliseconds.
    pub version_connect_timeout_ms: Option<u64>,
    /// Version response header timeout in milliseconds.
    pub version_response_header_timeout_ms: Option<u64>,
    /// Version health timeout in milliseconds.
    pub version_health_timeout_ms: Option<u64>,
    /// Shutdown timeout in seconds.
    pub shutdown_timeout_seconds: Option<u64>,
    /// Trusted proxy networks in CIDR notation.
    pub trusted_proxies: Vec<String>,
}

/// `[drain]` table of the configuration file.
pub struct FileDrainConfig {
    /// Drain timeout in seconds.
    pub timeout_seconds: Option<u64>,
    /// Whether to force-close streams after the timeout.
    pub force_close_streams: Option<bool>,
}

/// One `[versions.<id>]` table.
pub struct FileVersionConfig {
    /// Version app entry point.
    pub endpoint: String,
    /// Health URL.
    pub health: String,
}

/// The declarative configuration file.
pub struct FileConfig {
    /// Version that is active when no persisted state exists.
    pub default_version: String,
    /// `[server]`.
    pub server: FileServerConfig,
    /// `[drain]`.
    pub drain: FileDrainConfig,
    /// `[versions.<id>]` tables as (id, table) pairs.
    pub versions: Vec<(String, FileVersionConfig)>,
}

impl FileServerConfig {
    /// An empty `[server]` table.
    pub fn empty() -> (c: FileServerConfig)
        ensures
            c.listen is None,
            c.max_connections is None,
            c.header_read_timeout_ms is None,
            c.version_connect_timeout_ms is None,
            c.version_response_header_timeout_ms is None,
            c.version_health_timeout_ms is None,
            c.shutdown_timeout_seconds is None,
            c.trusted_proxies@.len() == 0,
    {
        FileServerConfig {
            listen: None,
            max_connections: None,
            header_read_timeout_ms: None,
            version_connect_timeout_ms: None,
            version_response_header_timeout_ms: None,
            version_health_timeout_ms: None,
            shutdown_timeout_seconds: None,
            trusted_proxies: Vec::new(),
        }
    }
}

impl FileDrainConfig {
    /// An empty `[drain]` table.
    pub fn empty() -> (c: FileDrainConfig)
        ensures
            c.timeout_seconds is None,
            c.force_close_streams is None,
    {
        FileDrainConfig { timeout_seconds: None, force_close_streams: None }
    }
}

/// The value if present, else the default.
pub open spec fn value_or<T>(o: Option<T>, d: T) -> T {
    match o {
        Some(v) => v,
        None => d,
    }
}

/// Whether `ipnet` parses the text.
pub open spec fn parses(text: Seq<char>) -> bool {
    parsed_ip_network(text) is Some
}

/// The version map the file's tables describe (a later table for the same id wins).
pub open spec fn file_versions_map(s: Seq<(String, FileVersionConfig)>) -> Map<Seq<char>, VersionConfigView>
    decreases s.len(),
{
    if s.len() == 0 {
        Map::empty()
    } else {
        file_versions_map(s.drop_last()).insert(
            s.last().0@,
            (s.last().1.endpoint@, s.last().1.health@),
        )
    }
}

/// The error for a trusted proxy that does not parse.
pub open spec fn invalid_proxy_message(text: Seq<char>) -> Seq<char> {
    "invalid trusted proxy "@ + text + ": invalid IP address syntax"@
}

/// Whether `r` is what mapping `file` onto a runtime configuration for
/// `revision` gives: unset values take their defaults, and a trusted proxy
/// that does not parse refuses the whole file.
pub open spec fn maps_file(file: FileConfig, revision: ConfigRevision, r: Result<RuntimeConfig, HyperError>) -> bool {
    &&& (r is Ok <==> forall|i: int| 0 <= i < file.server.trusted_proxies@.len() ==> #[trigger] parses(file.server.trusted_proxies@[i]@))
    &&& (r matches Err(e) ==> exists|i: int|
        0 <= i < file.server.trusted_proxies@.len() && !#[trigger] parses(file.server.trusted_proxies@[i]@)
            && (forall|j: int| 0 <= j < i ==> #[trigger] parses(file.server.trusted_proxies@[j]@))
            && e.message@ == invalid_proxy_message(file.server.trusted_proxies@[i]@))
    &&& (r matches Ok(c) ==> {
        &&& c.wf()
        &&& c.revision == revision
        &&& c.active_version@ == file.default_version@
        &&& c.server.listen@ == match file.server.listen {
            Some(l) => l@,
            None => "127.0.0.1:8080"@,
        }
        &&& c.server.max_connections == value_or(file.server.max_connections, 4096)
        &&& c.server.header_read_timeout_ms == value_or(file.server.header_read_timeout_ms, 30_000)
        &&& c.server.version_connect_timeout_ms == value_or(file.server.version_connect_timeout_ms, 5_000)
        &&& c.server.version_response_header_timeout_ms == value_or(file.server.version_response_header_timeout_ms, 300_000)
        &&& c.server.version_health_timeout_ms == value_or(file.server.version_health_timeout_ms, 5_000)
        &&& c.server.shutdown_timeout_secs == value_or(file.server.shutdown_timeout_seconds, 1800)
        &&& c.server.trusted_proxies@.len() == file.server.trusted_proxies@.len()
        &&& forall|i: int| 0 <= i < c.server.trusted_proxies@.len() ==> Some(#[trigger] c.server.trusted_proxies@[i]) == network_of(parsed_ip_network(file.server.trusted_proxies@[i]@))
        &&& c.versions@ == file_versions_map(file.versions@)
        &&& c.drain.timeout_secs == value_or(file.drain.timeout_seconds, 1800)
        &&& c.drain.force_close_streams == value_or(file.drain.force_close_streams, false)
    })
}

impl FileConfig {
    /// Maps the file onto the runtime configuration with the given revision.
    pub fn into_runtime(self, revision: ConfigRevision) -> (r: Result<RuntimeConfig, HyperError>)
        ensures
            maps_file(self, revision, r),
    {
        let ghost orig = self.server.trusted_proxies@;
        let FileConfig { default_version, server: file_server, drain: file_drain, versions: file_versions } = self;
        let mut server = ServerConfig::default_config();
        match file_server.listen {
            Some(v) => server.listen = v,
            None => {},
        }
        match file_server.max_connections {
            Some(v) => server.max_connections = v,
            None => {},
        }
        match file_server.header_read_timeout_ms {
            Some(v) => server.header_read_timeout_ms = v,
            None => {},
        }
        match file_server.version_connect_timeout_ms {
            Some(v) => server.version_connect_timeout_ms = v,
            None => {},
        }
        match file_server.version_response_header_timeout_ms {
            Some(v) => server.version_response_header_timeout_ms = v,
            None => {},
        }
        match file_server.version_health_timeout_ms {
            Some(v) => server.version_health_timeout_ms = v,
            None => {},
        }
        match file_server.shutdown_timeout_seconds {
            Some(v) => server.shutdown_timeout_secs = v,
            None => {},
        }
        let texts = &file_server.trusted_proxies;
        let mut proxies: Vec<TrustedNetwork> = Vec::new();
        let mut i: usize = 0;
        while i < texts.len()
            invariant
                texts@ == orig,
                orig == self.server.trusted_proxies@,
                i <= texts@.len(),
                proxies@.len() == i,
                forall|j: int| 0 <= j < i ==> #[trigger] parses(texts@[j]@),
                forall|j: int| 0 <= j < i ==> Some(#[trigger] proxies@[j]) == network_of(parsed_ip_network(texts@[j]@)),
            decreases texts.len() - i,
        {
            match parse_network(texts[i].as_str()) {
                Some(n) => proxies.push(n),
                None => {
                    let mut message = owned("invalid trusted proxy ");
                    push_str(&mut message, texts[i].as_str());
                    push_str(&mut message, ": invalid IP address syntax");
                    assert(message@ =~= invalid_proxy_message(texts@[i as int]@));
                    assert(!parses(texts@[i as int]@));
                    return Err(HyperError::from_message(message));
                },
            }
            i = i + 1;
        }
        server.trusted_proxies = proxies;
        let mut versions = VersionTable::new();
        let mut k: usize = 0;
        while k < file_versions.len()
            invariant
                k <= file_versions@.len(),
                versions.wf(),
                versions@ == file_versions_map(file_versions@.take(k as int)),
            decreases file_versions.len() - k,
        {
            let (id, v) = &file_versions[k];
            versions.insert(
                VersionId::from_string(id.clone()),
                VersionConfig { endpoint: v.endpoint.clone(), health: v.health.clone() },
            );
            assert(file_versions@.take(k + 1).drop_last() =~= file_versions@.take(k as int));
            k = k + 1;
        }
        assert(file_versions@.take(file_versions@.len() as int) =~= file_versions@);
        let mut drain = DrainConfig::default_config();
        match file_drain.timeout_seconds {
            Some(v) => drain.timeout_secs = v,
            None => {},
        }
        match file_drain.force_close_streams {
            Some(v) => drain.force_close_streams = v,
            None => {},
        }
        Ok(RuntimeConfig {
            revision,
            server,
            active_version: VersionId::from_string(default_version),
            versions,
            drain,
        })
    }
}


/// Why a configuration file could not be turned into a `FileConfig`.
pub enum LoadFailure {
    /// Reading the file failed with this message.
    Read(String),
    /// The file is not valid TOML for the schema; the parser's message.
    Parse(String),
}

/// Loads the gateway configuration from a TOML file. Reading and parsing the
/// file is the caller's work; the loader words its failures and maps the
/// parsed file.
pub struct TomlConfigLoader {
    /// The configuration file's path.
    pub path: String,
}

impl TomlConfigLoader {
    /// A loader for the file at `path`.
    pub fn new(path: String) -> (l: TomlConfigLoader)
        ensures
            l.path@ == path@,
    {
        TomlConfigLoader { path }
    }

    /// The configuration file's path.
    pub fn path(&self) -> (p: &str)
        ensures
            p@ == self.path@,
    {
        self.path.as_str()
    }

    /// The configuration for `next_revision` from the outcome of reading and
    /// parsing the file.
    pub fn load_file(&self, file: Result<FileConfig, LoadFailure>, next_revision: ConfigRevision) -> (r: Result<RuntimeConfig, HyperError>)
        ensures
            match file {
                Ok(f) => maps_file(f, next_revision, r),
                Err(LoadFailure::Read(m)) => r matches Err(e) && e.message@ == "read config "@ + self.path@ + " failed: "@ + m@,
                Err(LoadFailure::Parse(m)) => r matches Err(e) && e.message@ == "parse config "@ + self.path@ + " failed: "@ + m@,
            },
    {
        match file {
            Ok(f) => f.into_runtime(next_revision),
            Err(LoadFailure::Read(m)) => {
                let mut t = owned("read config ");
                push_str(&mut t, self.path.as_str());
                push_str(&mut t, " failed: ");
                push_str(&mut t, m.as_str());
                Err(HyperError::from_message(t))
            },
            Err(LoadFailure::Parse(m)) => {
                let mut t = owned("parse config ");
                push_str(&mut t, self.path.as_str());
                push_str(&mut t, " failed: ");
                push_str(&mut t, m.as_str());
                Err(HyperError::from_message(t))
            },
        }
    }
}

} // verus!
