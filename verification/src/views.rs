//! Console views of the gateway: status, configuration, versions and the
//! start banner.

use vstd::prelude::*;

use crate::command::CommandOutput;
use crate::config::{default_accepts, validate_runtime_config, RuntimeConfig, VersionConfigView};
use crate::endpoint::opt_view;
use crate::error::HyperError;
use crate::runtime::VersionSnapshot;
use crate::table::{column, fields_view, render_panel, panel_text, tables_view, Align, Column, Table, TableView};
use crate::text::{decimal, lemma_views_push, owned, push_str, seq_lt, u64_to_text, views, lemma_seq_lt_irreflexive, lemma_seq_lt_total, lemma_seq_lt_transitive, text_lt};
use crate::version::{state_label, VersionState};

verus! {

/// Counts of the versions in a state.
pub open spec fn count_state(s: Seq<VersionSnapshot>, st: VersionState) -> nat
    decreases s.len(),
{
    if s.len() == 0 {
        0
    } else {
        count_state(s.drop_last(), st) + if s.last().state == st {
            1nat
        } else {
            0nat
        }
    }
}

/// Sum of active requests.
pub open spec fn sum_requests(s: Seq<VersionSnapshot>) -> nat
    decreases s.len(),
{
    if s.len() == 0 {
        0
    } else {
        sum_requests(s.drop_last()) + s.last().active_requests as nat
    }
}

/// Sum of active streams.
pub open spec fn sum_streams(s: Seq<VersionSnapshot>) -> nat
    decreases s.len(),
{
    if s.len() == 0 {
        0
    } else {
        sum_streams(s.drop_last()) + s.last().active_streams as nat
    }
}

/// Aggregates shown on the status page.
pub struct VersionSummary {
    /// Known versions.
    pub total: usize,
    /// Draining versions.
    pub draining: usize,
    /// Stopped versions.
    pub stopped: usize,
    /// Active requests over all versions.
    pub active_requests: u64,
    /// Active streams over all versions.
    pub active_streams: u64,
}

proof fn lemma_count_le(s: Seq<VersionSnapshot>, st: VersionState)
    ensures
        count_state(s, st) <= s.len(),
    decreases s.len(),
{
    if s.len() > 0 {
        lemma_count_le(s.drop_last(), st);
    }
}

proof fn lemma_sums_prefix(s: Seq<VersionSnapshot>, k: int)
    requires
        0 <= k <= s.len(),
    ensures
        sum_requests(s.take(k)) <= sum_requests(s),
        sum_streams(s.take(k)) <= sum_streams(s),
    decreases s.len() - k,
{
    if k < s.len() {
        lemma_sums_prefix(s, k + 1);
        assert(s.take(k + 1).drop_last() =~= s.take(k));
    } else {
        assert(s.take(k) =~= s);
    }
}

/// Aggregates version snapshots for the status page.
pub fn version_summary(snapshots: &Vec<VersionSnapshot>) -> (r: VersionSummary)
    requires
        sum_requests(snapshots@) <= u64::MAX,
        sum_streams(snapshots@) <= u64::MAX,
    ensures
        r.total == snapshots@.len(),
        r.draining == count_state(snapshots@, VersionState::Draining),
        r.stopped == count_state(snapshots@, VersionState::Stopped),
        r.active_requests == sum_requests(snapshots@),
        r.active_streams == sum_streams(snapshots@),
{
    let ghost s = snapshots@;
    let mut r = VersionSummary { total: snapshots.len(), draining: 0, stopped: 0, active_requests: 0, active_streams: 0 };
    let mut i: usize = 0;
    assert(s.take(0) =~= Seq::<VersionSnapshot>::empty());
    while i < snapshots.len()
        invariant
            i <= s.len(),
            s == snapshots@,
            sum_requests(s) <= u64::MAX,
            sum_streams(s) <= u64::MAX,
            r.total == s.len(),
            r.draining == count_state(s.take(i as int), VersionState::Draining),
            r.stopped == count_state(s.take(i as int), VersionState::Stopped),
            r.active_requests == sum_requests(s.take(i as int)),
            r.active_streams == sum_streams(s.take(i as int)),
        decreases snapshots.len() - i,
    {
        let x = &snapshots[i];
        proof {
            assert(s.take(i + 1).drop_last() =~= s.take(i as int));
            lemma_count_le(s.take(i + 1), VersionState::Draining);
            lemma_count_le(s.take(i + 1), VersionState::Stopped);
            lemma_sums_prefix(s, i + 1);
        }
        if x.state == VersionState::Draining {
            r.draining = r.draining + 1;
        }
        if x.state == VersionState::Stopped {
            r.stopped = r.stopped + 1;
        }
        r.active_requests = r.active_requests + x.active_requests;
        r.active_streams = r.active_streams + x.active_streams;
        i = i + 1;
    }
    assert(s.take(s.len() as int) =~= s);
    r
}

/// The status summary table.
pub open spec fn status_table(c: RuntimeConfig, s: Seq<VersionSnapshot>) -> TableView {
    TableView {
        title: "Summary"@,
        columns: seq![("active"@, Align::Left), ("revision"@, Align::Right), ("versions"@, Align::Right), ("draining"@, Align::Right), ("stopped"@, Align::Right), ("requests"@, Align::Right), ("streams"@, Align::Right)],
        rows: seq![seq![c.active_version@, decimal(c.revision.value as nat), decimal(s.len()), decimal(count_state(s, VersionState::Draining)), decimal(count_state(s, VersionState::Stopped)), decimal(sum_requests(s)), decimal(sum_streams(s))]],
    }
}

/// Law: in the status summary, the cell under `draining` counts the
/// snapshots in the draining state, the cell under `stopped` those in the
/// stopped state, the cells under `requests` and `streams` are the totals
/// of active requests and streams, and the cells under `active`, `revision`
/// and `versions` show the active version, the configuration revision and
/// the number of snapshots.
pub proof fn law_status_summary_counts(c: RuntimeConfig, s: Seq<VersionSnapshot>, k: int)
    requires
        0 <= k < status_table(c, s).columns.len(),
    ensures
        status_table(c, s).rows.len() == 1,
        status_table(c, s).rows[0].len() == status_table(c, s).columns.len(),
        status_table(c, s).columns[k].0 == "draining"@ ==> status_table(c, s).rows[0][k] == decimal(count_state(s, VersionState::Draining)),
        status_table(c, s).columns[k].0 == "stopped"@ ==> status_table(c, s).rows[0][k] == decimal(count_state(s, VersionState::Stopped)),
        status_table(c, s).columns[k].0 == "requests"@ ==> status_table(c, s).rows[0][k] == decimal(sum_requests(s)),
        status_table(c, s).columns[k].0 == "streams"@ ==> status_table(c, s).rows[0][k] == decimal(sum_streams(s)),
        status_table(c, s).columns[k].0 == "versions"@ ==> status_table(c, s).rows[0][k] == decimal(s.len()),
        status_table(c, s).columns[k].0 == "active"@ ==> status_table(c, s).rows[0][k] == c.active_version@,
        status_table(c, s).columns[k].0 == "revision"@ ==> status_table(c, s).rows[0][k] == decimal(c.revision.value as nat),
{
    reveal_strlit("active");
    reveal_strlit("revision");
    reveal_strlit("versions");
    reveal_strlit("draining");
    reveal_strlit("stopped");
    reveal_strlit("requests");
    reveal_strlit("streams");
    let x = status_table(c, s).columns[k].0;
    // The titles differ in their first or third character.
    assert(x[0] == "active"@[0] && x[2] == "active"@[2] ==> k == 0);
    assert(x[0] == "revision"@[0] && x[2] == "revision"@[2] ==> k == 1);
    assert(x[0] == "versions"@[0] && x[2] == "versions"@[2] ==> k == 2);
    assert(x[0] == "draining"@[0] && x[2] == "draining"@[2] ==> k == 3);
    assert(x[0] == "stopped"@[0] && x[2] == "stopped"@[2] ==> k == 4);
    assert(x[0] == "requests"@[0] && x[2] == "requests"@[2] ==> k == 5);
    assert(x[0] == "streams"@[0] && x[2] == "streams"@[2] ==> k == 6);
}

/// Law: the draining and stopped counts are the number of snapshots in that
/// state: adding a snapshot adds one to the count of its own state only.
pub proof fn law_count_state_push(s: Seq<VersionSnapshot>, x: VersionSnapshot, st: VersionState)
    ensures
        count_state(s.push(x), st) == count_state(s, st) + if x.state == st { 1nat } else { 0nat },
        count_state(Seq::<VersionSnapshot>::empty(), st) == 0,
{
    assert(s.push(x).drop_last() =~= s);
}

fn columns_of(titles: Vec<&'static str>, aligns: Vec<Align>) -> (r: Vec<Column>)
    requires
        titles@.len() == aligns@.len(),
    ensures
        r@.len() == titles@.len(),
        forall|j: int| 0 <= j < r@.len() ==> (#[trigger] r@[j]).title@ == titles@[j]@ && r@[j].align == aligns@[j],
{
    let mut r: Vec<Column> = Vec::new();
    let mut j: usize = 0;
    while j < titles.len()
        invariant
            titles@.len() == aligns@.len(),
            j <= titles@.len(),
            r@.len() == j,
            forall|a: int| 0 <= a < j ==> (#[trigger] r@[a]).title@ == titles@[a]@ && r@[a].align == aligns@[a],
        decreases titles.len() - j,
    {
        r.push(column(titles[j], aligns[j]));
        j = j + 1;
    }
    r
}

/// Whether the request and stream totals of the snapshots fit a `u64`.
pub fn totals_fit(snapshots: &Vec<VersionSnapshot>) -> (r: bool)
    ensures
        r == (sum_requests(snapshots@) <= u64::MAX && sum_streams(snapshots@) <= u64::MAX),
{
    let ghost s = snapshots@;
    let mut requests: u64 = 0;
    let mut streams: u64 = 0;
    let mut i: usize = 0;
    while i < snapshots.len()
        invariant
            i <= s.len(),
            s == snapshots@,
            requests == sum_requests(s.take(i as int)),
            streams == sum_streams(s.take(i as int)),
        decreases snapshots.len() - i,
    {
        assert(s.take(i + 1).drop_last() =~= s.take(i as int));
        proof {
            lemma_sums_prefix(s, i + 1);
        }
        requests = match requests.checked_add(snapshots[i].active_requests) {
            Some(n) => n,
            None => return false,
        };
        streams = match streams.checked_add(snapshots[i].active_streams) {
            Some(n) => n,
            None => return false,
        };
        i = i + 1;
    }
    assert(s.take(s.len() as int) =~= s);
    true
}

/// The output of a control command: its summary and the status panel, or
/// an error when the connection totals do not fit a `u64`.
pub fn status_after_control(summary: String, config: &RuntimeConfig, snapshots: &Vec<VersionSnapshot>) -> (r: Result<CommandOutput, HyperError>)
    ensures
        r is Ok <==> sum_requests(snapshots@) <= u64::MAX && sum_streams(snapshots@) <= u64::MAX,
        r matches Ok(o) ==> o.summary@ == summary@ && o.rendered@ == panel_text(
            "Gateway Status"@,
            Seq::empty(),
            seq![status_table(*config, snapshots@)],
        ),
        r matches Err(e) ==> e.message@ == "active connection totals overflow"@,
{
    if !totals_fit(snapshots) {
        return Err(HyperError::new("active connection totals overflow"));
    }
    Ok(CommandOutput { summary, rendered: format_status(config, snapshots) })
}

/// The gateway status panel.
pub fn format_status(config: &RuntimeConfig, snapshots: &Vec<VersionSnapshot>) -> (s: String)
    requires
        sum_requests(snapshots@) <= u64::MAX,
        sum_streams(snapshots@) <= u64::MAX,
    ensures
        s@ == panel_text("Gateway Status"@, Seq::empty(), seq![status_table(*config, snapshots@)]),
{
    let summary = version_summary(snapshots);
    let columns = columns_of(
        vec!["active", "revision", "versions", "draining", "stopped", "requests", "streams"],
        vec![Align::Left, Align::Right, Align::Right, Align::Right, Align::Right, Align::Right, Align::Right],
    );
    let row = vec![
        config.active_version.value.clone(),
        u64_to_text(config.revision.value),
        u64_to_text(summary.total as u64),
        u64_to_text(summary.draining as u64),
        u64_to_text(summary.stopped as u64),
        u64_to_text(summary.active_requests),
        u64_to_text(summary.active_streams),
    ];
    let ghost want = status_table(*config, snapshots@);
    assert(views(row@) =~= want.rows[0]);
    let table = Table { title: owned("Summary"), columns, rows: vec![row] };
    assert(table@.rows =~= want.rows);
    assert(table@.columns =~= want.columns);
    assert(table@ =~= want);
    let tables = vec![table];
    let fields: Vec<(String, String)> = Vec::new();
    assert(fields_view(fields@) =~= Seq::<(Seq<char>, Seq<char>)>::empty());
    assert(tables_view(tables@) =~= seq![status_table(*config, snapshots@)]);
    render_panel("Gateway Status", fields, tables)
}

/// The drain cell of a version.
pub open spec fn drain_cell(elapsed: Option<u64>, timeout: u64) -> Seq<char> {
    match elapsed {
        Some(v) => if v >= timeout {
            decimal(v as nat) + "s timeout"@
        } else {
            decimal(v as nat) + "s"@
        },
        None => "-"@,
    }
}

/// A configured text, or `-`.
pub open spec fn or_dash(o: Option<Seq<char>>) -> Seq<char> {
    match o {
        Some(t) => t,
        None => "-"@,
    }
}

/// The versions table row of a snapshot.
pub open spec fn version_row(c: RuntimeConfig, s: VersionSnapshot) -> Seq<Seq<char>> {
    let entry = if c.versions@.contains_key(s.id@) {
        Some(c.versions@[s.id@])
    } else {
        None
    };
    seq![
        s.id@,
        state_label(s.state),
        or_dash(match entry { Some(e) => Some(e.0), None => None }),
        or_dash(match entry { Some(e) => Some(e.1), None => None }),
        decimal(s.active_requests as nat),
        decimal(s.active_streams as nat),
        decimal(s.total_requests as nat),
        drain_cell(s.drain_elapsed_secs, c.drain.timeout_secs),
    ]
}

/// The versions table: one row per snapshot, in order.
pub open spec fn versions_table_view(c: RuntimeConfig, s: Seq<VersionSnapshot>) -> TableView {
    TableView {
        title: "Versions"@,
        columns: seq![("version"@, Align::Left), ("state"@, Align::Left), ("endpoint"@, Align::Left), ("health"@, Align::Left), ("requests"@, Align::Right), ("streams"@, Align::Right), ("total"@, Align::Right), ("drain"@, Align::Right)],
        rows: Seq::new(s.len(), |i: int| version_row(c, s[i])),
    }
}

/// Law: every row of the versions table shows its snapshot: the cell under
/// `version` is its id, under `state` its state, under `endpoint` and
/// `health` its configured values (`-` for a version not configured), under
/// `requests`, `streams` and `total` its active requests, active streams and
/// granted requests, and under `drain` the seconds it has been draining,
/// marked once the drain timeout is reached (`-` when it is not draining).
pub proof fn law_versions_table_cells(c: RuntimeConfig, s: Seq<VersionSnapshot>, r: int, k: int)
    requires
        0 <= r < s.len(),
        0 <= k < versions_table_view(c, s).columns.len(),
    ensures
        versions_table_view(c, s).rows.len() == s.len(),
        versions_table_view(c, s).rows[r].len() == versions_table_view(c, s).columns.len(),
        versions_table_view(c, s).columns[k].0 == "version"@ ==> versions_table_view(c, s).rows[r][k] == s[r].id@,
        versions_table_view(c, s).columns[k].0 == "state"@ ==> versions_table_view(c, s).rows[r][k] == state_label(s[r].state),
        versions_table_view(c, s).columns[k].0 == "requests"@ ==> versions_table_view(c, s).rows[r][k] == decimal(s[r].active_requests as nat),
        versions_table_view(c, s).columns[k].0 == "streams"@ ==> versions_table_view(c, s).rows[r][k] == decimal(s[r].active_streams as nat),
        versions_table_view(c, s).columns[k].0 == "total"@ ==> versions_table_view(c, s).rows[r][k] == decimal(s[r].total_requests as nat),
        versions_table_view(c, s).columns[k].0 == "endpoint"@ ==> versions_table_view(c, s).rows[r][k] == if c.versions@.contains_key(s[r].id@) {
            c.versions@[s[r].id@].0
        } else {
            "-"@
        },
        versions_table_view(c, s).columns[k].0 == "health"@ ==> versions_table_view(c, s).rows[r][k] == if c.versions@.contains_key(s[r].id@) {
            c.versions@[s[r].id@].1
        } else {
            "-"@
        },
        versions_table_view(c, s).columns[k].0 == "drain"@ ==> versions_table_view(c, s).rows[r][k] == match s[r].drain_elapsed_secs {
            None => "-"@,
            Some(v) => decimal(v as nat) + if v >= c.drain.timeout_secs { "s timeout"@ } else { "s"@ },
        },
{
    reveal_strlit("version");
    reveal_strlit("state");
    reveal_strlit("endpoint");
    reveal_strlit("health");
    reveal_strlit("requests");
    reveal_strlit("streams");
    reveal_strlit("total");
    reveal_strlit("drain");
    let x = versions_table_view(c, s).columns[k].0;
    // The titles differ in their first or third character.
    assert(x[0] == "version"@[0] && x[2] == "version"@[2] ==> k == 0);
    assert(x[0] == "state"@[0] && x[2] == "state"@[2] ==> k == 1);
    assert(x[0] == "endpoint"@[0] && x[2] == "endpoint"@[2] ==> k == 2);
    assert(x[0] == "health"@[0] && x[2] == "health"@[2] ==> k == 3);
    assert(x[0] == "drain"@[0] && x[2] == "drain"@[2] ==> k == 7);
    assert(x[0] == "requests"@[0] && x[2] == "requests"@[2] ==> k == 4);
    assert(x[0] == "streams"@[0] && x[2] == "streams"@[2] ==> k == 5);
    assert(x[0] == "total"@[0] && x[2] == "total"@[2] ==> k == 6);
}

/// The versions table: endpoint, state and connection counts per version.
pub fn versions_table(config: &RuntimeConfig, snapshots: &Vec<VersionSnapshot>) -> (t: Table)
    requires
        config.wf(),
    ensures
        t@ == versions_table_view(*config, snapshots@),
{
    let mut rows: Vec<Vec<String>> = Vec::new();
    let mut i: usize = 0;
    while i < snapshots.len()
        invariant
            config.wf(),
            i <= snapshots@.len(),
            rows@.len() == i,
            forall|a: int| 0 <= a < i ==> views((#[trigger] rows@[a])@) == version_row(*config, snapshots@[a]),
        decreases snapshots.len() - i,
    {
        let s = &snapshots[i];
        let (endpoint, health) = match config.versions.get(&s.id) {
            Some(v) => (v.endpoint.clone(), v.health.clone()),
            None => (owned("-"), owned("-")),
        };
        let drain = match s.drain_elapsed_secs {
            Some(v) => {
                let mut t = u64_to_text(v);
                if v >= config.drain.timeout_secs {
                    push_str(&mut t, "s timeout");
                } else {
                    push_str(&mut t, "s");
                }
                t
            },
            None => owned("-"),
        };
        let row = vec![
            s.id.value.clone(),
            owned(s.state.as_str()),
            endpoint,
            health,
            u64_to_text(s.active_requests),
            u64_to_text(s.active_streams),
            u64_to_text(s.total_requests),
            drain,
        ];
        assert(views(row@) =~= version_row(*config, snapshots@[i as int]));
        rows.push(row);
        i = i + 1;
    }
    let columns = columns_of(
        vec!["version", "state", "endpoint", "health", "requests", "streams", "total", "drain"],
        vec![Align::Left, Align::Left, Align::Left, Align::Left, Align::Right, Align::Right, Align::Right, Align::Right],
    );
    let t = Table { title: owned("Versions"), columns, rows };
    let ghost want = versions_table_view(*config, snapshots@);
    assert(t@.rows =~= want.rows);
    assert(t@.columns =~= want.columns);
    assert(t@ =~= want);
    t
}

/// Whether `rows` lists the configured versions as `[id, endpoint, health]`,
/// ordered by id.
pub open spec fn endpoint_rows(m: Map<Seq<char>, VersionConfigView>, rows: Seq<Seq<Seq<char>>>) -> bool {
    &&& rows.len() == m.len()
    &&& forall|i: int| 0 <= i < rows.len() ==> (#[trigger] rows[i]).len() == 3 && m.contains_key(rows[i][0])
        && rows[i][1] == m[rows[i][0]].0 && rows[i][2] == m[rows[i][0]].1
    &&& forall|i: int, j: int| 0 <= i < j < rows.len() ==> seq_lt((#[trigger] rows[i])[0], (#[trigger] rows[j])[0])
}

fn insert_by_first(rows: &mut Vec<Vec<String>>, row: Vec<String>)
    requires
        row@.len() >= 1,
        forall|a: int| 0 <= a < old(rows)@.len() ==> (#[trigger] old(rows)@[a])@.len() >= 1,
        forall|a: int, b: int| 0 <= a < b < old(rows)@.len() ==> seq_lt((#[trigger] old(rows)@[a])@[0]@, (#[trigger] old(rows)@[b])@[0]@),
        forall|a: int| 0 <= a < old(rows)@.len() ==> (#[trigger] old(rows)@[a])@[0]@ != row@[0]@,
    ensures
        exists|p: int| 0 <= p <= old(rows)@.len() && final(rows)@ == old(rows)@.insert(p, row),
        forall|a: int, b: int| 0 <= a < b < final(rows)@.len() ==> seq_lt((#[trigger] final(rows)@[a])@[0]@, (#[trigger] final(rows)@[b])@[0]@),
{
    let mut p: usize = 0;
    while p < rows.len() && text_lt(rows[p][0].as_str(), row[0].as_str())
        invariant
            p <= rows@.len(),
            row@.len() >= 1,
            forall|a: int| 0 <= a < rows@.len() ==> (#[trigger] rows@[a])@.len() >= 1,
            forall|a: int| 0 <= a < p ==> seq_lt((#[trigger] rows@[a])@[0]@, row@[0]@),
        decreases rows.len() - p,
    {
        p = p + 1;
    }
    let ghost old_rows = rows@;
    let ghost key = row@[0]@;
    proof {
        if p < old_rows.len() {
            assert(old_rows[p as int]@[0]@ != key);
            lemma_seq_lt_total(old_rows[p as int]@[0]@, key);
        }
    }
    rows.insert(p, row);
    proof {
        assert(rows@ == old_rows.insert(p as int, rows@[p as int]));
        assert forall|a: int, b: int| 0 <= a < b < rows@.len() implies seq_lt((#[trigger] rows@[a])@[0]@, (#[trigger] rows@[b])@[0]@) by {
            if b < p {
            } else if a < p && b == p {
            } else if a < p && b > p {
                assert(rows@[b] == old_rows[b - 1]);
                if b - 1 > p {
                    lemma_seq_lt_transitive(old_rows[a]@[0]@, old_rows[p as int]@[0]@, old_rows[b - 1]@[0]@);
                }
            } else if a == p {
                assert(rows@[b] == old_rows[b - 1]);
                if b - 1 > p {
                    lemma_seq_lt_transitive(key, old_rows[p as int]@[0]@, old_rows[b - 1]@[0]@);
                }
            } else {
                assert(rows@[a] == old_rows[a - 1] && rows@[b] == old_rows[b - 1]);
            }
        }
    }
}

/// The configured versions' endpoints, ordered by id.
pub fn version_endpoints_table(config: &RuntimeConfig) -> (t: Table)
    requires
        config.wf(),
    ensures
        t@.title == "Versions"@,
        t@.columns == seq![("version"@, Align::Left), ("endpoint"@, Align::Left), ("health"@, Align::Left)],
        endpoint_rows(config.versions@, t@.rows),
{
    proof {
        config.versions.lemma_entries();
    }
    let ghost es = config.versions.entry_seq();
    let n = config.versions.entry_count();
    let mut rows: Vec<Vec<String>> = Vec::new();
    let ghost mut origin: Seq<int> = Seq::empty();
    let mut i: usize = 0;
    while i < n
        invariant
            config.wf(),
            es == config.versions.entry_seq(),
            n == es.len(),
            i <= n,
            rows@.len() == i,
            origin.len() == i,
            forall|a: int| 0 <= a < rows@.len() ==> (#[trigger] rows@[a])@.len() == 3,
            forall|a: int, b: int| 0 <= a < b < rows@.len() ==> seq_lt((#[trigger] rows@[a])@[0]@, (#[trigger] rows@[b])@[0]@),
            forall|a: int| 0 <= a < rows@.len() ==> 0 <= #[trigger] origin[a] < i && rows_from(rows@[a], es[origin[a]]),
        decreases n - i,
    {
        let (id, v) = config.versions.entry_at(i);
        let row = vec![id.value.clone(), v.endpoint.clone(), v.health.clone()];
        assert(rows_from(row, es[i as int]));
        proof {
            assert forall|a: int| 0 <= a < rows@.len() implies (#[trigger] rows@[a])@[0]@ != row@[0]@ by {
                assert(0 <= origin[a] < i && rows_from(rows@[a], es[origin[a]]));
                config.versions.lemma_distinct(origin[a], i as int);
            }
        }
        let ghost old_rows = rows@;
        let ghost r = row;
        insert_by_first(&mut rows, row);
        proof {
            let p = choose|p: int| 0 <= p <= old_rows.len() && rows@ == old_rows.insert(p, r);
            let old_origin = origin;
            origin = old_origin.insert(p, i as int);
            assert forall|a: int| 0 <= a < rows@.len() implies (#[trigger] rows@[a])@.len() == 3 by {
                if a < p {
                    assert(rows@[a] == old_rows[a]);
                } else if a > p {
                    assert(rows@[a] == old_rows[a - 1]);
                }
            }
            assert forall|a: int| 0 <= a < rows@.len() implies 0 <= #[trigger] origin[a] < i + 1 && rows_from(rows@[a], es[origin[a]]) by {
                if a < p {
                    assert(rows@[a] == old_rows[a]);
                    assert(origin[a] == old_origin[a]);
                    assert(0 <= old_origin[a] < i);
                } else if a > p {
                    assert(rows@[a] == old_rows[a - 1]);
                    assert(origin[a] == old_origin[a - 1]);
                    assert(0 <= old_origin[a - 1] < i);
                } else {
                    assert(origin[a] == i);
                }
            }
        }
        i = i + 1;
    }
    let columns = columns_of(vec!["version", "endpoint", "health"], vec![Align::Left, Align::Left, Align::Left]);
    let t = Table { title: owned("Versions"), columns, rows };
    proof {
        config.versions.lemma_entries();
        let m = config.versions@;
        let rv = t@.rows;
        assert forall|a: int| 0 <= a < rv.len() implies (#[trigger] rv[a]).len() == 3 && m.contains_key(rv[a][0])
            && rv[a][1] == m[rv[a][0]].0 && rv[a][2] == m[rv[a][0]].1 by {
            assert(0 <= origin[a] < n && rows_from(t.rows@[a], es[origin[a]]));
            assert(rv[a] == views(t.rows@[a]@));
        }
        assert forall|a: int, b: int| 0 <= a < b < rv.len() implies seq_lt((#[trigger] rv[a])[0], (#[trigger] rv[b])[0]) by {
            assert(rv[a] == views(t.rows@[a]@));
            assert(rv[b] == views(t.rows@[b]@));
        }
        assert(t@.columns =~= seq![("version"@, Align::Left), ("endpoint"@, Align::Left), ("health"@, Align::Left)]);
    }
    t
}

/// Whether a row shows the entry `e` as `[id, endpoint, health]`.
pub open spec fn rows_from(row: Vec<String>, e: (crate::version::VersionId, crate::config::VersionConfig)) -> bool {
    &&& row@.len() == 3
    &&& row@[0]@ == e.0@
    &&& row@[1]@ == e.1.endpoint@
    &&& row@[2]@ == e.1.health@
}

/// The configuration panel: server settings and the configured versions.
pub fn format_config(config: &RuntimeConfig) -> (s: String)
    requires
        config.wf(),
    ensures
        exists|t: TableView| t.title == "Versions"@ && endpoint_rows(config.versions@, t.rows)
            && t.columns == seq![("version"@, Align::Left), ("endpoint"@, Align::Left), ("health"@, Align::Left)]
            && s@ == panel_text("Config"@, seq![
                ("listen"@, config.server.listen@),
                ("active"@, config.active_version@),
                ("revision"@, decimal(config.revision.value as nat)),
                ("drain_timeout"@, decimal(config.drain.timeout_secs as nat) + "s"@),
                ("force_close"@, if config.drain.force_close_streams { "true"@ } else { "false"@ }),
            ], seq![t]),
{
    let mut drain = u64_to_text(config.drain.timeout_secs);
    push_str(&mut drain, "s");
    let force = if config.drain.force_close_streams {
        owned("true")
    } else {
        owned("false")
    };
    let fields = vec![
        (owned("listen"), config.server.listen.clone()),
        (owned("active"), config.active_version.value.clone()),
        (owned("revision"), u64_to_text(config.revision.value)),
        (owned("drain_timeout"), drain),
        (owned("force_close"), force),
    ];
    let table = version_endpoints_table(config);
    let ghost tv = table@;
    let tables = vec![table];
    assert(tables_view(tables@) =~= seq![tv]);
    assert(fields_view(fields@) =~= seq![
        ("listen"@, config.server.listen@),
        ("active"@, config.active_version@),
        ("revision"@, decimal(config.revision.value as nat)),
        ("drain_timeout"@, decimal(config.drain.timeout_secs as nat) + "s"@),
        ("force_close"@, if config.drain.force_close_streams { "true"@ } else { "false"@ }),
    ]);
    render_panel("Config", fields, tables)
}

/// Validates a configuration with the default rules and renders the result.
pub fn format_check_result(config: &RuntimeConfig) -> (r: Result<String, HyperError>)
    ensures
        r is Ok <==> config.wf() && default_accepts(config),
        r matches Ok(s) ==> s@ == panel_text("Config Check"@, seq![("result"@, "ok"@)], Seq::empty()),
{
    match validate_runtime_config(config) {
        Ok(()) => {},
        Err(e) => return Err(e),
    }
    let fields = vec![(owned("result"), owned("ok"))];
    let tables: Vec<Table> = Vec::new();
    assert(fields_view(fields@) =~= seq![("result"@, "ok"@)]);
    assert(tables_view(tables@) =~= Seq::<TableView>::empty());
    Ok(render_panel("Config Check", fields, tables))
}

/// The start banner; `listen` is the listen address as text.
pub fn start_output(listen: &str, config: &RuntimeConfig) -> (s: String)
    requires
        config.wf(),
    ensures
        s@ == "HyperGate started  listen=http://"@ + listen@ + "  active="@ + config.active_version@
            + "  versions="@ + decimal(config.versions@.len()),
{
    let mut s = owned("HyperGate started  listen=http://");
    push_str(&mut s, listen);
    push_str(&mut s, "  active=");
    push_str(&mut s, config.active_version.value.as_str());
    push_str(&mut s, "  versions=");
    let n = config.versions.len();
    push_str(&mut s, u64_to_text(n as u64).as_str());
    s
}

} // verus!
