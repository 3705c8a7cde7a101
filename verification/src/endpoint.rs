//! Version endpoints: splitting a configured endpoint URI into the parts the
//! proxy reuses, and the active-version target that new requests are bound to.

use vstd::prelude::*;

use crate::config::RuntimeConfig;
use crate::error::HyperError;
use crate::request::RequestKind;
use crate::runtime::{RuntimeView, VersionLease, VersionRegistry};
use crate::text::{owned, push_str};
use crate::version::VersionId;

verus! {

/// What `http::Uri` parsing of a text gives: its scheme, authority and path,
/// or the parse error's message.
pub uninterp spec fn parsed_uri(text: Seq<char>) -> Result<(Option<Seq<char>>, Option<Seq<char>>, Seq<char>), Seq<char>>;

/// What `http::Uri::builder` gives for a scheme, an authority and a path with
/// query: the URI's text, or the error's message.
pub uninterp spec fn built_uri(scheme: Seq<char>, authority: Seq<char>, path_and_query: Seq<char>) -> Result<Seq<char>, Seq<char>>;

/// The parts of a parsed URI.
pub struct UriParts {
    /// Scheme, if present.
    pub scheme: Option<String>,
    /// Authority, if present.
    pub authority: Option<String>,
    /// Path (empty when the URI has none).
    pub path: String,
}

/// The view of an optional string.
pub open spec fn opt_view(o: Option<String>) -> Option<Seq<char>> {
    match o {
        Some(s) => Some(s@),
        None => None,
    }
}

impl UriParts {
    /// The parts as plain values.
    pub open spec fn parts(self) -> (Option<Seq<char>>, Option<Seq<char>>, Seq<char>) {
        (opt_view(self.scheme), opt_view(self.authority), self.path@)
    }
}

/// Parses a URI with `http::Uri`'s `FromStr` and reads its scheme, authority
/// and path; the contract only ties the result to the named parse of `text`.
#[verifier::external_body]
fn parse_uri(text: &str) -> (r: Result<UriParts, String>)
    ensures
        match r {
            Ok(p) => parsed_uri(text@) == Ok::<(Option<Seq<char>>, Option<Seq<char>>, Seq<char>), Seq<char>>(p.parts()),
            Err(e) => parsed_uri(text@) == Err::<(Option<Seq<char>>, Option<Seq<char>>, Seq<char>), Seq<char>>(e@),
        },
{
    match text.parse::<axum::http::Uri>() {
        Ok(uri) => Ok(UriParts {
            scheme: uri.scheme_str().map(|s| s.to_string()),
            authority: uri.authority().map(|a| a.as_str().to_string()),
            path: uri.path().to_string(),
        }),
        Err(e) => Err(e.to_string()),
    }
}

/// Builds a URI with `http::Uri::builder` from its parts and renders it; the
/// contract only ties the result to the named build of the three texts.
#[verifier::external_body]
fn build_uri(scheme: &str, authority: &str, path_and_query: &str) -> (r: Result<String, String>)
    ensures
        match r {
            Ok(u) => built_uri(scheme@, authority@, path_and_query@) == Ok::<Seq<char>, Seq<char>>(u@),
            Err(e) => built_uri(scheme@, authority@, path_and_query@) == Err::<Seq<char>, Seq<char>>(e@),
        },
{
    match axum::http::Uri::builder().scheme(scheme).authority(authority).path_and_query(
        path_and_query,
    ).build() {
        Ok(uri) => Ok(uri.to_string()),
        Err(e) => Err(e.to_string()),
    }
}

/// A version endpoint split once, so requests do not parse it again.
pub struct PreparedEndpoint {
    /// URI scheme.
    pub scheme: String,
    /// URI authority.
    pub authority: String,
    /// The endpoint's own path prefix, without trailing slashes.
    pub base_path: String,
}

/// `s` without its trailing `/` characters.
pub open spec fn strip_trailing_slashes(s: Seq<char>) -> Seq<char>
    decreases s.len(),
{
    if s.len() > 0 && s.last() == '/' {
        strip_trailing_slashes(s.drop_last())
    } else {
        s
    }
}

/// The path prefix kept for an endpoint path: none for `""` and `"/"`.
pub open spec fn base_path_of(path: Seq<char>) -> Seq<char> {
    if path == Seq::<char>::empty() || path == "/"@ {
        Seq::empty()
    } else {
        strip_trailing_slashes(path)
    }
}

/// The error message of `prepare_endpoint`, if the endpoint text is refused.
pub open spec fn endpoint_error(text: Seq<char>) -> Option<Seq<char>> {
    match parsed_uri(text) {
        Err(e) => Some("invalid version endpoint: "@ + e),
        Ok(p) => if p.0 is None {
            Some("version endpoint missing scheme"@)
        } else if p.1 is None {
            Some("version endpoint missing authority"@)
        } else {
            None
        },
    }
}

/// Whether `p` is the prepared form of the endpoint text.
pub open spec fn prepared_from(p: PreparedEndpoint, text: Seq<char>) -> bool {
    match parsed_uri(text) {
        Ok(parts) => {
            &&& parts.0 == Some(p.scheme@)
            &&& parts.1 == Some(p.authority@)
            &&& p.base_path@ == base_path_of(parts.2)
        },
        Err(_) => false,
    }
}

fn strip_slashes(s: &str) -> (r: String)
    ensures
        r@ == strip_trailing_slashes(s@),
{
    let chars = crate::text::chars_of(s);
    let mut n: usize = chars.len();
    assert(chars@.take(n as int) =~= chars@);
    while n > 0 && chars[n - 1] == '/'
        invariant
            n <= chars@.len(),
            chars@ == s@,
            strip_trailing_slashes(chars@.take(n as int)) == strip_trailing_slashes(s@),
        decreases n,
    {
        assert(chars@.take(n - 1) =~= chars@.take(n as int).drop_last());
        n = n - 1;
    }
    let r = crate::text::string_from_chars(crate::text::slice_range(&chars, 0, n).as_slice());
    proof {
        assert(chars@.subrange(0, n as int) =~= chars@.take(n as int));
    }
    r
}

/// Splits a version endpoint into scheme, authority and path prefix.
pub fn prepare_endpoint(endpoint: &str) -> (r: Result<PreparedEndpoint, HyperError>)
    ensures
        r is Ok <==> endpoint_error(endpoint@) is None,
        r matches Ok(p) ==> prepared_from(p, endpoint@),
        r matches Err(e) ==> Some(e.message@) == endpoint_error(endpoint@),
{
    let parts = match parse_uri(endpoint) {
        Ok(p) => p,
        Err(e) => {
            let mut m = owned("invalid version endpoint: ");
            push_str(&mut m, e.as_str());
            return Err(HyperError::from_message(m));
        },
    };
    let scheme = match parts.scheme {
        Some(s) => s,
        None => return Err(HyperError::new("version endpoint missing scheme")),
    };
    let authority = match parts.authority {
        Some(a) => a,
        None => return Err(HyperError::new("version endpoint missing authority")),
    };
    let path = parts.path.as_str();
    let base_path = if path.unicode_len() == 0 || crate::text::text_eq(path, "/") {
        proof {
            reveal_strlit("/");
            if path@.len() == 0 {
                assert(path@ =~= Seq::<char>::empty());
            }
        }
        String::new()
    } else {
        proof {
            reveal_strlit("/");
            assert(path@ != Seq::<char>::empty());
        }
        strip_slashes(path)
    };
    Ok(PreparedEndpoint { scheme, authority, base_path })
}

/// The path with query sent to the version: the request's own (or `/`),
/// behind the endpoint's path prefix.
pub open spec fn forwarded_path(base_path: Seq<char>, request_path_and_query: Option<Seq<char>>) -> Seq<char> {
    let own = match request_path_and_query {
        Some(pq) => pq,
        None => "/"@,
    };
    base_path + own
}

/// The error message of `build_endpoint_uri`, if any.
pub open spec fn endpoint_uri(p: PreparedEndpoint, request_path_and_query: Option<Seq<char>>) -> Result<Seq<char>, Seq<char>> {
    match built_uri(p.scheme@, p.authority@, forwarded_path(p.base_path@, request_path_and_query)) {
        Ok(u) => Ok(u),
        Err(e) => Err("invalid version endpoint: "@ + e),
    }
}

/// Replaces the request's scheme and host by the version endpoint's, keeping
/// its path and query behind the endpoint's path prefix.
pub fn build_endpoint_uri(endpoint: &PreparedEndpoint, request_path_and_query: Option<&str>) -> (r: Result<String, HyperError>)
    ensures
        match r {
            Ok(u) => endpoint_uri(*endpoint, opt_str_view(request_path_and_query)) == Ok::<Seq<char>, Seq<char>>(u@),
            Err(e) => endpoint_uri(*endpoint, opt_str_view(request_path_and_query)) == Err::<Seq<char>, Seq<char>>(e.message@),
        },
{
    let mut path = endpoint.base_path.clone();
    match request_path_and_query {
        Some(pq) => push_str(&mut path, pq),
        None => {
            push_str(&mut path, "/");
        },
    }
    proof {
        reveal_strlit("/");
    }
    match build_uri(endpoint.scheme.as_str(), endpoint.authority.as_str(), path.as_str()) {
        Ok(u) => Ok(u),
        Err(e) => {
            let mut m = owned("invalid version endpoint: ");
            push_str(&mut m, e.as_str());
            Err(HyperError::from_message(m))
        },
    }
}

/// The view of an optional string slice.
pub open spec fn opt_str_view(o: Option<&str>) -> Option<Seq<char>> {
    match o {
        Some(s) => Some(s@),
        None => None,
    }
}

impl PreparedEndpoint {
    /// A copy of the endpoint.
    pub fn copy(&self) -> (r: PreparedEndpoint)
        ensures
            r == *self,
    {
        let r = PreparedEndpoint {
            scheme: self.scheme.clone(),
            authority: self.authority.clone(),
            base_path: self.base_path.clone(),
        };
        assert(r.scheme@ == self.scheme@ && r.authority@ == self.authority@ && r.base_path@
            == self.base_path@);
        r
    }
}

/// The registry after registering `id` unless it is already known.
pub open spec fn ensured(m: Map<Seq<char>, RuntimeView>, id: Seq<char>) -> Map<Seq<char>, RuntimeView> {
    if m.contains_key(id) {
        m
    } else {
        m.insert(id, RuntimeView::fresh())
    }
}

/// Why no active target can be built for a configuration, if it cannot.
pub open spec fn target_error(c: RuntimeConfig) -> Option<Seq<char>> {
    if !c.versions@.contains_key(c.active_version@) {
        Some("active version config not found"@)
    } else {
        endpoint_error(c.versions@[c.active_version@].0)
    }
}

/// The version new requests are bound to, with its prepared endpoint.
pub struct ActiveVersionTarget {
    /// The active version.
    pub version: VersionId,
    /// Its prepared endpoint.
    pub endpoint: PreparedEndpoint,
}

/// Whether `t` is the target built for configuration `c`.
pub open spec fn target_of(t: ActiveVersionTarget, c: RuntimeConfig) -> bool {
    &&& t.version@ == c.active_version@
    &&& c.versions@.contains_key(c.active_version@)
    &&& prepared_from(t.endpoint, c.versions@[c.active_version@].0)
}

impl ActiveVersionTarget {
    /// Builds the target for the configuration's active version and registers
    /// that version's runtime if it is not known yet.
    pub fn build(config: &RuntimeConfig, versions: &mut VersionRegistry) -> (r: Result<ActiveVersionTarget, HyperError>)
        requires
            config.wf(),
            old(versions).wf(),
        ensures
            final(versions).wf(),
            r is Ok <==> target_error(*config) is None,
            r matches Ok(t) ==> target_of(t, *config) && final(versions)@ == ensured(
                old(versions)@,
                config.active_version@,
            ),
            r matches Err(e) ==> Some(e.message@) == target_error(*config) && final(versions)@
                == old(versions)@,
    {
        let entry = match config.active_version_config() {
            Ok(c) => c,
            Err(e) => return Err(e),
        };
        let endpoint = match prepare_endpoint(entry.endpoint.as_str()) {
            Ok(p) => p,
            Err(e) => return Err(e),
        };
        versions.ensure(&config.active_version);
        Ok(ActiveVersionTarget { version: config.active_version.clone(), endpoint })
    }

    /// A copy of the target.
    pub fn copy(&self) -> (r: ActiveVersionTarget)
        ensures
            r.version@ == self.version@,
            r.endpoint == self.endpoint,
    {
        ActiveVersionTarget { version: self.version.clone(), endpoint: self.endpoint.copy() }
    }
}

/// A request bound to a version: its lease and the endpoint to forward to.
pub struct PreparedProxyRequest {
    /// The version lease.
    pub lease: VersionLease,
    /// The version endpoint.
    pub endpoint: PreparedEndpoint,
}

/// The gateway's routing core: the target new requests go to.
pub struct Gateway {
    /// Current active target.
    pub active: ActiveVersionTarget,
}

impl Gateway {
    /// A gateway routing to the configuration's active version.
    pub fn new(config: &RuntimeConfig, versions: &mut VersionRegistry) -> (r: Result<Gateway, HyperError>)
        requires
            config.wf(),
            old(versions).wf(),
        ensures
            final(versions).wf(),
            r is Ok <==> target_error(*config) is None,
            r matches Ok(g) ==> target_of(g.active, *config) && final(versions)@ == ensured(
                old(versions)@,
                config.active_version@,
            ),
            r matches Err(e) ==> Some(e.message@) == target_error(*config) && final(versions)@
                == old(versions)@,
    {
        match ActiveVersionTarget::build(config, versions) {
            Ok(active) => Ok(Gateway { active }),
            Err(e) => Err(e),
        }
    }

    /// Builds, without installing it, the target for a configuration.
    pub fn prepare_active(&self, config: &RuntimeConfig, versions: &mut VersionRegistry) -> (r: Result<ActiveVersionTarget, HyperError>)
        requires
            config.wf(),
            old(versions).wf(),
        ensures
            final(versions).wf(),
            r is Ok <==> target_error(*config) is None,
            r matches Ok(t) ==> target_of(t, *config) && final(versions)@ == ensured(
                old(versions)@,
                config.active_version@,
            ),
            r matches Err(e) ==> Some(e.message@) == target_error(*config) && final(versions)@
                == old(versions)@,
    {
        ActiveVersionTarget::build(config, versions)
    }

    /// Installs a new target and hands back the previous one.
    pub fn swap_active(&mut self, active: ActiveVersionTarget) -> (previous: ActiveVersionTarget)
        ensures
            final(self).active == active,
            previous == old(self).active,
    {
        let mut previous = active;
        std::mem::swap(&mut previous, &mut self.active);
        previous
    }

    /// Binds a new request to the target it read (`loaded`). If that version
    /// refuses the lease because the target has moved on meanwhile, the
    /// request is retried once on the current target.
    pub fn prepare_proxy(&self, loaded: &ActiveVersionTarget, versions: &mut VersionRegistry, kind: RequestKind) -> (r: Result<PreparedProxyRequest, HyperError>)
        requires
            old(versions).wf(),
            old(versions)@.contains_key(loaded.version@),
            old(versions)@.contains_key(self.active.version@),
        ensures
            final(versions).wf(),
            ({
                let before = old(versions)@;
                let first = before[loaded.version@];
                let current = before[self.active.version@];
                if first.admits() {
                    r matches Ok(p) && p.endpoint == loaded.endpoint && p.lease.version@
                        == loaded.version@ && p.lease.kind == kind && p.lease.cycle == first.cycle
                        && final(versions)@ == before.insert(loaded.version@, first.leased(kind))
                } else if loaded.version@ == self.active.version@ || !current.admits() {
                    r is Err && final(versions)@ == before
                } else {
                    r matches Ok(p) && p.endpoint == self.active.endpoint && p.lease.version@
                        == self.active.version@ && p.lease.kind == kind && p.lease.cycle
                        == current.cycle && final(versions)@ == before.insert(
                        self.active.version@,
                        current.leased(kind),
                    )
                }
            }),
    {
        match versions.lease(&loaded.version, kind) {
            Some(Ok(lease)) => {
                return Ok(PreparedProxyRequest { lease, endpoint: loaded.endpoint.copy() });
            },
            Some(Err(e)) => {
                if loaded.version.same(&self.active.version) {
                    return Err(e);
                }
            },
            None => {},
        }
        match versions.lease(&self.active.version, kind) {
            Some(Ok(lease)) => Ok(PreparedProxyRequest { lease, endpoint: self.active.endpoint.copy() }),
            Some(Err(e)) => Err(e),
            None => Err(HyperError::new("active version is not registered")),
        }
    }
}

} // verus!
