//! Header rules of the reverse proxy: hop-by-hop filtering, forwarding
//! headers behind trusted proxies, streaming detection and body limits.
//!
//! Headers are held as plain values: a lowercase name (as `http` stores
//! header names) and the value's bytes, in the order the message carries them.

use vstd::prelude::*;

use crate::endpoint::opt_view;
use crate::net::{any_contains, family_bits, trusted_peer, PeerAddress, TrustedNetwork};
use crate::request::RequestKind;
use crate::text::{chars_of, lemma_views_push, owned, push_char, push_str, trim, trim_text, views};

verus! {

/// One header field.
pub struct HeaderField {
    /// Lowercase header name.
    pub name: String,
    /// Value bytes.
    pub value: Vec<u8>,
}

/// A character of an HTTP token (`tchar`): a letter, a digit or one of
/// ``!#$%&'*+-.^_`|~``.
pub open spec fn token_char(c: char) -> bool {
    ||| ('a' <= c && c <= 'z')
    ||| ('A' <= c && c <= 'Z')
    ||| ('0' <= c && c <= '9')
    ||| c == '!' || c == '#' || c == '$' || c == '%' || c == '&' || c == '\'' || c == '*'
    ||| c == '+' || c == '-' || c == '.' || c == '^' || c == '_' || c == '`' || c == '|' || c == '~'
}

/// An ASCII letter in lower case; any other character as it is.
pub open spec fn ascii_lower(c: char) -> char {
    if 'A' <= c && c <= 'Z' {
        ((c as u32) + 32) as char
    } else {
        c
    }
}

/// Longest header name `http` accepts, in bytes.
pub open spec fn max_header_name_len() -> nat {
    65535
}

/// What `http::HeaderName::from_bytes` gives for a text: a non-empty name of
/// at most `max_header_name_len` token characters, in lower case; `None` for
/// anything else.
pub open spec fn parsed_header_name(text: Seq<char>) -> Option<Seq<char>> {
    if 0 < text.len() <= max_header_name_len() && forall|i: int| 0 <= i < text.len() ==> token_char(#[trigger] text[i]) {
        Some(text.map_values(|c: char| ascii_lower(c)))
    } else {
        None
    }
}

/// Parses a header name with `http::HeaderName::from_bytes`, which maps each
/// byte through its token table (lowering ASCII letters) and refuses an empty
/// name, a name longer than its limit, or any byte outside the table.
#[verifier::external_body]
fn header_name(text: &str) -> (r: Option<String>)
    ensures
        opt_view(r) == parsed_header_name(text@),
{
    match axum::http::HeaderName::from_bytes(text.as_bytes()) {
        Ok(n) => Some(n.as_str().to_string()),
        Err(_) => None,
    }
}

/// Bytes `HeaderValue::to_str` accepts: visible ASCII, space and tab.
pub open spec fn visible_byte(b: u8) -> bool {
    (b >= 32 && b < 127) || b == 9
}

/// The text of a header value, when every byte is visible.
pub open spec fn value_text(v: Seq<u8>) -> Option<Seq<char>> {
    if forall|i: int| 0 <= i < v.len() ==> visible_byte(#[trigger] v[i]) {
        Some(Seq::new(v.len(), |i: int| v[i] as char))
    } else {
        None
    }
}

/// Position of the first field named `name`.
pub open spec fn first_index(hs: Seq<HeaderField>, name: Seq<char>) -> Option<int> {
    if exists|i: int| 0 <= i < hs.len() && (#[trigger] hs[i]).name@ == name {
        Some(choose|i: int| 0 <= i < hs.len() && (#[trigger] hs[i]).name@ == name && forall|j: int| 0 <= j < i ==> (#[trigger] hs[j]).name@ != name)
    } else {
        None
    }
}

/// The first value of a header (`HeaderMap::get`).
pub open spec fn first_value(hs: Seq<HeaderField>, name: Seq<char>) -> Option<Seq<u8>> {
    match first_index(hs, name) {
        Some(i) => Some(hs[i].value@),
        None => None,
    }
}

/// Whether the message carries a header.
pub open spec fn has_header(hs: Seq<HeaderField>, name: Seq<char>) -> bool {
    exists|i: int| 0 <= i < hs.len() && (#[trigger] hs[i]).name@ == name
}

/// ASCII lowercase of a character.
pub open spec fn lower(c: char) -> char {
    if 'A' <= c <= 'Z' {
        ((c as u32) + 32) as char
    } else {
        c
    }
}

/// ASCII case-insensitive equality.
pub open spec fn eq_ignore_case(a: Seq<char>, b: Seq<char>) -> bool {
    a.len() == b.len() && forall|i: int| 0 <= i < a.len() ==> lower(#[trigger] a[i]) == lower(b[i])
}

/// The characters of bytes, one per byte.
pub open spec fn byte_chars(v: Seq<u8>) -> Seq<char> {
    Seq::new(v.len(), |i: int| v[i] as char)
}

fn find_first(hs: &Vec<HeaderField>, name: &str) -> (r: Option<usize>)
    ensures
        r matches Some(k) ==> k < hs@.len(),
        match first_index(hs@, name@) {
            Some(i) => r matches Some(k) && k == i,
            None => r is None,
        },
{
    let mut i: usize = 0;
    while i < hs.len()
        invariant
            i <= hs@.len(),
            forall|j: int| 0 <= j < i ==> (#[trigger] hs@[j]).name@ != name@,
        decreases hs.len() - i,
    {
        if crate::text::text_eq(hs[i].name.as_str(), name) {
            proof {
                let c = choose|c: int| 0 <= c < hs@.len() && (#[trigger] hs@[c]).name@ == name@ && forall|j: int| 0 <= j < c ==> (#[trigger] hs@[j]).name@ != name@;
                if c < i {
                } else if c > i {
                    assert(hs@[i as int].name@ != name@);
                }
            }
            return Some(i);
        }
        i = i + 1;
    }
    None
}

fn lower_char(c: char) -> (r: char)
    ensures
        r == lower(c),
{
    if 'A' <= c && c <= 'Z' {
        let v = c as u32 + 32;
        proof {
            vstd::utf8::char_u32_cast(c, c as u32);
        }
        char_of(v)
    } else {
        c
    }
}

/// The ASCII character with code `v`.
fn char_of(v: u32) -> (c: char)
    requires
        0x61 <= v <= 0x7A,
    ensures
        c == v as char,
{
    let table = chars_of("abcdefghijklmnopqrstuvwxyz");
    proof {
        reveal_strlit("abcdefghijklmnopqrstuvwxyz");
    }
    let c = table[(v - 0x61) as usize];
    proof {
        vstd::utf8::char_u32_cast(c, v);
    }
    c
}

fn eq_ascii_case(a: &Vec<char>, b: &str) -> (r: bool)
    ensures
        r == eq_ignore_case(a@, b@),
{
    let y = chars_of(b);
    if a.len() != y.len() {
        return false;
    }
    let mut i: usize = 0;
    while i < a.len()
        invariant
            y@ == b@,
            a@.len() == y@.len(),
            i <= a@.len(),
            forall|j: int| 0 <= j < i ==> lower(#[trigger] a@[j]) == lower(y@[j]),
        decreases a.len() - i,
    {
        if lower_char(a[i]) != lower_char(y[i]) {
            return false;
        }
        i = i + 1;
    }
    true
}

fn bytes_text(v: &Vec<u8>) -> (r: Vec<char>)
    ensures
        r@ == byte_chars(v@),
{
    let mut r: Vec<char> = Vec::new();
    let mut i: usize = 0;
    while i < v.len()
        invariant
            i <= v@.len(),
            r@ == byte_chars(v@).take(i as int),
        decreases v.len() - i,
    {
        r.push(v[i] as char);
        assert(byte_chars(v@).take(i + 1) =~= byte_chars(v@).take(i as int).push(v@[i as int] as char));
        i = i + 1;
    }
    assert(byte_chars(v@).take(v@.len() as int) =~= byte_chars(v@));
    r
}

/// `HeaderValue::to_str`: the value's text when every byte is visible.
pub fn header_text(v: &Vec<u8>) -> (r: Option<String>)
    ensures
        opt_view(r) == value_text(v@),
{
    let mut i: usize = 0;
    while i < v.len()
        invariant
            i <= v@.len(),
            forall|j: int| 0 <= j < i ==> visible_byte(#[trigger] v@[j]),
        decreases v.len() - i,
    {
        let b = v[i];
        if !((b >= 32 && b < 127) || b == 9) {
            return None;
        }
        i = i + 1;
    }
    let chars = bytes_text(v);
    Some(crate::text::string_from_chars(chars.as_slice()))
}

// ---------------------------------------------------------------------------
// Hop-by-hop headers
// ---------------------------------------------------------------------------

/// Whether a header belongs to one connection hop only: the standard
/// hop-by-hop headers and those the `Connection` header names. A websocket
/// upgrade keeps `Connection` and `Upgrade`.
pub open spec fn hop_by_hop(name: Seq<char>, connection: Seq<Seq<char>>, preserve_upgrade: bool) -> bool {
    if preserve_upgrade && (name == "connection"@ || name == "upgrade"@) {
        false
    } else {
        name == "connection"@ || connection.contains(name) || name == "proxy-authenticate"@
            || name == "proxy-authorization"@ || name == "te"@ || name == "trailer"@
            || name == "transfer-encoding"@ || name == "upgrade"@ || eq_ignore_case(name, "keep-alive"@)
            || eq_ignore_case(name, "proxy-connection"@)
    }
}

fn contains_text(v: &Vec<String>, x: &str) -> (r: bool)
    ensures
        r == views(v@).contains(x@),
{
    let mut i: usize = 0;
    while i < v.len()
        invariant
            i <= v@.len(),
            forall|j: int| 0 <= j < i ==> v@[j]@ != x@,
        decreases v.len() - i,
    {
        if crate::text::text_eq(v[i].as_str(), x) {
            assert(views(v@)[i as int] == x@);
            return true;
        }
        i = i + 1;
    }
    proof {
        if views(v@).contains(x@) {
            let k = choose|k: int| 0 <= k < views(v@).len() && views(v@)[k] == x@;
            assert(v@[k]@ == x@);
        }
    }
    false
}

/// Whether a header stays out of a forwarded response.
pub fn hop_by_hop_header(name: &str, connection_headers: &Vec<String>, preserve_upgrade: bool) -> (r: bool)
    ensures
        r == hop_by_hop(name@, views(connection_headers@), preserve_upgrade),
        name@ == "proxy-authenticate"@ || name@ == "proxy-authorization"@ || name@ == "te"@ || name@ == "trailer"@
            || name@ == "transfer-encoding"@ || name@ == "keep-alive"@ || name@ == "proxy-connection"@ ==> r,
        !preserve_upgrade && (name@ == "connection"@ || name@ == "upgrade"@) ==> r,
{
    proof {
        law_hop_by_hop_blocked(views(connection_headers@), preserve_upgrade);
    }
    let eq = |t: &str| -> (b: bool)
        ensures
            b == (name@ == t@),
        { crate::text::text_eq(name, t) };
    if preserve_upgrade && (eq("connection") || eq("upgrade")) {
        return false;
    }
    if eq("connection") || contains_text(connection_headers, name) {
        return true;
    }
    let chars = chars_of(name);
    eq("proxy-authenticate") || eq("proxy-authorization") || eq("te") || eq("trailer") || eq(
        "transfer-encoding",
    ) || eq("upgrade") || eq_ascii_case(&chars, "keep-alive") || eq_ascii_case(&chars, "proxy-connection")
}

/// Whether a request header is rebuilt or dropped by the gateway: `Host`
/// and the hop-by-hop headers.
pub fn request_header_blocked(name: &str, connection_headers: &Vec<String>, preserve_upgrade: bool) -> (r: bool)
    ensures
        r == (name@ == "host"@ || hop_by_hop(name@, views(connection_headers@), preserve_upgrade)),
{
    crate::text::text_eq(name, "host") || hop_by_hop_header(name, connection_headers, preserve_upgrade)
}

/// Whether a response header stays out of the forwarded response.
pub fn response_header_blocked(name: &str, connection_headers: &Vec<String>, preserve_upgrade: bool) -> (r: bool)
    ensures
        r == hop_by_hop(name@, views(connection_headers@), preserve_upgrade),
        name@ == "proxy-authenticate"@ || name@ == "proxy-authorization"@ || name@ == "te"@ || name@ == "trailer"@
            || name@ == "transfer-encoding"@ || name@ == "keep-alive"@ || name@ == "proxy-connection"@ ==> r,
        !preserve_upgrade && (name@ == "connection"@ || name@ == "upgrade"@) ==> r,
{
    hop_by_hop_header(name, connection_headers, preserve_upgrade)
}

/// Law: the standard hop-by-hop headers are never forwarded, whatever the
/// `Connection` header lists; only a websocket upgrade keeps `connection`
/// and `upgrade`. A header the `Connection` header lists is never forwarded
/// either, and an end-to-end header it does not list always is.
pub proof fn law_hop_by_hop_blocked(connection: Seq<Seq<char>>, preserve_upgrade: bool)
    ensures
        hop_by_hop("proxy-authenticate"@, connection, preserve_upgrade),
        hop_by_hop("proxy-authorization"@, connection, preserve_upgrade),
        hop_by_hop("te"@, connection, preserve_upgrade),
        hop_by_hop("trailer"@, connection, preserve_upgrade),
        hop_by_hop("transfer-encoding"@, connection, preserve_upgrade),
        hop_by_hop("keep-alive"@, connection, preserve_upgrade),
        hop_by_hop("proxy-connection"@, connection, preserve_upgrade),
        !preserve_upgrade ==> hop_by_hop("connection"@, connection, preserve_upgrade),
        !preserve_upgrade ==> hop_by_hop("upgrade"@, connection, preserve_upgrade),
        preserve_upgrade ==> !hop_by_hop("connection"@, connection, preserve_upgrade),
        preserve_upgrade ==> !hop_by_hop("upgrade"@, connection, preserve_upgrade),
        !connection.contains("set-cookie"@) ==> !hop_by_hop("set-cookie"@, connection, preserve_upgrade),
        !connection.contains("content-type"@) ==> !hop_by_hop("content-type"@, connection, preserve_upgrade),
        forall|name: Seq<char>|
            #![trigger connection.contains(name)]
            connection.contains(name) && !(preserve_upgrade && (name == "connection"@ || name == "upgrade"@))
                ==> hop_by_hop(name, connection, preserve_upgrade),
        forall|name: Seq<char>|
            #![trigger hop_by_hop(name, connection, preserve_upgrade)]
            eq_ignore_case(name, "keep-alive"@) || eq_ignore_case(name, "proxy-connection"@)
                ==> hop_by_hop(name, connection, preserve_upgrade),
{
    reveal_strlit("connection");
    reveal_strlit("upgrade");
    reveal_strlit("proxy-authenticate");
    reveal_strlit("proxy-authorization");
    reveal_strlit("te");
    reveal_strlit("trailer");
    reveal_strlit("transfer-encoding");
    reveal_strlit("keep-alive");
    reveal_strlit("proxy-connection");
    reveal_strlit("set-cookie");
    reveal_strlit("content-type");
    assert("proxy-authenticate"@.len() != "connection"@.len() && "proxy-authenticate"@.len() != "upgrade"@.len());
    assert("proxy-authorization"@.len() != "connection"@.len() && "proxy-authorization"@.len() != "upgrade"@.len());
    assert("te"@.len() != "connection"@.len() && "te"@.len() != "upgrade"@.len());
    assert("trailer"@[0] != "connection"@[0] && "trailer"@[0] != "upgrade"@[0]);
    assert("transfer-encoding"@.len() != "connection"@.len() && "transfer-encoding"@.len() != "upgrade"@.len());
    assert("keep-alive"@[0] != "connection"@[0] && "keep-alive"@[0] != "upgrade"@[0]);
    assert("proxy-connection"@.len() != "connection"@.len() && "proxy-connection"@.len() != "upgrade"@.len());
    assert("set-cookie"@[0] != "connection"@[0] && "set-cookie"@[0] != "upgrade"@[0]);
    assert("content-type"@.len() != "connection"@.len() && "content-type"@.len() != "upgrade"@.len());
    assert(eq_ignore_case("keep-alive"@, "keep-alive"@));
    assert(eq_ignore_case("proxy-connection"@, "proxy-connection"@));
}

/// The pieces of a text between commas (`str::split(',')`).
pub open spec fn split_commas(s: Seq<char>) -> Seq<Seq<char>>
    decreases s.len(),
{
    if s.len() == 0 {
        seq![Seq::empty()]
    } else {
        let rest = split_commas(s.drop_last());
        if s.last() == ',' {
            rest.push(Seq::empty())
        } else {
            rest.update(rest.len() - 1, rest.last().push(s.last()))
        }
    }
}

/// Whether a header name is listed by one of the `Connection` headers: a
/// comma-separated item that, trimmed, parses as a header name.
pub open spec fn listed_by_connection(hs: Seq<HeaderField>, name: Seq<char>) -> bool {
    exists|i: int, k: int| 0 <= i < hs.len() && (#[trigger] hs[i]).name@ == "connection"@ && value_text(hs[i].value@) is Some
        && 0 <= k < split_commas(value_text(hs[i].value@)->0).len()
        && parsed_header_name(trim(#[trigger] split_commas(value_text(hs[i].value@)->0)[k])) == Some(name)
}

fn split_on_commas(s: &str) -> (r: Vec<String>)
    ensures
        views(r@) == split_commas(s@),
{
    let x = chars_of(s);
    let mut pieces: Vec<String> = Vec::new();
    let mut current = String::new();
    let mut i: usize = 0;
    assert(x@.take(0) =~= Seq::<char>::empty());
    while i < x.len()
        invariant
            i <= x@.len(),
            x@ == s@,
            views(pieces@).push(current@) == split_commas(x@.take(i as int)),
        decreases x.len() - i,
    {
        let c = x[i];
        assert(x@.take(i + 1).drop_last() =~= x@.take(i as int));
        let ghost before = views(pieces@).push(current@);
        if c == ',' {
            let done = current;
            let ghost pv = pieces@;
            pieces.push(done);
            proof {
                lemma_views_push(pv, done);
            }
            current = String::new();
            assert(views(pieces@).push(current@) =~= before.push(Seq::empty()));
        } else {
            push_char(&mut current, c);
            assert(views(pieces@).push(current@) =~= before.update(before.len() - 1, before.last().push(c)));
        }
        i = i + 1;
    }
    assert(x@.take(x@.len() as int) =~= x@);
    let ghost pv = pieces@;
    let last = current;
    pieces.push(last);
    proof {
        lemma_views_push(pv, last);
    }
    pieces
}

/// The header names listed by the `Connection` headers.
pub fn connection_header_names(headers: &Vec<HeaderField>) -> (r: Vec<String>)
    ensures
        forall|n: Seq<char>| #[trigger] views(r@).contains(n) <==> listed_by_connection(headers@, n),
{
    let mut names: Vec<String> = Vec::new();
    let mut i: usize = 0;
    while i < headers.len()
        invariant
            i <= headers@.len(),
            forall|n: Seq<char>| #[trigger] views(names@).contains(n) <==> exists|a: int, k: int| 0 <= a < i && (#[trigger] headers@[a]).name@ == "connection"@ && value_text(headers@[a].value@) is Some
                && 0 <= k < split_commas(value_text(headers@[a].value@)->0).len()
                && parsed_header_name(trim(#[trigger] split_commas(value_text(headers@[a].value@)->0)[k])) == Some(n),
        decreases headers.len() - i,
    {
        let h = &headers[i];
        if crate::text::text_eq(h.name.as_str(), "connection") {
            match header_text(&h.value) {
                Some(text) => {
                    let pieces = split_on_commas(text.as_str());
                    let ghost start = names@;
                    let mut k: usize = 0;
                    while k < pieces.len()
                        invariant
                            k <= pieces@.len(),
                            views(pieces@) == split_commas(text@),
                            text@ == value_text(headers@[i as int].value@)->0,
                            forall|n: Seq<char>| #[trigger] views(names@).contains(n) <==> views(start).contains(n)
                                || exists|b: int| 0 <= b < k && parsed_header_name(trim(#[trigger] split_commas(text@)[b])) == Some(n),
                        decreases pieces.len() - k,
                    {
                        let trimmed = trim_text(pieces[k].as_str());
                        assert(trimmed@ == trim(split_commas(text@)[k as int]));
                        let ghost before = names@;
                        match header_name(trimmed.as_str()) {
                            Some(n) => {
                                names.push(n);
                                proof {
                                    lemma_views_push(before, n);
                                }
                            },
                            None => {},
                        }
                        proof {
                            assert forall|n: Seq<char>| #[trigger] views(names@).contains(n) <==> views(start).contains(n)
                                || exists|b: int| 0 <= b < k + 1 && parsed_header_name(trim(#[trigger] split_commas(text@)[b])) == Some(n) by {
                                if views(names@).contains(n) && !views(before).contains(n) {
                                    let q = choose|q: int| 0 <= q < views(names@).len() && views(names@)[q] == n;
                                    assert(q == before.len());
                                }
                                if views(before).contains(n) {
                                    let q = choose|q: int| 0 <= q < views(before).len() && views(before)[q] == n;
                                    assert(views(names@)[q] == n);
                                }
                                if parsed_header_name(trim(split_commas(text@)[k as int])) == Some(n) {
                                    assert(views(names@)[before.len() as int] == n);
                                }
                            }
                        }
                        k = k + 1;
                    }
                },
                None => {},
            }
        }
        proof {
            assert forall|n: Seq<char>| #[trigger] views(names@).contains(n) <==> exists|a: int, k: int| 0 <= a < i + 1 && (#[trigger] headers@[a]).name@ == "connection"@ && value_text(headers@[a].value@) is Some
                && 0 <= k < split_commas(value_text(headers@[a].value@)->0).len()
                && parsed_header_name(trim(#[trigger] split_commas(value_text(headers@[a].value@)->0)[k])) == Some(n) by {
                if exists|a: int, k: int| 0 <= a < i + 1 && (#[trigger] headers@[a]).name@ == "connection"@ && value_text(headers@[a].value@) is Some
                    && 0 <= k < split_commas(value_text(headers@[a].value@)->0).len()
                    && parsed_header_name(trim(#[trigger] split_commas(value_text(headers@[a].value@)->0)[k])) == Some(n) {
                    let (a, k) = choose|a: int, k: int| 0 <= a < i + 1 && (#[trigger] headers@[a]).name@ == "connection"@ && value_text(headers@[a].value@) is Some
                        && 0 <= k < split_commas(value_text(headers@[a].value@)->0).len()
                        && parsed_header_name(trim(#[trigger] split_commas(value_text(headers@[a].value@)->0)[k])) == Some(n);
                    if a < i {
                    }
                }
            }
        }
        i = i + 1;
    }
    names
}


// ---------------------------------------------------------------------------
// Forwarding headers
// ---------------------------------------------------------------------------

/// A header list as plain values: names and value bytes.
pub open spec fn hview(hs: Seq<HeaderField>) -> Seq<(Seq<char>, Seq<u8>)> {
    Seq::new(hs.len(), |i: int| (hs[i].name@, hs[i].value@))
}

/// Headers a client can forge to pose as someone else.
pub open spec fn spoofable(name: Seq<char>) -> bool {
    name == "forwarded"@ || name == "x-forwarded-for"@ || name == "x-forwarded-proto"@
        || name == "x-forwarded-host"@ || name == "x-real-ip"@ || name == "cf-connecting-ip"@
}

/// The headers without the forgeable forwarding headers, in order.
pub open spec fn without_spoofable(h: Seq<(Seq<char>, Seq<u8>)>) -> Seq<(Seq<char>, Seq<u8>)>
    decreases h.len(),
{
    if h.len() == 0 {
        h
    } else if spoofable(h.last().0) {
        without_spoofable(h.drop_last())
    } else {
        without_spoofable(h.drop_last()).push(h.last())
    }
}

/// Whether a header list view has a header.
pub open spec fn has_name(h: Seq<(Seq<char>, Seq<u8>)>, name: Seq<char>) -> bool {
    exists|i: int| 0 <= i < h.len() && (#[trigger] h[i]).0 == name
}

/// The bytes of ASCII text.
pub open spec fn ascii_bytes(t: Seq<char>) -> Seq<u8> {
    Seq::new(t.len(), |i: int| (t[i] as u32) as u8)
}

/// The request headers as forwarded: from an untrusted peer the forwarding
/// headers are dropped; then `X-Forwarded-For` (the peer), `X-Forwarded-Proto`
/// (`http`) and `X-Forwarded-Host` (the request's `Host`) are added where missing.
pub open spec fn forwarded_headers(h: Seq<(Seq<char>, Seq<u8>)>, trusted: bool, peer_ip: Seq<char>, host: Option<Seq<u8>>) -> Seq<(Seq<char>, Seq<u8>)> {
    let base = if trusted {
        h
    } else {
        without_spoofable(h)
    };
    let a = if has_name(base, "x-forwarded-for"@) {
        base
    } else {
        base.push(("x-forwarded-for"@, ascii_bytes(peer_ip)))
    };
    let b = if has_name(a, "x-forwarded-proto"@) {
        a
    } else {
        a.push(("x-forwarded-proto"@, ascii_bytes("http"@)))
    };
    match host {
        Some(v) => if has_name(b, "x-forwarded-host"@) {
            b
        } else {
            b.push(("x-forwarded-host"@, v))
        },
        None => b,
    }
}

fn has_field(hs: &Vec<HeaderField>, name: &str) -> (r: bool)
    ensures
        r == has_name(hview(hs@), name@),
{
    let mut i: usize = 0;
    while i < hs.len()
        invariant
            i <= hs@.len(),
            forall|j: int| 0 <= j < i ==> (#[trigger] hs@[j]).name@ != name@,
        decreases hs.len() - i,
    {
        if crate::text::text_eq(hs[i].name.as_str(), name) {
            assert(hview(hs@)[i as int].0 == name@);
            return true;
        }
        i = i + 1;
    }
    proof {
        if has_name(hview(hs@), name@) {
            let k = choose|k: int| 0 <= k < hview(hs@).len() && (#[trigger] hview(hs@)[k]).0 == name@;
            assert(hs@[k].name@ == name@);
        }
    }
    false
}

fn text_bytes(t: &str) -> (r: Vec<u8>)
    requires
        forall|i: int| 0 <= i < t@.len() ==> (#[trigger] t@[i] as u32) < 0x80,
    ensures
        r@ == ascii_bytes(t@),
{
    let x = chars_of(t);
    let mut r: Vec<u8> = Vec::new();
    let mut i: usize = 0;
    while i < x.len()
        invariant
            i <= x@.len(),
            x@ == t@,
            forall|j: int| 0 <= j < t@.len() ==> (#[trigger] t@[j] as u32) < 0x80,
            r@ == ascii_bytes(x@).take(i as int),
        decreases x.len() - i,
    {
        let v = x[i] as u32;
        assert(x@[i as int] as u32 == v);
        r.push(v as u8);
        proof {
            assert(ascii_bytes(x@).take(i + 1) =~= ascii_bytes(x@).take(i as int).push((x@[i as int] as u32) as u8));
        }
        i = i + 1;
    }
    assert(ascii_bytes(x@).take(x@.len() as int) =~= ascii_bytes(x@));
    r
}

fn copy_field(h: &HeaderField) -> (r: HeaderField)
    ensures
        r.name@ == h.name@,
        r.value@ == h.value@,
{
    HeaderField { name: h.name.clone(), value: h.value.clone() }
}

fn spoofable_name(name: &str) -> (r: bool)
    ensures
        r == spoofable(name@),
{
    crate::text::text_eq(name, "forwarded") || crate::text::text_eq(name, "x-forwarded-for")
        || crate::text::text_eq(name, "x-forwarded-proto") || crate::text::text_eq(name, "x-forwarded-host")
        || crate::text::text_eq(name, "x-real-ip") || crate::text::text_eq(name, "cf-connecting-ip")
}

fn kept_headers(headers: &Vec<HeaderField>, trusted: bool) -> (kept: Vec<HeaderField>)
    ensures
        hview(kept@) == if trusted {
            hview(headers@)
        } else {
            without_spoofable(hview(headers@))
        },
{
    let ghost h = hview(headers@);
    let mut kept: Vec<HeaderField> = Vec::new();
    let mut i: usize = 0;
    while i < headers.len()
        invariant
            i <= headers@.len(),
            h == hview(headers@),
            hview(kept@) == if trusted {
                h.take(i as int)
            } else {
                without_spoofable(h.take(i as int))
            },
        decreases headers.len() - i,
    {
        assert(h.take(i + 1).drop_last() =~= h.take(i as int));
        let f = &headers[i];
        let drop = !trusted && spoofable_name(f.name.as_str());
        if !drop {
            let c = copy_field(f);
            let ghost before = kept@;
            kept.push(c);
            assert(hview(kept@) =~= hview(before).push((f.name@, f.value@)));
        } else {
            assert(hview(kept@) == without_spoofable(h.take(i + 1)));
        }
        i = i + 1;
    }
    assert(h.take(h.len() as int) =~= h);
    kept
}

fn add_if_missing(headers: &mut Vec<HeaderField>, name: &str, value: Vec<u8>)
    ensures
        hview(final(headers)@) == if has_name(hview(old(headers)@), name@) {
            hview(old(headers)@)
        } else {
            hview(old(headers)@).push((name@, value@))
        },
{
    if !has_field(headers, name) {
        let ghost before = headers@;
        let ghost vv = value@;
        headers.push(HeaderField { name: owned(name), value });
        assert(hview(headers@) =~= hview(before).push((name@, vv)));
    }
}

/// Keeps client forwarding headers only from a trusted direct proxy, then
/// fills in the forwarding headers the version app relies on. `peer` is the
/// connection's source address and `peer_ip` its text.
pub fn prepare_forwarded_headers(headers: &mut Vec<HeaderField>, peer: &PeerAddress, peer_ip: &str, trusted_proxies: &Vec<TrustedNetwork>)
    requires
        forall|i: int| 0 <= i < trusted_proxies@.len() ==> #[trigger] trusted_proxies@[i].valid(),
        (peer.address as nat) < vstd::arithmetic::power2::pow2(family_bits(peer.is_v6)),
        forall|i: int| 0 <= i < peer_ip@.len() ==> (#[trigger] peer_ip@[i] as u32) < 0x80,
    ensures
        hview(final(headers)@) == forwarded_headers(
            hview(old(headers)@),
            any_contains(trusted_proxies@, *peer),
            peer_ip@,
            first_value(old(headers)@, "host"@),
        ),
{
    let trusted = trusted_peer(trusted_proxies, peer);
    let host = match find_first(headers, "host") {
        Some(i) => Some(headers[i].value.clone()),
        None => None,
    };
    let mut kept = kept_headers(headers, trusted);
    add_if_missing(&mut kept, "x-forwarded-for", text_bytes(peer_ip));
    proof {
        reveal_strlit("http");
    }
    add_if_missing(&mut kept, "x-forwarded-proto", text_bytes("http"));
    match host {
        Some(v) => add_if_missing(&mut kept, "x-forwarded-host", v),
        None => {},
    }
    *headers = kept;
}

// ---------------------------------------------------------------------------
// Streaming and body rules
// ---------------------------------------------------------------------------

/// Whether the first value of a header, as characters, equals `want`
/// ignoring ASCII case.
pub open spec fn first_is(hs: Seq<HeaderField>, name: Seq<char>, want: Seq<char>) -> bool {
    match first_value(hs, name) {
        Some(v) => eq_ignore_case(byte_chars(v), want),
        None => false,
    }
}

fn first_equals(hs: &Vec<HeaderField>, name: &str, want: &str) -> (r: bool)
    ensures
        r == first_is(hs@, name@, want@),
{
    match find_first(hs, name) {
        Some(i) => {
            let chars = bytes_text(&hs[i].value);
            eq_ascii_case(&chars, want)
        },
        None => false,
    }
}

/// Whether a request asks for a websocket tunnel (`Upgrade: websocket`).
pub fn is_websocket_upgrade(headers: &Vec<HeaderField>) -> (r: bool)
    ensures
        r == first_is(headers@, "upgrade"@, "websocket"@),
{
    first_equals(headers, "upgrade", "websocket")
}

/// The text before the first `;` (`split(';').next()`).
pub open spec fn before_semicolon(s: Seq<char>) -> Seq<char> {
    match crate::text::find_index(s, ";"@) {
        Some(i) => s.subrange(0, i),
        None => s,
    }
}

/// Whether a response is a server-sent event stream.
pub open spec fn event_stream(hs: Seq<HeaderField>) -> bool {
    match first_value(hs, "content-type"@) {
        Some(v) => match value_text(v) {
            Some(t) => eq_ignore_case(trim(before_semicolon(t)), "text/event-stream"@),
            None => false,
        },
        None => false,
    }
}

/// Whether a version app's response is a server-sent event stream.
pub fn is_event_stream(headers: &Vec<HeaderField>) -> (r: bool)
    ensures
        r == event_stream(headers@),
{
    let i = match find_first(headers, "content-type") {
        Some(i) => i,
        None => return false,
    };
    let text = match header_text(&headers[i].value) {
        Some(t) => t,
        None => return false,
    };
    let head = match crate::text::find_text(text.as_str(), ";") {
        Some(k) => {
            proof {
                reveal_strlit(";");
                let j = crate::text::find_index(text@, ";"@)->0;
                assert(k == j);
            }
            crate::text::substring(text.as_str(), 0, k)
        },
        None => text.clone(),
    };
    let t = trim_text(head.as_str());
    let chars = chars_of(t.as_str());
    eq_ascii_case(&chars, "text/event-stream")
}

/// The value of a decimal digit string.
pub open spec fn digits_value(s: Seq<char>) -> nat
    decreases s.len(),
{
    if s.len() == 0 {
        0
    } else {
        digits_value(s.drop_last()) * 10 + ((s.last() as u32) - 0x30) as nat
    }
}

/// Whether every character is an ASCII digit.
pub open spec fn all_digits(s: Seq<char>) -> bool {
    forall|i: int| 0 <= i < s.len() ==> 0x30 <= (#[trigger] s[i] as u32) <= 0x39
}

/// What `str::parse` gives for an unsigned integer at most `max`: an optional
/// `+`, then one or more digits, with a value that fits.
pub open spec fn parse_unsigned(s: Seq<char>, max: nat) -> Option<nat> {
    let d = if s.len() > 0 && s[0] == '+' {
        s.skip(1)
    } else {
        s
    };
    if d.len() > 0 && all_digits(d) && digits_value(d) <= max {
        Some(digits_value(d))
    } else {
        None
    }
}

/// `u64::from_str`.
pub fn parse_u64(s: &str) -> (r: Option<u64>)
    ensures
        match parse_unsigned(s@, u64::MAX as nat) {
            Some(v) => r == Some(v as u64),
            None => r is None,
        },
{
    let x = chars_of(s);
    let start: usize = if x.len() > 0 && x[0] == '+' {
        1
    } else {
        0
    };
    let ghost d = x@.skip(start as int);
    assert(d == if s@.len() > 0 && s@[0] == '+' { s@.skip(1) } else { s@ });
    if start >= x.len() {
        assert(d.len() == 0);
        return None;
    }
    let mut value: u64 = 0;
    let mut i: usize = start;
    while i < x.len()
        invariant
            start <= i <= x@.len(),
            x@ == s@,
            d == x@.skip(start as int),
            d == if s@.len() > 0 && s@[0] == '+' { s@.skip(1) } else { s@ },
            d.len() > 0,
            all_digits(x@.subrange(start as int, i as int)),
            value as nat == digits_value(x@.subrange(start as int, i as int)),
        decreases x.len() - i,
    {
        let c = x[i] as u32;
        let ghost sub = x@.subrange(start as int, i + 1);
        assert(sub.drop_last() =~= x@.subrange(start as int, i as int));
        if c < 0x30 || c > 0x39 {
            proof {
                assert(d[i - start] == x@[i as int]);
                assert(!(0x30 <= (d[i - start] as u32) <= 0x39));
            }
            return None;
        }
        let digit = (c - 0x30) as u64;
        if value > (u64::MAX - digit) / 10 {
            proof {
                assert(digits_value(sub) > u64::MAX) by (nonlinear_arith)
                    requires value > (u64::MAX - digit) / 10, digits_value(sub) == value * 10 + digit, digit <= 9;
                if all_digits(d) {
                    lemma_digits_prefix_le(d, (i + 1 - start) as int);
                    assert(sub =~= d.take((i + 1 - start) as int));
                }
            }
            return None;
        }
        assert(value * 10 + digit <= u64::MAX) by (nonlinear_arith)
            requires value <= (u64::MAX - digit) / 10, digit <= 9;
        value = value * 10 + digit;
        i = i + 1;
    }
    assert(x@.subrange(start as int, x@.len() as int) =~= d);
    Some(value)
}

/// A longer digit string is worth at least as much as its prefix.
proof fn lemma_digits_prefix_le(d: Seq<char>, k: int)
    requires
        0 <= k <= d.len(),
        all_digits(d),
    ensures
        digits_value(d.take(k)) <= digits_value(d),
    decreases d.len() - k,
{
    if k < d.len() {
        lemma_digits_prefix_le(d, k + 1);
        assert(d.take(k + 1).drop_last() =~= d.take(k));
        assert(0x30 <= d[k] as u32 <= 0x39);
    } else {
        assert(d.take(k) =~= d);
    }
}

/// The declared `Content-Length`, when it parses.
pub open spec fn content_length(hs: Seq<HeaderField>, max: nat) -> Option<nat> {
    match first_value(hs, "content-length"@) {
        Some(v) => match value_text(v) {
            Some(t) => parse_unsigned(t, max),
            None => None,
        },
        None => None,
    }
}

fn declared_length(hs: &Vec<HeaderField>) -> (r: Option<u64>)
    ensures
        match content_length(hs@, u64::MAX as nat) {
            Some(v) => r == Some(v as u64),
            None => r is None,
        },
{
    match find_first(hs, "content-length") {
        Some(i) => match header_text(&hs[i].value) {
            Some(t) => parse_u64(t.as_str()),
            None => None,
        },
        None => None,
    }
}

/// Whether a declared `Content-Length` already exceeds the body limit.
pub fn request_body_too_large(headers: &Vec<HeaderField>, limit: u64) -> (r: bool)
    ensures
        r == (content_length(headers@, u64::MAX as nat) matches Some(n) && n > limit),
{
    match declared_length(headers) {
        Some(n) => n > limit,
        None => false,
    }
}

/// Whether the request body is forwarded as a stream: chunked, with a
/// positive declared length, or a method that carries a body.
pub open spec fn body_streams(method: Seq<char>, hs: Seq<HeaderField>) -> bool {
    ||| has_header(hs, "transfer-encoding"@)
    ||| content_length(hs, u64::MAX as nat) matches Some(n) && n > 0
    ||| method == "POST"@ || method == "PUT"@ || method == "PATCH"@ || method == "DELETE"@
}

/// Law: a request with a method that carries a body (POST, PUT, PATCH,
/// DELETE), a chunked request, or one that declares a positive length
/// always streams its body, whatever else its headers say; a request with
/// any other method (GET, HEAD, ...) without a transfer encoding or a
/// positive declared length does not.
pub proof fn law_body_streams(hs: Seq<HeaderField>, method: Seq<char>)
    ensures
        body_streams("POST"@, hs),
        body_streams("PUT"@, hs),
        body_streams("PATCH"@, hs),
        body_streams("DELETE"@, hs),
        has_header(hs, "transfer-encoding"@) ==> body_streams(method, hs),
        (content_length(hs, u64::MAX as nat) matches Some(n) && n > 0) ==> body_streams(method, hs),
        method != "POST"@ && method != "PUT"@ && method != "PATCH"@ && method != "DELETE"@ && !has_header(
            hs,
            "transfer-encoding"@,
        ) && !(content_length(hs, u64::MAX as nat) matches Some(n) && n > 0) ==> !body_streams(method, hs),
        (method == "GET"@ || method == "HEAD"@) && !has_header(hs, "transfer-encoding"@) && !(content_length(
            hs,
            u64::MAX as nat,
        ) matches Some(n) && n > 0) ==> !body_streams(method, hs),
{
    reveal_strlit("GET");
    reveal_strlit("HEAD");
    reveal_strlit("POST");
    reveal_strlit("PUT");
    reveal_strlit("PATCH");
    reveal_strlit("DELETE");
    assert("GET"@[0] != "POST"@[0] && "GET"@[0] != "PUT"@[0] && "GET"@[0] != "PATCH"@[0] && "GET"@[0] != "DELETE"@[0]);
    assert("HEAD"@[0] != "POST"@[0] && "HEAD"@[0] != "PUT"@[0] && "HEAD"@[0] != "PATCH"@[0] && "HEAD"@[0] != "DELETE"@[0]);
}

/// Whether the request body must be streamed to the version app.
pub fn request_body_should_stream(method: &str, headers: &Vec<HeaderField>) -> (r: bool)
    ensures
        r == body_streams(method@, headers@),
        method@ == "POST"@ || method@ == "PUT"@ || method@ == "PATCH"@ || method@ == "DELETE"@ ==> r,
        has_header(headers@, "transfer-encoding"@) ==> r,
        (content_length(headers@, u64::MAX as nat) matches Some(n) && n > 0) ==> r,
        method@ != "POST"@ && method@ != "PUT"@ && method@ != "PATCH"@ && method@ != "DELETE"@ && !has_header(
            headers@,
            "transfer-encoding"@,
        ) && !(content_length(headers@, u64::MAX as nat) matches Some(n) && n > 0) ==> !r,
{
    proof {
        law_body_streams(headers@, method@);
    }
    if has_field(headers, "transfer-encoding") {
        proof {
            let k = choose|k: int| 0 <= k < hview(headers@).len() && (#[trigger] hview(headers@)[k]).0 == "transfer-encoding"@;
            assert(headers@[k].name@ == "transfer-encoding"@);
        }
        return true;
    }
    proof {
        if has_header(headers@, "transfer-encoding"@) {
            let k = choose|k: int| 0 <= k < headers@.len() && (#[trigger] headers@[k]).name@ == "transfer-encoding"@;
            assert(hview(headers@)[k].0 == "transfer-encoding"@);
        }
    }
    match declared_length(headers) {
        Some(n) => {
            if n > 0 {
                return true;
            }
        },
        None => {},
    }
    crate::text::text_eq(method, "POST") || crate::text::text_eq(method, "PUT") || crate::text::text_eq(method, "PATCH")
        || crate::text::text_eq(method, "DELETE")
}

/// How a request holds its connection: a websocket upgrade or a request
/// accepting server-sent events is streaming, anything else unary.
pub open spec fn request_kind(hs: Seq<HeaderField>) -> RequestKind {
    if first_is(hs, "upgrade"@, "websocket"@) {
        RequestKind::Stream
    } else if (first_value(hs, "accept"@) matches Some(v) && crate::text::find_index(byte_chars(v), "text/event-stream"@) is Some) {
        RequestKind::Stream
    } else {
        RequestKind::Unary
    }
}

/// The default classification of a request's connection kind.
pub fn classify(headers: &Vec<HeaderField>) -> (r: RequestKind)
    ensures
        r == request_kind(headers@),
{
    if first_equals(headers, "upgrade", "websocket") {
        return RequestKind::Stream;
    }
    match find_first(headers, "accept") {
        Some(i) => {
            let chars = bytes_text(&headers[i].value);
            let text = crate::text::string_from_chars(chars.as_slice());
            if crate::text::find_text(text.as_str(), "text/event-stream").is_some() {
                return RequestKind::Stream;
            }
        },
        None => {},
    }
    RequestKind::Unary
}

/// The connect timeout handed to the HTTP connector: `0` disables it.
pub fn connect_timeout_option(timeout_ms: u64) -> (r: Option<u64>)
    ensures
        r == if timeout_ms == 0 {
            None::<u64>
        } else {
            Some(timeout_ms)
        },
{
    if timeout_ms == 0 {
        None
    } else {
        Some(timeout_ms)
    }
}

/// What the gateway does once a version request has finished waiting for
/// its response head.
#[derive(Clone, Copy, PartialEq, Eq, Structural)]
pub enum VersionAnswer {
    /// The request body went over the limit: answer 413, whatever came back.
    PayloadTooLarge,
    /// The request failed: answer with the stable gateway error.
    Failed,
    /// A websocket upgrade was accepted (101): relay the two upgraded streams.
    Tunnel,
    /// Forward the response.
    Respond,
}

/// The step after a version request: a body over the limit wins over the
/// request's own outcome, then a failure, then an accepted websocket upgrade.
pub fn version_answer(limit_exceeded: bool, answered: bool, websocket_request: bool, status: u16) -> (r: VersionAnswer)
    ensures
        r == if limit_exceeded {
            VersionAnswer::PayloadTooLarge
        } else if !answered {
            VersionAnswer::Failed
        } else if websocket_request && status == 101 {
            VersionAnswer::Tunnel
        } else {
            VersionAnswer::Respond
        },
{
    if limit_exceeded {
        VersionAnswer::PayloadTooLarge
    } else if !answered {
        VersionAnswer::Failed
    } else if websocket_request && status == 101 {
        VersionAnswer::Tunnel
    } else {
        VersionAnswer::Respond
    }
}

/// Default request body limit: 64 MiB.
pub const DEFAULT_MAX_REQUEST_BODY_BYTES: u64 = 67_108_864;

/// The forwarded byte count after a body chunk, or `None` once the body
/// exceeds the limit (which ends the stream with an error).
pub fn next_forwarded(forwarded: u64, chunk_len: u64, limit: u64) -> (r: Option<u64>)
    ensures
        r == if forwarded + chunk_len <= limit {
            Some((forwarded + chunk_len) as u64)
        } else {
            None::<u64>
        },
{
    match forwarded.checked_add(chunk_len) {
        Some(total) => if total <= limit {
            Some(total)
        } else {
            None
        },
        None => None,
    }
}

/// The error text of a body over the limit.
pub fn body_limit_message(limit: u64) -> (s: String)
    ensures
        s@ == "request body exceeds limit: "@ + crate::text::decimal(limit as nat) + " bytes"@,
{
    let mut s = owned("request body exceeds limit: ");
    push_str(&mut s, crate::text::u64_to_text(limit).as_str());
    push_str(&mut s, " bytes");
    s
}

/// The fixed replies the proxy itself sends.
#[derive(Clone, Copy, PartialEq, Eq, Structural)]
pub enum ProxyReply {
    /// A version request failed; no detail reaches the client.
    BadGateway,
    /// The request body is over the limit.
    PayloadTooLarge,
}

impl ProxyReply {
    /// The reply's HTTP status.
    pub fn status(self) -> (s: u16)
        ensures
            s == match self {
                ProxyReply::BadGateway => 502u16,
                ProxyReply::PayloadTooLarge => 413u16,
            },
    {
        match self {
            ProxyReply::BadGateway => 502,
            ProxyReply::PayloadTooLarge => 413,
        }
    }

    /// The reply's body.
    pub fn body(self) -> (b: &'static str)
        ensures
            b@ == match self {
                ProxyReply::BadGateway => "service temporarily unavailable\n"@,
                ProxyReply::PayloadTooLarge => "request body too large\n"@,
            },
    {
        match self {
            ProxyReply::BadGateway => "service temporarily unavailable\n",
            ProxyReply::PayloadTooLarge => "request body too large\n",
        }
    }
}

} // verus!
