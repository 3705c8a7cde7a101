//! The local management API's decisions: the admin credential and its
//! comparison, bearer authorization, request validation and the stable
//! status and message of each reply.

use vstd::prelude::*;

use crate::control::ControlError;
use crate::error::HyperError;
use crate::net::PeerAddress;
use crate::text::{byte_len, byte_length, chars_of, lemma_byte_len_ge_len, owned, push_str, starts_with, substring, text_starts_with, trim, trim_text};
use crate::version::VersionId;

verus! {

/// Longest admin token accepted, in bytes.
pub const MAX_ADMIN_TOKEN_BYTES: usize = 1024;

/// Environment variable holding the admin token.
pub const ADMIN_TOKEN_ENV: &'static str = "HYPERGATE_ADMIN_TOKEN";

/// Environment variable holding the admin listen address.
pub const ADMIN_LISTEN_ENV: &'static str = "HYPERGATE_ADMIN_LISTEN";

/// Admin listen address when none is configured.
pub const DEFAULT_ADMIN_LISTEN: &'static str = "127.0.0.1:8090";

/// Visible ASCII characters only (`u8::is_ascii_graphic` on every byte).
pub open spec fn visible_ascii(s: Seq<char>) -> bool {
    forall|i: int| 0 <= i < s.len() ==> 0x21 <= #[trigger] (s[i] as u32) <= 0x7E
}

/// The admin token, held in a fixed-size buffer so that comparing it reads
/// the whole buffer whatever the candidate.
pub struct AdminCredential {
    /// Token bytes, zero-padded to the buffer size.
    bytes: Vec<u8>,
    /// Token length in bytes.
    length: usize,
}

impl AdminCredential {
    #[verifier::type_invariant]
    spec fn inv(self) -> bool {
        &&& self.bytes@.len() == MAX_ADMIN_TOKEN_BYTES
        &&& self.length <= MAX_ADMIN_TOKEN_BYTES
        &&& forall|i: int| 0 <= i < self.length ==> 0x21 <= #[trigger] self.bytes@[i] <= 0x7E
        &&& forall|i: int| self.length <= i < MAX_ADMIN_TOKEN_BYTES ==> #[trigger] self.bytes@[i] == 0
    }

    /// The token.
    pub closed spec fn token(self) -> Seq<char> {
        Seq::new(self.length as nat, |i: int| self.bytes@[i] as char)
    }

    /// A credential for a token of visible ASCII characters, at most
    /// `MAX_ADMIN_TOKEN_BYTES` long.
    pub fn new(token: &str) -> (r: Result<AdminCredential, HyperError>)
        ensures
            r is Ok <==> byte_len(token@) <= MAX_ADMIN_TOKEN_BYTES && visible_ascii(token@),
            r matches Ok(c) ==> c.token() == token@,
            r matches Err(e) ==> e.message@ == if byte_len(token@) > MAX_ADMIN_TOKEN_BYTES {
                "HYPERGATE_ADMIN_TOKEN exceeds 1024 bytes"@
            } else {
                "HYPERGATE_ADMIN_TOKEN must contain visible ASCII characters only"@
            },
    {
        let n = byte_length(token);
        if n > MAX_ADMIN_TOKEN_BYTES {
            return Err(HyperError::new("HYPERGATE_ADMIN_TOKEN exceeds 1024 bytes"));
        }
        let chars = chars_of(token);
        proof {
            lemma_byte_len_ge_len(token@);
        }
        let mut i: usize = 0;
        while i < chars.len()
            invariant
                i <= chars@.len(),
                chars@ == token@,
                n == byte_len(token@),
                n <= MAX_ADMIN_TOKEN_BYTES,
                forall|j: int| 0 <= j < i ==> 0x21 <= #[trigger] (chars@[j] as u32) <= 0x7E,
            decreases chars.len() - i,
        {
            let v = chars[i] as u32;
            if v < 0x21 || v > 0x7E {
                return Err(HyperError::new("HYPERGATE_ADMIN_TOKEN must contain visible ASCII characters only"));
            }
            i = i + 1;
        }
        let mut bytes: Vec<u8> = Vec::new();
        let mut k: usize = 0;
        while k < MAX_ADMIN_TOKEN_BYTES
            invariant
                k <= MAX_ADMIN_TOKEN_BYTES,
                chars@ == token@,
                chars@.len() <= MAX_ADMIN_TOKEN_BYTES,
                visible_ascii(chars@),
                bytes@.len() == k,
                forall|j: int| 0 <= j < k && j < chars@.len() ==> #[trigger] bytes@[j] as u32 == chars@[j] as u32,
                forall|j: int| chars@.len() <= j < k ==> #[trigger] bytes@[j] == 0,
            decreases MAX_ADMIN_TOKEN_BYTES - k,
        {
            if k < chars.len() {
                let v = chars[k] as u32;
                assert(0x21 <= chars@[k as int] as u32 <= 0x7E);
                bytes.push(v as u8);
            } else {
                bytes.push(0);
            }
            k = k + 1;
        }
        let c = AdminCredential { bytes, length: chars.len() };
        proof {
            assert forall|j: int| 0 <= j < chars@.len() implies 0x21 <= #[trigger] c.bytes@[j] <= 0x7E by {
                assert(0x21 <= chars@[j] as u32 <= 0x7E);
            }
            assert forall|j: int| 0 <= j < chars@.len() implies #[trigger] c.token()[j] == token@[j] by {
                vstd::utf8::char_u32_cast(token@[j], token@[j] as u32);
                assert(c.bytes@[j] as u32 == token@[j] as u32);
            }
            assert(c.token() =~= token@);
        }
        Ok(c)
    }

    /// Whether `provided` is the token. The whole buffer is always compared.
    pub fn matches(&self, provided: &str) -> (r: bool)
        ensures
            r == (provided@ == self.token()),
    {
        proof {
            use_type_invariant(self);
        }
        let p = chars_of(provided);
        let n = byte_length(provided);
        let mut same = n == self.length;
        let mut i: usize = 0;
        while i < MAX_ADMIN_TOKEN_BYTES
            invariant
                i <= MAX_ADMIN_TOKEN_BYTES,
                p@ == provided@,
                self.bytes@.len() == MAX_ADMIN_TOKEN_BYTES,
                same == (n == self.length && forall|j: int| 0 <= j < i ==> #[trigger] code_at(p@, j) == self.bytes@[j] as u32),
            decreases MAX_ADMIN_TOKEN_BYTES - i,
        {
            let a: u32 = if i < p.len() {
                p[i] as u32
            } else {
                0
            };
            let b = self.bytes[i] as u32;
            assert(a == code_at(p@, i as int));
            if a != b {
                same = false;
            }
            i = i + 1;
        }
        proof {
            lemma_byte_len_ge_len(provided@);
            if provided@ == self.token() {
                lemma_ascii_byte_len(self.token());
                assert forall|j: int| 0 <= j < MAX_ADMIN_TOKEN_BYTES implies #[trigger] code_at(p@, j) == self.bytes@[j] as u32 by {
                    if j < self.length {
                        assert(p@[j] == self.bytes@[j] as char);
                        vstd::utf8::char_u32_cast(p@[j], self.bytes@[j] as u32);
                    }
                }
            }
            if same {
                assert(p@.len() <= self.length) by {
                    if p@.len() > self.length {
                        assert(byte_len(p@) >= p@.len());
                    }
                }
                assert(p@.len() >= self.length) by {
                    if p@.len() < self.length {
                        assert(code_at(p@, p@.len() as int) == self.bytes@[p@.len() as int] as u32);
                    }
                }
                assert forall|j: int| 0 <= j < p@.len() implies p@[j] == #[trigger] self.token()[j] by {
                    assert(code_at(p@, j) == self.bytes@[j] as u32);
                    vstd::utf8::char_u32_cast(p@[j], self.bytes@[j] as u32);
                }
                assert(p@ =~= self.token());
            }
        }
        same
    }
}

/// The code of the character at `j`, or 0 past the end.
pub open spec fn code_at(s: Seq<char>, j: int) -> u32 {
    if 0 <= j < s.len() {
        s[j] as u32
    } else {
        0
    }
}

/// An ASCII sequence has one byte per character.
proof fn lemma_ascii_byte_len(s: Seq<char>)
    requires
        forall|i: int| 0 <= i < s.len() ==> (#[trigger] s[i] as u32) <= 0x7F,
    ensures
        byte_len(s) == s.len(),
    decreases s.len(),
{
    if s.len() > 0 {
        assert(s[0] as u32 <= 0x7F);
        assert forall|i: int| 0 <= i < s.drop_first().len() implies (#[trigger] s.drop_first()[i] as u32) <= 0x7F by {
            assert(s.drop_first()[i] == s[i + 1]);
        }
        lemma_ascii_byte_len(s.drop_first());
    }
}

/// Whether an `Authorization` header value carries the admin token as a
/// bearer token.
pub open spec fn bearer_ok(header: Option<Seq<char>>, token: Seq<char>) -> bool {
    match header {
        Some(h) => starts_with(h, "Bearer "@) && h.skip(7) == token,
        None => false,
    }
}

/// Checks the `Authorization` header (absent, or not text: `None`) against
/// the credential.
pub fn authorize(authorization: Option<&str>, credential: &AdminCredential) -> (r: bool)
    ensures
        r == bearer_ok(crate::endpoint::opt_str_view(authorization), credential.token()),
{
    proof {
        reveal_strlit("Bearer ");
    }
    match authorization {
        None => false,
        Some(value) => {
            if !text_starts_with(value, "Bearer ") {
                return false;
            }
            let n = value.unicode_len();
            let provided = substring(value, 7, n);
            assert(provided@ =~= value@.skip(7));
            credential.matches(provided.as_str())
        },
    }
}

/// The credential configured by the admin token variable, if it is set: its
/// value is trimmed and must not be blank.
pub fn credential_from_env_value(token: Option<String>) -> (r: Result<Option<AdminCredential>, HyperError>)
    ensures
        match token {
            None => r matches Ok(None),
            Some(t) => if trim(t@).len() == 0 {
                r matches Err(e) && e.message@ == "HYPERGATE_ADMIN_TOKEN is empty"@
            } else if byte_len(trim(t@)) > MAX_ADMIN_TOKEN_BYTES {
                r matches Err(e) && e.message@ == "HYPERGATE_ADMIN_TOKEN exceeds 1024 bytes"@
            } else if !visible_ascii(trim(t@)) {
                r matches Err(e) && e.message@ == "HYPERGATE_ADMIN_TOKEN must contain visible ASCII characters only"@
            } else {
                r matches Ok(Some(c)) && c.token() == trim(t@)
            },
        },
{
    match token {
        None => Ok(None),
        Some(t) => {
            let value = trim_text(t.as_str());
            if value.as_str().unicode_len() == 0 {
                return Err(HyperError::new("HYPERGATE_ADMIN_TOKEN is empty"));
            }
            match AdminCredential::new(value.as_str()) {
                Ok(c) => Ok(Some(c)),
                Err(e) => Err(e),
            }
        },
    }
}

/// The admin listen address text: the variable's trimmed value, or the default.
pub fn admin_listen_text(listen: Option<String>) -> (r: String)
    ensures
        r@ == match listen {
            Some(l) => trim(l@),
            None => DEFAULT_ADMIN_LISTEN@,
        },
{
    match listen {
        Some(l) => trim_text(l.as_str()),
        None => owned(DEFAULT_ADMIN_LISTEN),
    }
}

/// Whether an address is a loopback address (`127.0.0.0/8` or `::1`).
pub open spec fn loopback(a: PeerAddress) -> bool {
    if a.is_v6 {
        a.address == 1
    } else {
        a.address / 0x100_0000 == 127
    }
}

/// Whether the admin API may listen on an address: only loopback addresses.
pub fn is_loopback(addr: &PeerAddress) -> (r: bool)
    ensures
        r == loopback(*addr),
{
    if addr.is_v6 {
        addr.address == 1
    } else {
        addr.address / 0x100_0000 == 127
    }
}

/// The version named by an action request: trimmed, and required.
pub fn parse_version(version: String) -> (r: Option<VersionId>)
    ensures
        r is None <==> trim(version@).len() == 0,
        r matches Some(id) ==> id@ == trim(version@),
{
    let v = trim_text(version.as_str());
    if v.as_str().unicode_len() == 0 {
        return None;
    }
    Some(VersionId::from_string(v))
}

/// The stable replies of the management API.
#[derive(Clone, Copy, PartialEq, Eq, Structural)]
pub enum AdminReply {
    /// Missing or wrong bearer token.
    Unauthorized,
    /// The body is not the expected JSON.
    InvalidBody,
    /// The action names no version.
    VersionRequired,
    /// No such route.
    NotFound,
    /// The route does not take this method.
    MethodNotAllowed,
    /// The control refused the action.
    Rejected,
    /// An internal failure.
    InternalError,
}

impl AdminReply {
    /// The reply's HTTP status.
    pub fn status(self) -> (s: u16)
        ensures
            s == match self {
                AdminReply::Unauthorized => 401u16,
                AdminReply::InvalidBody => 400u16,
                AdminReply::VersionRequired => 400u16,
                AdminReply::NotFound => 404u16,
                AdminReply::MethodNotAllowed => 405u16,
                AdminReply::Rejected => 409u16,
                AdminReply::InternalError => 500u16,
            },
    {
        match self {
            AdminReply::Unauthorized => 401,
            AdminReply::InvalidBody => 400,
            AdminReply::VersionRequired => 400,
            AdminReply::NotFound => 404,
            AdminReply::MethodNotAllowed => 405,
            AdminReply::Rejected => 409,
            AdminReply::InternalError => 500,
        }
    }

    /// The reply's error message.
    pub fn message(self) -> (m: &'static str)
        ensures
            m@ == match self {
                AdminReply::Unauthorized => "unauthorized"@,
                AdminReply::InvalidBody => "invalid request body"@,
                AdminReply::VersionRequired => "version is required"@,
                AdminReply::NotFound => "not found"@,
                AdminReply::MethodNotAllowed => "method not allowed"@,
                AdminReply::Rejected => "control action rejected"@,
                AdminReply::InternalError => "internal server error"@,
            },
    {
        match self {
            AdminReply::Unauthorized => "unauthorized",
            AdminReply::InvalidBody => "invalid request body",
            AdminReply::VersionRequired => "version is required",
            AdminReply::NotFound => "not found",
            AdminReply::MethodNotAllowed => "method not allowed",
            AdminReply::Rejected => "control action rejected",
            AdminReply::InternalError => "internal server error",
        }
    }
}

/// The reply to a refused control action: a conflict is reported as
/// rejected, any other failure as internal; details stay in the server log.
pub fn control_error_reply(error: &ControlError) -> (r: AdminReply)
    ensures
        r == match error {
            ControlError::Conflict(_) => AdminReply::Rejected,
            ControlError::Internal(_) => AdminReply::InternalError,
        },
{
    match error {
        ControlError::Conflict(_) => AdminReply::Rejected,
        ControlError::Internal(_) => AdminReply::InternalError,
    }
}

} // verus!
