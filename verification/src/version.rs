//! Version identifiers, version states and the packed state/request counter.

use vstd::prelude::*;

use crate::text::owned;

verus! {

/// Identifier of a deployed version (for example `v1`, `stable`, `canary`).
#[derive(Debug, Hash)]
pub struct VersionId {
    /// The identifier text.
    pub value: String,
}

impl View for VersionId {
    type V = Seq<char>;

    open spec fn view(&self) -> Seq<char> {
        self.value@
    }
}

impl VersionId {
    /// Creates a version identifier.
    pub fn new(value: &str) -> (id: VersionId)
        ensures
            id@ == value@,
    {
        VersionId { value: owned(value) }
    }

    /// Creates a version identifier from an owned string.
    pub fn from_string(value: String) -> (id: VersionId)
        ensures
            id@ == value@,
    {
        VersionId { value }
    }

    /// Whether two identifiers are the same text.
    pub fn same(&self, other: &VersionId) -> (r: bool)
        ensures
            r == (self@ == other@),
    {
        self.value == other.value
    }
}

impl Clone for VersionId {
    fn clone(&self) -> (r: Self)
        ensures
            r@ == self@,
    {
        VersionId { value: self.value.clone() }
    }
}

impl PartialEq for VersionId {
    fn eq(&self, other: &Self) -> (r: bool) {
        self.value == other.value
    }
}

impl vstd::std_specs::cmp::PartialEqSpecImpl for VersionId {
    open spec fn obeys_eq_spec() -> bool {
        true
    }

    open spec fn eq_spec(&self, other: &Self) -> bool {
        self.value@ == other.value@
    }
}

impl Eq for VersionId {

}

/// The identifiers held by a sequence of version ids.
pub open spec fn id_set(ids: Seq<VersionId>) -> Set<Seq<char>> {
    Set::new(|k: Seq<char>| holds_id(ids, k))
}

/// Whether an identifier occurs in a sequence of version ids.
pub open spec fn holds_id(ids: Seq<VersionId>, k: Seq<char>) -> bool {
    exists|j: int| 0 <= j < ids.len() && #[trigger] ids[j]@ == k
}

/// Lifecycle state of a deployed version.
#[derive(Debug, Clone, Copy, PartialEq, Eq, Structural)]
pub enum VersionState {
    /// The version is starting.
    Starting,
    /// Started, waiting for health checks and warm-up.
    Warming,
    /// Accepts new requests.
    Active,
    /// No new requests; existing long connections finish.
    Draining,
    /// Stopped.
    Stopped,
    /// Failed to start or run.
    Failed,
}

/// The stable text of a state.
pub open spec fn state_label(s: VersionState) -> Seq<char> {
    match s {
        VersionState::Starting => "starting"@,
        VersionState::Warming => "warming"@,
        VersionState::Active => "active"@,
        VersionState::Draining => "draining"@,
        VersionState::Stopped => "stopped"@,
        VersionState::Failed => "failed"@,
    }
}

impl VersionState {
    /// Only an active version accepts new requests.
    pub fn accepts_new_requests(self) -> (r: bool)
        ensures
            r == (self == VersionState::Active),
    {
        match self {
            VersionState::Active => true,
            _ => false,
        }
    }

    /// The stable text of the state.
    pub fn as_str(self) -> (r: &'static str)
        ensures
            r@ == state_label(self),
    {
        match self {
            VersionState::Starting => "starting",
            VersionState::Warming => "warming",
            VersionState::Active => "active",
            VersionState::Draining => "draining",
            VersionState::Stopped => "stopped",
            VersionState::Failed => "failed",
        }
    }
}

// ---------------------------------------------------------------------------
// Packed state and active-request counter
// ---------------------------------------------------------------------------

/// Low bits of the packed word that hold the state code.
pub const STATE_BITS: u64 = 8;

/// Mask of the state code bits.
pub const STATE_MASK: u64 = 255;

/// Packed increment of one request lease.
pub const REQUEST_INCREMENT: u64 = 256;

/// The code a state is stored under.
pub open spec fn state_code(s: VersionState) -> u8 {
    match s {
        VersionState::Starting => 0,
        VersionState::Warming => 1,
        VersionState::Active => 2,
        VersionState::Draining => 3,
        VersionState::Stopped => 4,
        VersionState::Failed => 5,
    }
}

/// The state a code denotes; unknown codes read as stopped.
pub open spec fn code_state(c: u8) -> VersionState {
    if c == 0 {
        VersionState::Starting
    } else if c == 1 {
        VersionState::Warming
    } else if c == 2 {
        VersionState::Active
    } else if c == 3 {
        VersionState::Draining
    } else if c == 5 {
        VersionState::Failed
    } else {
        VersionState::Stopped
    }
}

/// State held by a packed word.
pub open spec fn packed_state(v: u64) -> VersionState {
    code_state((v % 256) as u8)
}

/// Active-request count held by a packed word.
pub open spec fn packed_requests(v: u64) -> nat {
    (v / 256) as nat
}

/// Encodes a state for the packed word.
pub fn encode_state(state: VersionState) -> (c: u8)
    ensures
        c == state_code(state),
{
    match state {
        VersionState::Starting => 0,
        VersionState::Warming => 1,
        VersionState::Active => 2,
        VersionState::Draining => 3,
        VersionState::Stopped => 4,
        VersionState::Failed => 5,
    }
}

/// Decodes a stored state code; unknown codes fall back to stopped.
pub fn decode_state(c: u8) -> (s: VersionState)
    ensures
        s == code_state(c),
{
    match c {
        0 => VersionState::Starting,
        1 => VersionState::Warming,
        2 => VersionState::Active,
        3 => VersionState::Draining,
        5 => VersionState::Failed,
        _ => VersionState::Stopped,
    }
}

/// Decoding an encoded state gives the state back.
pub proof fn lemma_decode_encode(s: VersionState)
    ensures
        code_state(state_code(s)) == s,
{
}

/// Reads the state of a packed word.
pub fn unpack_state(v: u64) -> (s: VersionState)
    ensures
        s == packed_state(v),
{
    let low = v & STATE_MASK;
    assert(low == v % 256) by (bit_vector)
        requires
            low == v & 255u64,
    ;
    decode_state(low as u8)
}

/// Reads the active-request count of a packed word.
pub fn unpack_requests(v: u64) -> (n: u64)
    ensures
        n == packed_requests(v),
{
    let n = v >> STATE_BITS;
    assert(n == v / 256) by (bit_vector)
        requires
            n == v >> 8u64,
    ;
    n
}

/// Replaces the state of a packed word, keeping its request count.
pub fn with_state(v: u64, state: VersionState) -> (w: u64)
    ensures
        packed_state(w) == state,
        packed_requests(w) == packed_requests(v),
{
    let code = encode_state(state) as u64;
    let w = (v & !STATE_MASK) | code;
    assert(w % 256 == code && w / 256 == v / 256) by (bit_vector)
        requires
            w == (v & !255u64) | code,
            code < 256,
    ;
    w
}

/// A packed word holding `state` and no requests.
pub fn initial_word(state: VersionState) -> (w: u64)
    ensures
        packed_state(w) == state,
        packed_requests(w) == 0,
{
    encode_state(state) as u64
}

} // verus!
