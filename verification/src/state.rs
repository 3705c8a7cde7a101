//! The gateway's persisted runtime state and the rules it is read back under.
//!
//! Reading and writing the state file is I/O; this module holds the record,
//! its on-disk shape as plain values, and the checks a decoded record must pass.

use vstd::prelude::*;

use crate::error::HyperError;
use crate::request::ConfigRevision;
use crate::text::{decimal, owned, push_str, trim, trim_text, u64_to_text, views};
use crate::version::VersionId;

verus! {

/// Version of the state file layout.
pub const STATE_SCHEMA_VERSION: u32 = 1;

/// What a gateway restart must restore.
#[derive(Debug, Clone)]
pub struct PersistedState {
    /// Revision of the state.
    pub revision: ConfigRevision,
    /// The version receiving new requests.
    pub active_version: VersionId,
    /// Recent switch history, oldest first.
    pub history: Vec<VersionId>,
}

/// The state file's fields as plain values.
pub struct StateFile {
    /// Layout version.
    pub schema_version: u32,
    /// Revision.
    pub revision: u64,
    /// Active version.
    pub active_version: String,
    /// History, oldest first.
    pub history: Vec<String>,
}

/// Whether a text is blank once trimmed.
pub open spec fn blank(s: Seq<char>) -> bool {
    trim(s).len() == 0
}

/// The error text for an unsupported layout version.
pub open spec fn schema_message(v: u32) -> Seq<char> {
    "unsupported state schema version: "@ + decimal(v as nat)
}

/// A persisted state as plain values: revision, active version, history.
pub type StateView = (u64, Seq<char>, Seq<Seq<char>>);

/// A state file as plain values: layout version, revision, active version, history.
pub type StateFileView = (u32, u64, Seq<char>, Seq<Seq<char>>);

impl View for PersistedState {
    type V = StateView;

    open spec fn view(&self) -> StateView {
        (self.revision.value, self.active_version@, Seq::new(self.history@.len(), |i: int| self.history@[i]@))
    }
}

impl View for StateFile {
    type V = StateFileView;

    open spec fn view(&self) -> StateFileView {
        (self.schema_version, self.revision, self.active_version@, views(self.history@))
    }
}

/// The file form of a state.
pub open spec fn encoded(s: StateView) -> StateFileView {
    (STATE_SCHEMA_VERSION, s.0, s.1, s.2)
}

/// Whether a state can be read back: a revision, a non-blank active version
/// and no blank history entry.
pub open spec fn restorable(s: StateView) -> bool {
    &&& s.0 != 0
    &&& !blank(s.1)
    &&& forall|i: int| 0 <= i < s.2.len() ==> !blank(#[trigger] s.2[i])
}

/// What reading a state file gives: the state, or the error text.
pub open spec fn decoded(f: StateFileView) -> Result<StateView, Seq<char>> {
    if f.0 != STATE_SCHEMA_VERSION {
        Err(schema_message(f.0))
    } else if f.1 == 0 || blank(f.2) {
        Err("state revision and active version are required"@)
    } else if exists|i: int| 0 <= i < f.3.len() && blank(#[trigger] f.3[i]) {
        Err("state history contains an empty version"@)
    } else {
        Ok((f.1, f.2, f.3))
    }
}

/// Saving then loading gives back every state that can be read back at all;
/// any other state file is refused, never replaced by a default.
pub proof fn law_state_round_trip(s: StateView)
    ensures
        restorable(s) ==> decoded(encoded(s)) == Ok::<StateView, Seq<char>>(s),
        !restorable(s) ==> decoded(encoded(s)) is Err,
{
}

fn is_blank(s: &String) -> (r: bool)
    ensures
        r == blank(s@),
{
    let t = trim_text(s.as_str());
    t.as_str().unicode_len() == 0
}

impl PersistedState {
    /// First start: revision 1, the configured default version, no history.
    pub fn initial(default_version: VersionId) -> (s: PersistedState)
        ensures
            s.revision.value == 1,
            s.active_version@ == default_version@,
            s.history@.len() == 0,
    {
        PersistedState {
            revision: ConfigRevision::initial(),
            active_version: default_version,
            history: Vec::new(),
        }
    }

    /// The record in file form.
    pub fn to_file(&self) -> (f: StateFile)
        ensures
            f.schema_version == STATE_SCHEMA_VERSION,
            f.revision == self.revision.value,
            f.active_version@ == self.active_version@,
            f.history@.len() == self.history@.len(),
            forall|i: int| 0 <= i < f.history@.len() ==> #[trigger] f.history@[i]@ == self.history@[i]@,
            f@ == encoded(self@),
    {
        let mut history: Vec<String> = Vec::new();
        let mut i: usize = 0;
        while i < self.history.len()
            invariant
                i <= self.history@.len(),
                history@.len() == i,
                forall|j: int| 0 <= j < i ==> #[trigger] history@[j]@ == self.history@[j]@,
            decreases self.history.len() - i,
        {
            history.push(self.history[i].value.clone());
            i = i + 1;
        }
        StateFile {
            schema_version: STATE_SCHEMA_VERSION,
            revision: self.revision.value,
            active_version: self.active_version.value.clone(),
            history,
        }
    }
}

/// Accepts a decoded state file only if it has the supported layout, a
/// non-zero revision, a non-blank active version and no blank history entry;
/// a damaged file never falls back to defaults.
pub fn decode_state(file: StateFile) -> (r: Result<PersistedState, HyperError>)
    ensures
        r is Ok <==> file.schema_version == STATE_SCHEMA_VERSION && file.revision != 0 && !blank(
            file.active_version@,
        ) && forall|i: int| 0 <= i < file.history@.len() ==> !blank(#[trigger] file.history@[i]@),
        r matches Ok(s) ==> {
            &&& s.revision.value == file.revision
            &&& s.active_version@ == file.active_version@
            &&& s.history@.len() == file.history@.len()
            &&& forall|i: int| 0 <= i < s.history@.len() ==> #[trigger] s.history@[i]@ == file.history@[i]@
        },
        r matches Err(e) ==> e.message@ == if file.schema_version != STATE_SCHEMA_VERSION {
            schema_message(file.schema_version)
        } else if file.revision == 0 || blank(file.active_version@) {
            "state revision and active version are required"@
        } else {
            "state history contains an empty version"@
        },
        match r {
            Ok(s) => decoded(file@) == Ok::<StateView, Seq<char>>(s@),
            Err(e) => decoded(file@) == Err::<StateView, Seq<char>>(e.message@),
        },
{
    if file.schema_version != STATE_SCHEMA_VERSION {
        let mut message = owned("unsupported state schema version: ");
        let v = u64_to_text(file.schema_version as u64);
        push_str(&mut message, v.as_str());
        return Err(HyperError::from_message(message));
    }
    if file.revision == 0 || is_blank(&file.active_version) {
        return Err(HyperError::new("state revision and active version are required"));
    }
    let ghost texts = file.history@;
    let mut i: usize = 0;
    while i < file.history.len()
        invariant
            texts == file.history@,
            file.schema_version == STATE_SCHEMA_VERSION,
            file.revision != 0,
            !blank(file.active_version@),
            i <= file.history@.len(),
            forall|j: int| 0 <= j < i ==> !blank(#[trigger] file.history@[j]@),
        decreases file.history.len() - i,
    {
        if is_blank(&file.history[i]) {
            assert(blank(views(file.history@)[i as int]));
            return Err(HyperError::new("state history contains an empty version"));
        }
        i = i + 1;
    }
    let ghost fv = file@;
    assert(!exists|j: int| 0 <= j < fv.3.len() && blank(#[trigger] fv.3[j])) by {
        assert forall|j: int| 0 <= j < fv.3.len() implies !blank(#[trigger] fv.3[j]) by {
            assert(fv.3[j] == file.history@[j]@);
        }
    }
    let StateFile { schema_version, revision, active_version, history: texts_vec } = file;
    let mut history: Vec<VersionId> = Vec::new();
    let mut rest = texts_vec;
    let ghost all = rest@;
    let n = rest.len();
    let mut k: usize = 0;
    assert(rest@ =~= all.skip(0));
    while rest.len() > 0
        invariant
            all == texts,
            k + rest@.len() == all.len(),
            all.len() <= usize::MAX,
            rest@ == all.skip(k as int),
            history@.len() == k,
            forall|j: int| 0 <= j < k ==> #[trigger] history@[j]@ == all[j]@,
        decreases rest.len(),
    {
        let t = rest.remove(0);
        assert(t == all[k as int]);
        assert(rest@ =~= all.skip(k + 1));
        history.push(VersionId::from_string(t));
        k = k + 1;
    }
    let restored = PersistedState {
        revision: ConfigRevision { value: revision },
        active_version: VersionId::from_string(active_version),
        history,
    };
    assert(restored@.2 =~= fv.3);
    Ok(restored)
}

} // verus!
