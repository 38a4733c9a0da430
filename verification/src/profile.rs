//! The profile record and its presence status.
//!
//! A `Profile` is the logical, mutable entity a participant publishes about
//! itself. Its `status` field is a closed three-variant enumeration carried
//! on the wire as a plain string; any string other than exactly "Online" or
//! "Away" decodes to `Offline`, a deliberate fallback rather than an error.

use vstd::prelude::*;

verus! {

/// The network identity of a participant: a cryptographically addressable
/// peer, modelled here as a plain number.
#[derive(Clone, Copy, Debug, PartialEq, Eq, Structural, Hash)]
pub struct AgentPubKey(pub u64);

/// The address of one immutable version of a record in the store.
#[derive(Clone, Copy, Debug, PartialEq, Eq, Structural, Hash)]
pub struct HeaderHash(pub usize);

/// A participant's presence status.
#[derive(Clone, Copy, Debug, PartialEq, Eq, Structural)]
pub enum Status {
    Online,
    Away,
    Offline,
}

/// The string a status decodes from: exactly "Online" and "Away" name their
/// variants, every other string falls back to `Offline`.
pub open spec fn status_decode_spec(s: Seq<char>) -> Status {
    if s == "Online"@ {
        Status::Online
    } else if s == "Away"@ {
        Status::Away
    } else {
        Status::Offline
    }
}

/// The string a status encodes to.
pub open spec fn status_encode_spec(status: Status) -> Seq<char> {
    match status {
        Status::Online => "Online"@,
        Status::Away => "Away"@,
        Status::Offline => "Offline"@,
    }
}

impl From<String> for Status {
    /// Decodes a status string, with the `Offline` fallback for anything
    /// unrecognized.
    fn from(s: String) -> (status: Status) {
        if s == "Online".to_owned() {
            Status::Online
        } else if s == "Away".to_owned() {
            Status::Away
        } else {
            Status::Offline
        }
    }
}

impl vstd::std_specs::convert::FromSpecImpl<String> for Status {
    open spec fn obeys_from_spec() -> bool {
        true
    }

    open spec fn from_spec(s: String) -> Status {
        status_decode_spec(s@)
    }
}

impl Status {
    /// Encodes the status as the plain string carried on the wire.
    pub fn status_string(&self) -> (s: String)
        ensures
            s@ == status_encode_spec(*self),
    {
        match *self {
            Status::Online => "Online".to_owned(),
            Status::Away => "Away".to_owned(),
            Status::Offline => "Offline".to_owned(),
        }
    }
}

/// A participant's self-description: the logical, mutable record this
/// directory manages. The `address` field names the owning participant;
/// nothing here enforces that it matches the identity that actually writes
/// the record (ownership validation is a deliberate non-goal).
#[derive(Debug)]
pub struct Profile {
    pub first_name: String,
    pub last_name: String,
    pub handle: String,
    pub status: Status,
    pub avatar_url: String,
    pub address: AgentPubKey,
}

/// What equality of two profiles means: the text fields agree character for
/// character, and the status and owner identity agree.
pub open spec fn profile_eq_spec(a: Profile, b: Profile) -> bool {
    &&& a.first_name@ == b.first_name@
    &&& a.last_name@ == b.last_name@
    &&& a.handle@ == b.handle@
    &&& a.status == b.status
    &&& a.avatar_url@ == b.avatar_url@
    &&& a.address == b.address
}

impl Clone for Profile {
    fn clone(&self) -> (res: Self)
        ensures
            res == *self,
    {
        Profile {
            first_name: self.first_name.clone(),
            last_name: self.last_name.clone(),
            handle: self.handle.clone(),
            status: self.status,
            avatar_url: self.avatar_url.clone(),
            address: self.address,
        }
    }
}

impl PartialEq for Profile {
    fn eq(&self, other: &Self) -> (r: bool) {
        self.first_name == other.first_name && self.last_name == other.last_name
            && self.handle == other.handle && self.status == other.status
            && self.avatar_url == other.avatar_url && self.address == other.address
    }
}

impl vstd::std_specs::cmp::PartialEqSpecImpl for Profile {
    open spec fn obeys_eq_spec() -> bool {
        true
    }

    open spec fn eq_spec(&self, other: &Self) -> bool {
        profile_eq_spec(*self, *other)
    }
}

/// The wire representation of a record: its current content paired with the
/// address of the specific immutable version an index currently points at,
/// so that a later update knows which version to chain from.
#[derive(Debug)]
pub struct WireEntry {
    pub entry: Profile,
    pub address: HeaderHash,
}

/// Equality of wire entries: equal content and the same version address.
pub open spec fn wire_entry_eq_spec(a: WireEntry, b: WireEntry) -> bool {
    profile_eq_spec(a.entry, b.entry) && a.address == b.address
}

impl Clone for WireEntry {
    fn clone(&self) -> (res: Self)
        ensures
            res == *self,
    {
        WireEntry { entry: self.entry.clone(), address: self.address }
    }
}

impl PartialEq for WireEntry {
    fn eq(&self, other: &Self) -> (r: bool) {
        self.entry == other.entry && self.address == other.address
    }
}

impl vstd::std_specs::cmp::PartialEqSpecImpl for WireEntry {
    open spec fn obeys_eq_spec() -> bool {
        true
    }

    open spec fn eq_spec(&self, other: &Self) -> bool {
        wire_entry_eq_spec(*self, *other)
    }
}

/// The bulk view handed to browsers of the directory: every participant's
/// latest content, discovery order, resolution misses omitted.
#[derive(Debug)]
pub struct AgentsOutput(pub Vec<Profile>);

/// The answer to a participant asking for its own record: absent rather
/// than failing when nothing is registered or nothing is visible yet.
#[derive(Debug)]
pub struct WhoAmIOutput(pub Option<WireEntry>);

/// A point-to-point notification carrying an updated record to a peer,
/// tagged so the receiving side can recognize it as a profile update.
#[derive(Debug)]
pub struct AgentSignal {
    pub tag: String,
    pub data: WireEntry,
}

impl Clone for AgentSignal {
    fn clone(&self) -> (res: Self)
        ensures
            res == *self,
    {
        AgentSignal { tag: self.tag.clone(), data: self.data.clone() }
    }
}

/// The three status strings are pairwise distinct (their lengths already
/// differ).
proof fn lemma_status_strings_distinct()
    ensures
        "Online"@ != "Away"@,
        "Online"@ != "Offline"@,
        "Away"@ != "Offline"@,
{
    reveal_strlit("Online");
    reveal_strlit("Away");
    reveal_strlit("Offline");
    assert("Online"@.len() == 6);
    assert("Away"@.len() == 4);
    assert("Offline"@.len() == 7);
}

/// Decoding the string a status encodes to gives that status back: the
/// encoding is lossless on the three variants.
pub proof fn lemma_status_decode_encode(status: Status)
    ensures
        status_decode_spec(status_encode_spec(status)) == status,
{
    lemma_status_strings_distinct();
}

/// Encoding a decoded string reproduces it exactly when, and only when, the
/// string is one of "Online", "Away" or "Offline"; every other string is
/// absorbed by the `Offline` fallback.
pub proof fn lemma_status_encode_decode(s: Seq<char>)
    ensures
        status_encode_spec(status_decode_spec(s)) == s <==> (s == "Online"@ || s == "Away"@
            || s == "Offline"@),
{
    lemma_status_strings_distinct();
}

} // verus!
