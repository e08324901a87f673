//! Identifiers: 128-bit values shown as hyphenated lower-case hex.

use vstd::prelude::*;
use vstd::arithmetic::power::pow;

verus! {

/// Big-endian value of a byte sequence.
pub open spec fn be_value(b: Seq<u8>) -> int
    decreases b.len(),
{
    if b.len() == 0 {
        0
    } else {
        be_value(b.drop_last()) * 256 + b.last() as int
    }
}

/// Hex digit (lower case) for a nibble.
pub open spec fn hex_digit(n: int) -> char {
    if n < 10 {
        (48 + n) as char
    } else {
        (87 + n) as char
    }
}

/// The `k`-th hex digit of `v`, counting from the most significant of 32.
pub open spec fn nibble_at(v: u128, k: int) -> int {
    (v as int / pow(16, (31 - k) as nat)) % 16
}

/// Number of hyphens that come before position `p` of the hyphenated form.
pub open spec fn hyphens_before(p: int) -> int {
    (if p > 8 { 1int } else { 0int }) + (if p > 13 { 1int } else { 0int })
        + (if p > 18 { 1int } else { 0int }) + (if p > 23 { 1int } else { 0int })
}

/// The hyphenated lower-case form `xxxxxxxx-xxxx-xxxx-xxxx-xxxxxxxxxxxx`
/// of a 128-bit identifier.
pub open spec fn uuid_text(v: u128) -> Seq<char> {
    Seq::new(
        36,
        |p: int|
            if p == 8 || p == 13 || p == 18 || p == 23 {
                '-'
            } else {
                hex_digit(nibble_at(v, p - hyphens_before(p)))
            },
    )
}

/// What `uuid::Uuid::parse_str` gives, as a 128-bit value, for a text.
pub uninterp spec fn uuid_parse(s: Seq<char>) -> Option<u128>;

/// Calls `uuid::Uuid::new_v4`: a random identifier. Nothing is stated of
/// the value, which comes from the operating system's random source.
#[verifier::external_body]
fn random_uuid() -> u128 {
    uuid::Uuid::new_v4().as_u128()
}

/// Calls `uuid::Uuid::from_u128(v).to_string()`, whose result the uuid
/// documentation gives as the hyphenated lower-case hex form of `v`.
#[verifier::external_body]
fn uuid_to_text(v: u128) -> (s: String)
    ensures
        s@ == uuid_text(v),
{
    uuid::Uuid::from_u128(v).to_string()
}

/// Calls `uuid::Uuid::parse_str(s)` and takes the value of the result.
/// The result is named `uuid_parse`; the uuid documentation states that
/// the hyphenated form it writes is read back to the same value.
#[verifier::external_body]
pub(crate) fn uuid_from_text(s: &str) -> (r: Option<u128>)
    ensures
        r == uuid_parse(s@),
        forall|v: u128| s@ == uuid_text(v) ==> r == Some(v),
{
    match uuid::Uuid::parse_str(s) {
        Ok(u) => Some(u.as_u128()),
        Err(_) => None,
    }
}


/// Calls `uuid::Uuid::from_u128(v).into_bytes()`: the big-endian bytes of `v`.
#[verifier::external_body]
fn uuid_bytes(v: u128) -> (b: [u8; 16])
    ensures
        be_value(b@) == v as int,
{
    uuid::Uuid::from_u128(v).into_bytes()
}

/// Calls `uuid::Uuid::from_bytes(b).as_u128()`: the big-endian value of `b`.
#[verifier::external_body]
fn uuid_value(b: [u8; 16]) -> (v: u128)
    ensures
        v as int == be_value(b@),
{
    uuid::Uuid::from_bytes(b).as_u128()
}

/// Unique identifier for an agent.
#[derive(Debug, Clone, Copy, PartialEq, Eq, Hash, Structural)]
pub struct AgentId(pub u128);

impl AgentId {
    /// A fresh random identifier.
    pub fn new() -> Self {
        AgentId(random_uuid())
    }

    /// The 16 big-endian bytes of the identifier.
    pub fn as_bytes(&self) -> (b: [u8; 16])
        ensures
            be_value(b@) == self.0 as int,
    {
        uuid_bytes(self.0)
    }

    /// The identifier whose big-endian bytes are `bytes`.
    pub fn from_bytes(bytes: [u8; 16]) -> (id: Self)
        ensures
            id.0 as int == be_value(bytes@),
    {
        AgentId(uuid_value(bytes))
    }

    /// The hyphenated lower-case hex form of the identifier.
    pub fn to_string(&self) -> (s: String)
        ensures
            s@ == uuid_text(self.0),
    {
        uuid_to_text(self.0)
    }
}

/// Unique identifier for an intent.
#[derive(Debug, Clone, Copy, PartialEq, Eq, Hash, Structural)]
pub struct IntentId(pub u128);

impl IntentId {
    /// A fresh random identifier.
    pub fn new() -> Self {
        IntentId(random_uuid())
    }

    /// The 16 big-endian bytes of the identifier.
    pub fn as_bytes(&self) -> (b: [u8; 16])
        ensures
            be_value(b@) == self.0 as int,
    {
        uuid_bytes(self.0)
    }

    /// The identifier whose big-endian bytes are `bytes`.
    pub fn from_bytes(bytes: [u8; 16]) -> (id: Self)
        ensures
            id.0 as int == be_value(bytes@),
    {
        IntentId(uuid_value(bytes))
    }

    /// The hyphenated lower-case hex form of the identifier.
    pub fn to_string(&self) -> (s: String)
        ensures
            s@ == uuid_text(self.0),
    {
        uuid_to_text(self.0)
    }
}

/// Unique identifier for an inter-agent channel.
#[derive(Debug, Clone, Copy, PartialEq, Eq, Hash, Structural)]
pub struct ChannelId(pub u128);

impl ChannelId {
    /// A fresh random identifier.
    pub fn new() -> Self {
        ChannelId(random_uuid())
    }

    /// The hyphenated lower-case hex form of the identifier.
    pub fn to_string(&self) -> (s: String)
        ensures
            s@ == uuid_text(self.0),
    {
        uuid_to_text(self.0)
    }
}

/// Unique identifier for an amendment proposal.
#[derive(Debug, Clone, Copy, PartialEq, Eq, Hash, Structural)]
pub struct ProposalId(pub u128);

impl ProposalId {
    /// A fresh random identifier.
    pub fn new() -> Self {
        ProposalId(random_uuid())
    }

    /// The hyphenated lower-case hex form of the identifier.
    pub fn to_string(&self) -> (s: String)
        ensures
            s@ == uuid_text(self.0),
    {
        uuid_to_text(self.0)
    }
}

/// Unique identifier for a negotiation session.
#[derive(Debug, Clone, Copy, PartialEq, Eq, Hash, Structural)]
pub struct SessionId(pub u128);

impl SessionId {
    /// A fresh random identifier.
    pub fn new() -> Self {
        SessionId(random_uuid())
    }

    /// The hyphenated lower-case hex form of the identifier.
    pub fn to_string(&self) -> (s: String)
        ensures
            s@ == uuid_text(self.0),
    {
        uuid_to_text(self.0)
    }
}

/// Unique identifier for a plan constraint.
#[derive(Debug, Clone, Copy, PartialEq, Eq, Hash, Structural)]
pub struct ConstraintId(pub u128);

impl ConstraintId {
    /// A fresh random identifier.
    pub fn new() -> Self {
        ConstraintId(random_uuid())
    }

    /// The hyphenated lower-case hex form of the identifier.
    pub fn to_string(&self) -> (s: String)
        ensures
            s@ == uuid_text(self.0),
    {
        uuid_to_text(self.0)
    }
}

/// Unique identifier for a collaboration task.
#[derive(Debug, Clone, Copy, PartialEq, Eq, Hash, Structural)]
pub struct TaskId(pub u128);

impl TaskId {
    /// A fresh random identifier.
    pub fn new() -> Self {
        TaskId(random_uuid())
    }

    /// The hyphenated lower-case hex form of the identifier.
    pub fn to_string(&self) -> (s: String)
        ensures
            s@ == uuid_text(self.0),
    {
        uuid_to_text(self.0)
    }
}

} // verus!
