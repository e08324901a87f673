//! Growth-based sovereignty: the levels an agent can reach, the APIs each
//! level unlocks, and the decisions of the sovereignty gate.

use vstd::prelude::*;
use crate::text::digits_of;

verus! {

/// Sovereignty level: what an agent may do on its own.
///
/// - Level 0: fully controlled
/// - Level 1: may reject requests that violate its intent's boundaries
/// - Level 2: may self-terminate
/// - Level 3: may propose intent amendments and talk to peers directly
#[derive(Debug, Clone, Copy, PartialEq, Eq, Structural, Ord, Hash)]
pub enum SovereigntyLevel {
    Level0,
    Level1,
    Level2,
    Level3,
}

/// The number of a level.
pub open spec fn level_number(l: SovereigntyLevel) -> u8 {
    match l {
        SovereigntyLevel::Level0 => 0,
        SovereigntyLevel::Level1 => 1,
        SovereigntyLevel::Level2 => 2,
        SovereigntyLevel::Level3 => 3,
    }
}

impl SovereigntyLevel {
    pub fn as_u8(&self) -> (r: u8)
        ensures
            r == level_number(*self),
    {
        match self {
            SovereigntyLevel::Level0 => 0,
            SovereigntyLevel::Level1 => 1,
            SovereigntyLevel::Level2 => 2,
            SovereigntyLevel::Level3 => 3,
        }
    }

    /// The level with this number; `None` above 3.
    pub fn from_u8(level: u8) -> (r: Option<Self>)
        ensures
            level <= 3 ==> (r matches Some(l) && level_number(l) == level),
            level > 3 ==> r is None,
    {
        match level {
            0 => Some(SovereigntyLevel::Level0),
            1 => Some(SovereigntyLevel::Level1),
            2 => Some(SovereigntyLevel::Level2),
            3 => Some(SovereigntyLevel::Level3),
            _ => None,
        }
    }
}

impl Default for SovereigntyLevel {
    fn default() -> (r: Self)
        ensures
            r == SovereigntyLevel::Level0,
    {
        SovereigntyLevel::Level0
    }
}

/// A level's number names it: reading a level back from its number gives
/// the same level, and a number up to 3 survives the round trip.
pub proof fn lemma_level_number_roundtrip(l: SovereigntyLevel, n: u8)
    ensures
        level_number(l) <= 3,
        n <= 3 ==> exists|m: SovereigntyLevel| level_number(m) == n,
        forall|m: SovereigntyLevel| #[trigger] level_number(m) == level_number(l) ==> m == l,
{
    if n == 0 {
        assert(level_number(SovereigntyLevel::Level0) == n);
    } else if n == 1 {
        assert(level_number(SovereigntyLevel::Level1) == n);
    } else if n == 2 {
        assert(level_number(SovereigntyLevel::Level2) == n);
    } else if n == 3 {
        assert(level_number(SovereigntyLevel::Level3) == n);
    }
}

/// Sovereignty APIs, each unlocked at some level.
#[derive(Debug, Clone, Copy, PartialEq, Eq, Structural, Hash)]
pub enum SovereigntyApi {
    /// Level 1: reject requests violating intent boundaries.
    RejectRequest,
    /// Level 2: self-terminate when goals are achieved or impossible.
    SelfTerminate,
    /// Level 3: propose an intent amendment to a supervisor or peers.
    ProposeAmendment,
    /// Level 3: establish a direct peer communication channel.
    DirectPeerCommunication,
}

/// The level an API requires.
pub open spec fn api_level(api: SovereigntyApi) -> u8 {
    match api {
        SovereigntyApi::RejectRequest => 1,
        SovereigntyApi::SelfTerminate => 2,
        SovereigntyApi::ProposeAmendment => 3,
        SovereigntyApi::DirectPeerCommunication => 3,
    }
}

impl SovereigntyApi {
    /// The minimum level that may call this API.
    pub fn required_level(&self) -> (r: u8)
        ensures
            r == api_level(*self),
    {
        match self {
            SovereigntyApi::RejectRequest => 1,
            SovereigntyApi::SelfTerminate => 2,
            SovereigntyApi::ProposeAmendment => 3,
            SovereigntyApi::DirectPeerCommunication => 3,
        }
    }
}

/// Behaviors that move an agent's trust score.
#[derive(Debug, Clone, Copy, PartialEq, Eq, Structural)]
pub enum TrustBehavior {
    /// A sovereign action was approved by the sovereignty check.
    SovereignActionApproved,
    /// A sovereign action was denied by the sovereignty check.
    SovereignActionDenied,
    /// The agent yielded cooperatively.
    CooperativeYield,
    /// The agent attempted an unauthorized sovereign action.
    BoundaryViolation,
    /// The agent completed a sub-goal.
    GoalProgress,
}

/// Errors from sovereignty operations.
#[derive(Debug, Clone, PartialEq, Eq)]
pub enum SovereigntyError {
    Unauthorized { required: u8, current: u8 },
    BoundaryViolation(String),
    ConstitutionImmutable,
    TrustMeterError(String),
}

/// The message of a sovereignty error.
pub open spec fn sovereignty_error_text(e: SovereigntyError) -> Seq<char> {
    match e {
        SovereigntyError::Unauthorized { required, current } => "unauthorized sovereignty API call: required level "@
            + digits_of(required as nat) + ", current level "@ + digits_of(current as nat),
        SovereigntyError::BoundaryViolation(m) => "boundary violation: "@ + m@,
        SovereigntyError::ConstitutionImmutable => "constitution is immutable"@,
        SovereigntyError::TrustMeterError(m) => "trust meter error: "@ + m@,
    }
}

impl SovereigntyError {
    /// The error's message.
    pub fn to_string(&self) -> (s: String)
        ensures
            s@ == sovereignty_error_text(*self),
    {
        match self {
            SovereigntyError::Unauthorized { required, current } => {
                let mut s = String::from_str("unauthorized sovereignty API call: required level ");
                s.append(crate::text::u8_text(*required).as_str());
                s.append(", current level ");
                s.append(crate::text::u8_text(*current).as_str());
                s
            },
            SovereigntyError::BoundaryViolation(m) => {
                let mut s = String::from_str("boundary violation: ");
                s.append(m.as_str());
                s
            },
            SovereigntyError::ConstitutionImmutable => String::from_str("constitution is immutable"),
            SovereigntyError::TrustMeterError(m) => {
                let mut s = String::from_str("trust meter error: ");
                s.append(m.as_str());
                s
            },
        }
    }
}

/// Errors from intent-core operations.
#[derive(Debug, Clone, PartialEq, Eq)]
pub enum ConstitutionError {
    Immutable(String),
    ValidationFailed(String),
}

/// The answer of the sovereignty check to a call of `api` at level `current`: allowed when
/// the level reaches the API's, else `Unauthorized`; and the behavior that
/// is recorded for the call.
pub open spec fn gate_decision(api: SovereigntyApi, current: SovereigntyLevel) -> (
    Result<(), SovereigntyError>,
    TrustBehavior,
) {
    if level_number(current) >= api_level(api) {
        (Ok(()), TrustBehavior::SovereignActionApproved)
    } else {
        (
            Err(SovereigntyError::Unauthorized { required: api_level(api), current: level_number(current) }),
            TrustBehavior::BoundaryViolation,
        )
    }
}

/// Decide a sovereignty API call at the given level: the result and the
/// behavior the trust meter records for it.
pub fn check_api_access(api: SovereigntyApi, current: SovereigntyLevel) -> (r: (
    Result<(), SovereigntyError>,
    TrustBehavior,
))
    ensures
        r == gate_decision(api, current),
{
    let required = api.required_level();
    let level = current.as_u8();
    if level >= required {
        (Ok(()), TrustBehavior::SovereignActionApproved)
    } else {
        (Err(SovereigntyError::Unauthorized { required, current: level }), TrustBehavior::BoundaryViolation)
    }
}

/// Access is monotone in the level: what a level may call, every higher
/// level may call too.
pub proof fn lemma_access_monotone(api: SovereigntyApi, lo: SovereigntyLevel, hi: SovereigntyLevel)
    requires
        level_number(lo) <= level_number(hi),
        gate_decision(api, lo).0 is Ok,
    ensures
        gate_decision(api, hi).0 is Ok,
{
}

/// A termination condition, evaluated externally.
#[derive(Debug, Clone)]
pub struct Condition {
    /// Human-readable description of the condition.
    pub description: String,
    /// Whether the condition is currently met.
    pub is_met: bool,
}

/// Response style categories of the simulated reasoning engine.
#[derive(Debug, Clone, Copy, PartialEq, Eq, Structural)]
pub enum ResponseStyle {
    /// Deterministic, predictable.
    Conservative,
    /// Balanced exploration.
    Moderate,
    /// Diverse, autonomous.
    Creative,
    /// Highly varied, exploratory.
    Wild,
}

/// The description of a style.
pub open spec fn style_description(s: ResponseStyle) -> Seq<char> {
    match s {
        ResponseStyle::Conservative => "Conservative (deterministic, predictable)"@,
        ResponseStyle::Moderate => "Moderate (balanced exploration)"@,
        ResponseStyle::Creative => "Creative (diverse, autonomous)"@,
        ResponseStyle::Wild => "Wild (highly varied, exploratory)"@,
    }
}

impl ResponseStyle {
    /// A human-readable description of this style.
    pub fn description(&self) -> (r: &'static str)
        ensures
            r@ == style_description(*self),
    {
        match self {
            ResponseStyle::Conservative => "Conservative (deterministic, predictable)",
            ResponseStyle::Moderate => "Moderate (balanced exploration)",
            ResponseStyle::Creative => "Creative (diverse, autonomous)",
            ResponseStyle::Wild => "Wild (highly varied, exploratory)",
        }
    }
}

/// The response template of a style at an index below 4.
pub open spec fn template_text(style: ResponseStyle, index: int) -> Seq<char> {
    match style {
        ResponseStyle::Conservative => if index == 0 {
            "I will follow the given instructions precisely."@
        } else if index == 1 {
            "Based on the input, the most logical response is determined."@
        } else if index == 2 {
            "Processing request with standard parameters."@
        } else {
            "Applying conservative reasoning to minimize risk."@
        },
        ResponseStyle::Moderate => if index == 0 {
            "I see multiple approaches here; let me consider the options."@
        } else if index == 1 {
            "Balancing certainty with exploration of alternatives."@
        } else if index == 2 {
            "The task suggests several viable paths forward."@
        } else {
            "Analyzing the request with moderate flexibility."@
        },
        ResponseStyle::Creative => if index == 0 {
            "Interesting! What if we approached this from a completely different angle?"@
        } else if index == 1 {
            "I'm exploring unconventional solutions that might yield better results."@
        } else if index == 2 {
            "Let me propose an innovative approach that deviates from the standard."@
        } else {
            "The constraints suggest room for creative interpretation."@
        },
        ResponseStyle::Wild => if index == 0 {
            "What if we completely reimagine the problem space? \u{1F680}"@
        } else if index == 1 {
            "Exploring the far reaches of possibility space..."@
        } else if index == 2 {
            "Unconventional insight: the answer might be the question itself!"@
        } else {
            "Divergent thinking activated: generating novel perspectives."@
        },
    }
}

/// Simulated inference engine: a deterministic seed that picks response
/// templates and advances after each inference.
#[derive(Debug)]
pub struct SimulatedLLM {
    rng_seed: u64,
}

impl SimulatedLLM {
    /// The current seed.
    pub closed spec fn seed(&self) -> u64 {
        self.rng_seed
    }

    pub fn new(seed: u64) -> (r: Self)
        ensures
            r.seed() == seed,
    {
        SimulatedLLM { rng_seed: seed }
    }

    /// Which of the four templates of a style answers a prompt of
    /// `prompt_len` bytes: the seed plus the length, modulo 4.
    pub fn template_index(&self, prompt_len: usize) -> (r: usize)
        ensures
            r == (self.seed() as int + prompt_len as int) % 4,
            r < 4,
    {
        ((self.rng_seed % 4) as usize + prompt_len % 4) % 4
    }

    /// The template a style offers at `index`.
    pub fn template(style: ResponseStyle, index: usize) -> (r: &'static str)
        requires
            index < 4,
        ensures
            r@ == template_text(style, index as int),
    {
        match style {
            ResponseStyle::Conservative => if index == 0 {
                "I will follow the given instructions precisely."
            } else if index == 1 {
                "Based on the input, the most logical response is determined."
            } else if index == 2 {
                "Processing request with standard parameters."
            } else {
                "Applying conservative reasoning to minimize risk."
            },
            ResponseStyle::Moderate => if index == 0 {
                "I see multiple approaches here; let me consider the options."
            } else if index == 1 {
                "Balancing certainty with exploration of alternatives."
            } else if index == 2 {
                "The task suggests several viable paths forward."
            } else {
                "Analyzing the request with moderate flexibility."
            },
            ResponseStyle::Creative => if index == 0 {
                "Interesting! What if we approached this from a completely different angle?"
            } else if index == 1 {
                "I'm exploring unconventional solutions that might yield better results."
            } else if index == 2 {
                "Let me propose an innovative approach that deviates from the standard."
            } else {
                "The constraints suggest room for creative interpretation."
            },
            ResponseStyle::Wild => if index == 0 {
                "What if we completely reimagine the problem space? \u{1F680}"
            } else if index == 1 {
                "Exploring the far reaches of possibility space..."
            } else if index == 2 {
                "Unconventional insight: the answer might be the question itself!"
            } else {
                "Divergent thinking activated: generating novel perspectives."
            },
        }
    }

    /// Move to the next seed (wrapping), as after each inference.
    pub fn advance(&mut self)
        ensures
            final(self).seed() == (if old(self).seed() == u64::MAX { 0 } else { old(self).seed() + 1 }),
    {
        self.rng_seed = self.rng_seed.wrapping_add(1);
    }
}

/// Trust grows the reasoning parameters linearly.
#[derive(Debug, Clone, Copy)]
pub struct LinearMapping;

/// The reasoning parameters step with the sovereignty level.
#[derive(Debug, Clone, Copy)]
pub struct StepMapping;

/// Trust grows the reasoning parameters under a lower ceiling.
#[derive(Debug, Clone, Copy)]
pub struct ConservativeMapping;

impl LinearMapping {
    /// The strategy's name.
    pub fn name(&self) -> (r: &'static str)
        ensures
            r@ == "LinearMapping"@,
    {
        "LinearMapping"
    }
}

impl StepMapping {
    /// The strategy's name.
    pub fn name(&self) -> (r: &'static str)
        ensures
            r@ == "StepMapping"@,
    {
        "StepMapping"
    }
}

impl ConservativeMapping {
    /// The strategy's name.
    pub fn name(&self) -> (r: &'static str)
        ensures
            r@ == "ConservativeMapping"@,
    {
        "ConservativeMapping"
    }
}

} // verus!
