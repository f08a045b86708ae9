//! How a memory's relevance fades.

use crate::binary64::Binary64;
use vstd::prelude::*;

verus! {

/// A length of time: whole seconds, and the nanoseconds past them.
#[derive(Debug, Clone, Copy, PartialEq, Eq, Hash, Structural)]
pub struct Span {
    pub secs: i64,
    pub nanos: u32,
}

impl Span {
    /// A number of days.
    pub open spec fn of_days(n: int) -> Span {
        Span { secs: (n * 86_400) as i64, nanos: 0 }
    }

    /// A number of days.
    pub fn days(n: i32) -> (r: Span)
        ensures
            r == Span::of_days(n as int),
    {
        Span { secs: n as i64 * 86_400, nanos: 0 }
    }
}

/// How relevance falls with time.
#[derive(Debug, Clone, Copy, PartialEq, Eq, Hash, Structural)]
pub enum DecayStrategy {
    /// It does not.
    Off,
    /// In proportion to the time that has passed.
    Linear,
    /// By half in every half-life.
    Exponential,
    /// All at once, when the time to live is over.
    Step,
}

/// How a memory's relevance fades, and to what floor.
#[derive(Debug, Clone, Copy, PartialEq, Eq, Hash, Structural)]
pub struct Decay {
    pub strategy: DecayStrategy,
    pub half_life: Option<Span>,
    pub ttl: Option<Span>,
    pub floor: Binary64,
}

/// Zero.
pub const ZERO_BITS: u64 = 0;

impl Decay {
    /// No decay, down to the given floor.
    pub open spec fn lasting(floor: Binary64) -> Decay {
        Decay { strategy: DecayStrategy::Off, half_life: None, ttl: None, floor }
    }

    /// By half in every `half_life`, down to the given floor.
    pub open spec fn halving(half_life: Span, floor: Binary64) -> Decay {
        Decay {
            strategy: DecayStrategy::Exponential,
            half_life: Some(half_life),
            ttl: None,
            floor,
        }
    }

    /// No decay.
    pub fn none() -> (r: Decay)
        ensures
            r == Decay::lasting(Binary64 { bits: ZERO_BITS }),
    {
        Decay {
            strategy: DecayStrategy::Off,
            half_life: None,
            ttl: None,
            floor: Binary64 { bits: ZERO_BITS },
        }
    }

    /// No decay, with a floor.
    pub fn none_with_floor(floor: Binary64) -> (r: Decay)
        ensures
            r == Decay::lasting(floor),
    {
        Decay { strategy: DecayStrategy::Off, half_life: None, ttl: None, floor }
    }

    /// Exponential decay.
    pub fn exponential(half_life: Span) -> (r: Decay)
        ensures
            r == Decay::halving(half_life, Binary64 { bits: ZERO_BITS }),
    {
        Decay {
            strategy: DecayStrategy::Exponential,
            half_life: Some(half_life),
            ttl: None,
            floor: Binary64 { bits: ZERO_BITS },
        }
    }

    /// The same decay with another floor.
    pub fn with_floor(self, floor: Binary64) -> (r: Decay)
        ensures
            r == (Decay { floor, ..self }),
    {
        Decay { floor, ..self }
    }
}

} // verus!
