use vstd::prelude::*;

use crate::amount::{Amount, ATOMIC_UNITS_PER_SMD};
use crate::supply::MAX_NETWORK_EMISSION_ATOMIC;

verus! {

/// Bytes in one GiB.
pub const GIB: u128 = 1_073_741_824;

/// Reward per GiB of contribution score in phase 0 (10 SMD), in atomic units.
pub const BASE_ATOMIC_PER_GIB: u64 = 1_000_000_000;

/// The last emission phase.
pub const LAST_PHASE: u32 = 31;

/// Refusal of an emission quote.
#[derive(Debug, Clone, Copy, PartialEq, Eq, Structural)]
pub enum EmissionError {
    /// The network emission already exceeds its cap.
    EmissionExhausted,
}

#[derive(Debug, Clone, Copy, PartialEq, Eq, Structural)]
pub struct EmissionQuote {
    pub policy_version: u32,
    pub phase: u32,
    pub score_bytes: u64,
    pub protocol_subsidy: Amount,
}

/// The halving emission schedule: phase `p` begins once the emitted supply
/// reaches `cap - cap / 2^(p+1)`, and each phase halves the reward rate.
#[derive(Debug, Clone, Copy, Default)]
pub struct VersionedEmissionPolicy;

/// Emitted supply at which phase `p + 1` begins.
pub open spec fn phase_boundary(p: u32) -> u64 {
    (MAX_NETWORK_EMISSION_ATOMIC - (MAX_NETWORK_EMISSION_ATOMIC >> ((p + 1) as u32))) as u64
}

/// The first phase at or after `p` whose boundary lies above `emitted`, or the last phase.
pub open spec fn phase_from(emitted: u64, p: u32) -> u32
    decreases LAST_PHASE - p,
{
    if p >= LAST_PHASE {
        LAST_PHASE
    } else if emitted < phase_boundary(p) {
        p
    } else {
        phase_from(emitted, (p + 1) as u32)
    }
}

/// The emission phase for an emitted supply (clamped to the cap).
pub open spec fn emission_phase(emitted: u64) -> u32 {
    let clamped = if emitted < MAX_NETWORK_EMISSION_ATOMIC {
        emitted
    } else {
        MAX_NETWORK_EMISSION_ATOMIC
    };
    phase_from(clamped, 0)
}

/// Atomic units per GiB of score in a phase (never below one).
pub open spec fn phase_rate(phase: u32) -> u64 {
    let shifted = BASE_ATOMIC_PER_GIB >> phase;
    if shifted > 1 {
        shifted
    } else {
        1
    }
}

/// The raw reward for a score in a phase, before the cap: at least one atomic
/// unit for any positive score.
pub open spec fn raw_reward(score_bytes: u64, phase: u32) -> int {
    if score_bytes == 0 {
        0
    } else {
        let raw = (score_bytes as int * phase_rate(phase) as int) / (GIB as int);
        if raw > 1 {
            raw
        } else {
            1
        }
    }
}

/// The subsidy quoted for a score given the emitted supply: the raw reward,
/// limited to what remains under the emission cap.
pub open spec fn quoted_subsidy(score_bytes: u64, emitted: u64) -> int {
    let raw = raw_reward(score_bytes, emission_phase(emitted));
    let remaining = MAX_NETWORK_EMISSION_ATOMIC - emitted;
    if raw < remaining {
        raw
    } else {
        remaining
    }
}

proof fn lemma_phase_from(emitted: u64, p: u32)
    requires
        p <= LAST_PHASE,
    ensures
        p <= phase_from(emitted, p) <= LAST_PHASE,
        phase_from(emitted, p) < LAST_PHASE ==> emitted < phase_boundary(phase_from(emitted, p)),
        forall|q: u32| p <= q < phase_from(emitted, p) ==> emitted >= #[trigger] phase_boundary(q),
    decreases LAST_PHASE - p,
{
    if p < LAST_PHASE && emitted >= phase_boundary(p) {
        lemma_phase_from(emitted, (p + 1) as u32);
    }
}

proof fn lemma_rate_monotone(a: u32, b: u32)
    requires
        a <= b,
    ensures
        phase_rate(a) >= phase_rate(b),
{
    let base = BASE_ATOMIC_PER_GIB;
    assert((base >> a) >= (base >> b)) by (bit_vector)
        requires
            a <= b,
    ;
}

impl VersionedEmissionPolicy {
    pub const VERSION: u32 = 1;

    /// The emission phase for the network emission so far.
    pub fn phase(network_emitted: Amount) -> (phase: u32)
        ensures
            phase == emission_phase(network_emitted.atomic()),
            phase <= LAST_PHASE,
    {
        let cap = MAX_NETWORK_EMISSION_ATOMIC;
        let emitted = if network_emitted.atomic() < cap {
            network_emitted.atomic()
        } else {
            cap
        };
        let mut phase: u32 = 0;
        while phase < LAST_PHASE
            invariant
                phase <= LAST_PHASE,
                cap == MAX_NETWORK_EMISSION_ATOMIC,
                emitted == (if network_emitted.atomic() < cap { network_emitted.atomic() } else { cap }),
                phase_from(emitted, 0) == phase_from(emitted, phase),
            ensures
                phase <= LAST_PHASE,
                phase_from(emitted, 0) == phase,
            decreases LAST_PHASE - phase,
        {
            let shifted = cap >> (phase + 1);
            assert(shifted <= cap) by (bit_vector)
                requires
                    shifted == cap >> (phase + 1),
            ;
            let next_boundary = cap - shifted;
            assert(next_boundary == phase_boundary(phase));
            if emitted < next_boundary {
                break;
            }
            phase = phase + 1;
        }
        proof {
            lemma_phase_from(emitted, 0);
        }
        phase
    }

    /// Quotes the protocol subsidy for a contribution score given the network
    /// emission so far. Refused exactly when the emission already exceeds its cap.
    pub fn quote(score_bytes: u64, network_emitted: Amount) -> (quote: Result<
        EmissionQuote,
        EmissionError,
    >)
        ensures
            quote is Ok <==> network_emitted.atomic() <= MAX_NETWORK_EMISSION_ATOMIC,
            quote matches Ok(q) ==> {
                &&& q.policy_version == Self::VERSION
                &&& q.phase == emission_phase(network_emitted.atomic())
                &&& q.score_bytes == score_bytes
                &&& q.protocol_subsidy.atomic() == quoted_subsidy(
                    score_bytes,
                    network_emitted.atomic(),
                )
            },
            quote matches Err(e) ==> e == EmissionError::EmissionExhausted,
    {
        let phase = Self::phase(network_emitted);
        let shifted = BASE_ATOMIC_PER_GIB >> phase;
        let rate = if shifted > 1 {
            shifted
        } else {
            1
        };
        assert(shifted <= BASE_ATOMIC_PER_GIB) by (bit_vector)
            requires
                shifted == BASE_ATOMIC_PER_GIB >> phase,
        ;
        assert((score_bytes as u128) * (rate as u128) <= 0xffff_ffff_ffff_ffffu128 * 1_000_000_000u128)
            by (nonlinear_arith)
            requires
                rate <= 1_000_000_000u64,
        ;
        let product = (score_bytes as u128) * (rate as u128);
        let mut raw = product / GIB;
        if score_bytes > 0 {
            if raw < 1 {
                raw = 1;
            }
        } else {
            raw = 0;
        }
        if network_emitted.atomic() > MAX_NETWORK_EMISSION_ATOMIC {
            return Err(EmissionError::EmissionExhausted);
        }
        let remaining = MAX_NETWORK_EMISSION_ATOMIC - network_emitted.atomic();
        let subsidy = if raw < remaining as u128 {
            raw as u64
        } else {
            remaining
        };
        Ok(
            EmissionQuote {
                policy_version: Self::VERSION,
                phase,
                score_bytes,
                protocol_subsidy: Amount::from_atomic(subsidy),
            },
        )
    }
}

/// A quote never takes the emitted supply past the network emission cap.
pub proof fn law_quote_never_crosses_cap(score_bytes: u64, emitted: u64)
    requires
        emitted <= MAX_NETWORK_EMISSION_ATOMIC,
    ensures
        0 <= quoted_subsidy(score_bytes, emitted),
        emitted + quoted_subsidy(score_bytes, emitted) <= MAX_NETWORK_EMISSION_ATOMIC,
{
}

/// No contribution score means no emission.
pub proof fn law_zero_score_zero_subsidy(emitted: u64)
    requires
        emitted <= MAX_NETWORK_EMISSION_ATOMIC,
    ensures
        quoted_subsidy(0, emitted) == 0,
{
}

/// The phase never goes back as the emitted supply grows.
pub proof fn law_phase_monotone(e1: u64, e2: u64)
    requires
        e1 <= e2,
    ensures
        emission_phase(e1) <= emission_phase(e2),
{
    let c1 = if e1 < MAX_NETWORK_EMISSION_ATOMIC {
        e1
    } else {
        MAX_NETWORK_EMISSION_ATOMIC
    };
    let c2 = if e2 < MAX_NETWORK_EMISSION_ATOMIC {
        e2
    } else {
        MAX_NETWORK_EMISSION_ATOMIC
    };
    lemma_phase_from(c1, 0);
    lemma_phase_from(c2, 0);
    let p1 = phase_from(c1, 0);
    let p2 = phase_from(c2, 0);
    if p2 < p1 {
        assert(c1 >= phase_boundary(p2));
    }
}

/// The phase depends only on the emitted supply clamped to the cap, and it is
/// the least phase whose boundary lies above that supply, or the last phase
/// when there is none.
pub proof fn law_phase_is_least_open_boundary(emitted: u64)
    ensures
        ({
            let clamped = if emitted < MAX_NETWORK_EMISSION_ATOMIC {
                emitted
            } else {
                MAX_NETWORK_EMISSION_ATOMIC
            };
            let p = emission_phase(emitted);
            &&& p == emission_phase(clamped)
            &&& p <= LAST_PHASE
            &&& p < LAST_PHASE ==> clamped < phase_boundary(p)
            &&& forall|q: u32| q < p ==> clamped >= #[trigger] phase_boundary(q)
        }),
{
    let clamped = if emitted < MAX_NETWORK_EMISSION_ATOMIC {
        emitted
    } else {
        MAX_NETWORK_EMISSION_ATOMIC
    };
    lemma_phase_from(clamped, 0);
}

/// For the same score, the quoted subsidy never grows as the emitted supply grows:
/// the rate halves by phase and the room under the cap shrinks.
pub proof fn law_subsidy_decreases_with_emission(score_bytes: u64, e1: u64, e2: u64)
    requires
        e1 <= e2 <= MAX_NETWORK_EMISSION_ATOMIC,
    ensures
        quoted_subsidy(score_bytes, e2) <= quoted_subsidy(score_bytes, e1),
{
    law_phase_monotone(e1, e2);
    let p1 = emission_phase(e1);
    let p2 = emission_phase(e2);
    lemma_rate_monotone(p1, p2);
    if score_bytes > 0 {
        let r1 = phase_rate(p1) as int;
        let r2 = phase_rate(p2) as int;
        let s = score_bytes as int;
        assert(s * r2 <= s * r1) by (nonlinear_arith)
            requires
                r2 <= r1,
                s >= 0,
        ;
        vstd::arithmetic::div_mod::lemma_div_is_ordered(s * r2, s * r1, GIB as int);
    }
}

} // verus!
