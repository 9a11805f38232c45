use vstd::prelude::*;

use crate::amount::{Amount, AmountError};

verus! {

/// Hard cap on minted SMD (12,000,000 SMD), in atomic units.
pub const MAX_SUPPLY_ATOMIC: u64 = 1_200_000_000_000_000;

/// The permanent reserve minted at genesis (1,000,000 SMD), in atomic units.
pub const GENESIS_RESERVE_ATOMIC: u64 = 100_000_000_000_000;

/// Cap on SMD ever emitted as network rewards (11,000,000 SMD), in atomic units.
pub const MAX_NETWORK_EMISSION_ATOMIC: u64 = 1_100_000_000_000_000;

/// The supply cap as an amount.
pub fn max_supply() -> (amount: Amount)
    ensures
        amount.atomic() == MAX_SUPPLY_ATOMIC,
{
    Amount::from_atomic(MAX_SUPPLY_ATOMIC)
}

/// The genesis reserve as an amount.
pub fn genesis_reserve() -> (amount: Amount)
    ensures
        amount.atomic() == GENESIS_RESERVE_ATOMIC,
{
    Amount::from_atomic(GENESIS_RESERVE_ATOMIC)
}

/// The network emission cap as an amount.
pub fn max_network_emission() -> (amount: Amount)
    ensures
        amount.atomic() == MAX_NETWORK_EMISSION_ATOMIC,
{
    Amount::from_atomic(MAX_NETWORK_EMISSION_ATOMIC)
}

/// Why a supply state is not consistent.
#[derive(Debug, Clone, Copy, PartialEq, Eq, Structural)]
pub enum SupplyError {
    MintedAboveCap,
    EmissionAboveCap,
    MintedMismatch,
    CirculatingMismatch,
    Amount(AmountError),
}

/// The four supply counters of the ledger.
#[derive(Debug, Clone, Copy, PartialEq, Eq, Structural)]
pub struct SupplyState {
    pub minted_supply: Amount,
    pub network_emitted_supply: Amount,
    pub reserve_balance: Amount,
    pub circulating_supply: Amount,
}

/// The outcome of checking a supply state, in the order the checks are made.
pub open spec fn supply_check(s: SupplyState) -> Result<(), SupplyError> {
    let minted = s.minted_supply.atomic() as int;
    let emitted = s.network_emitted_supply.atomic() as int;
    let reserve = s.reserve_balance.atomic() as int;
    if minted > MAX_SUPPLY_ATOMIC {
        Err(SupplyError::MintedAboveCap)
    } else if emitted > MAX_NETWORK_EMISSION_ATOMIC {
        Err(SupplyError::EmissionAboveCap)
    } else if minted != GENESIS_RESERVE_ATOMIC + emitted {
        Err(SupplyError::MintedMismatch)
    } else if reserve > minted {
        Err(SupplyError::Amount(AmountError::InsufficientBalance))
    } else if s.circulating_supply.atomic() != minted - reserve {
        Err(SupplyError::CirculatingMismatch)
    } else {
        Ok(())
    }
}

/// The supply accounting identities: minted = genesis + emitted, circulating =
/// minted - reserve, and both caps respected.
pub open spec fn supply_consistent(s: SupplyState) -> bool {
    supply_check(s) is Ok
}

impl SupplyState {
    /// The supply at genesis, as mathematics.
    pub open spec fn genesis_spec() -> SupplyState {
        SupplyState {
            minted_supply: Amount::from_atomic_spec(GENESIS_RESERVE_ATOMIC),
            network_emitted_supply: Amount::from_atomic_spec(0),
            reserve_balance: Amount::from_atomic_spec(GENESIS_RESERVE_ATOMIC),
            circulating_supply: Amount::from_atomic_spec(0),
        }
    }

    /// The supply at genesis: only the permanent reserve exists.
    pub fn genesis() -> (state: SupplyState)
        ensures
            state == SupplyState::genesis_spec(),
            state.minted_supply.atomic() == GENESIS_RESERVE_ATOMIC,
            state.network_emitted_supply.atomic() == 0,
            state.reserve_balance.atomic() == GENESIS_RESERVE_ATOMIC,
            state.circulating_supply.atomic() == 0,
            supply_consistent(state),
    {
        let state = SupplyState {
            minted_supply: genesis_reserve(),
            network_emitted_supply: Amount::zero(),
            reserve_balance: genesis_reserve(),
            circulating_supply: Amount::zero(),
        };
        proof {
            let g = SupplyState::genesis_spec();
            Amount::lemma_from_atomic(GENESIS_RESERVE_ATOMIC);
            Amount::lemma_from_atomic(0);
            Amount::lemma_atomic_determines(state.minted_supply, g.minted_supply);
            Amount::lemma_atomic_determines(state.network_emitted_supply, g.network_emitted_supply);
            Amount::lemma_atomic_determines(state.reserve_balance, g.reserve_balance);
            Amount::lemma_atomic_determines(state.circulating_supply, g.circulating_supply);
        }
        state
    }

    /// Builds the state that a given network emission and reserve balance imply.
    pub fn from_components(network_emitted: Amount, reserve_balance: Amount) -> (state: Result<
        SupplyState,
        SupplyError,
    >)
        ensures
            ({
                let e = network_emitted.atomic() as int;
                let r = reserve_balance.atomic() as int;
                &&& state is Ok <==> (e <= MAX_NETWORK_EMISSION_ATOMIC && r <= GENESIS_RESERVE_ATOMIC
                    + e)
                &&& state matches Ok(s) ==> {
                    &&& s.minted_supply.atomic() == GENESIS_RESERVE_ATOMIC + e
                    &&& s.network_emitted_supply == network_emitted
                    &&& s.reserve_balance == reserve_balance
                    &&& s.circulating_supply.atomic() == GENESIS_RESERVE_ATOMIC + e - r
                    &&& supply_consistent(s)
                }
                &&& state matches Err(err) ==> (if GENESIS_RESERVE_ATOMIC + e > u64::MAX {
                    err == SupplyError::Amount(AmountError::Overflow)
                } else if r > GENESIS_RESERVE_ATOMIC + e {
                    err == SupplyError::Amount(AmountError::InsufficientBalance)
                } else {
                    err == SupplyError::MintedAboveCap
                })
            }),
    {
        let minted = match genesis_reserve().checked_add(network_emitted) {
            Ok(m) => m,
            Err(e) => return Err(SupplyError::Amount(e)),
        };
        let circulating = match minted.checked_sub(reserve_balance) {
            Ok(c) => c,
            Err(e) => return Err(SupplyError::Amount(e)),
        };
        let state = SupplyState {
            minted_supply: minted,
            network_emitted_supply: network_emitted,
            reserve_balance,
            circulating_supply: circulating,
        };
        match state.validate() {
            Ok(()) => Ok(state),
            Err(e) => Err(e),
        }
    }

    /// Checks the supply accounting identities and caps.
    pub fn validate(self) -> (result: Result<(), SupplyError>)
        ensures
            result == supply_check(self),
            result is Ok ==> self.minted_supply.atomic() <= MAX_SUPPLY_ATOMIC,
            result is Ok ==> self.network_emitted_supply.atomic() <= MAX_NETWORK_EMISSION_ATOMIC,
    {
        if self.minted_supply.atomic() > MAX_SUPPLY_ATOMIC {
            return Err(SupplyError::MintedAboveCap);
        }
        if self.network_emitted_supply.atomic() > MAX_NETWORK_EMISSION_ATOMIC {
            return Err(SupplyError::EmissionAboveCap);
        }
        let expected_minted = match genesis_reserve().checked_add(self.network_emitted_supply) {
            Ok(m) => m,
            Err(e) => return Err(SupplyError::Amount(e)),
        };
        if self.minted_supply.atomic() != expected_minted.atomic() {
            return Err(SupplyError::MintedMismatch);
        }
        let expected_circulating = match self.minted_supply.checked_sub(self.reserve_balance) {
            Ok(c) => c,
            Err(e) => return Err(SupplyError::Amount(e)),
        };
        if self.circulating_supply.atomic() != expected_circulating.atomic() {
            return Err(SupplyError::CirculatingMismatch);
        }
        Ok(())
    }
}

/// Every consistent supply state keeps minted supply within the 12,000,000 SMD
/// cap and emitted supply within the 11,000,000 SMD cap.
pub proof fn law_consistent_supply_within_caps(s: SupplyState)
    requires
        supply_consistent(s),
    ensures
        s.minted_supply.atomic() <= MAX_SUPPLY_ATOMIC,
        s.network_emitted_supply.atomic() <= MAX_NETWORK_EMISSION_ATOMIC,
        s.reserve_balance.atomic() + s.circulating_supply.atomic() == s.minted_supply.atomic(),
{
}

} // verus!
