use vstd::prelude::*;

use crate::amount::Amount;

verus! {

/// Whether basic access to the network is free of charge.
pub trait FreeLanePolicy {
    fn basic_access_is_free(&self) -> bool;
}

/// Fees that users pay for network resources.
pub trait ProtocolPricingEngine {
    fn enabled(&self) -> bool;

    fn user_resource_fee(&self, bytes: u64) -> Amount;
}

/// The v0.1 free lane: basic access is always free.
#[derive(Debug, Clone, Copy, Default)]
pub struct V01FreeLanePolicy;

impl FreeLanePolicy for V01FreeLanePolicy {
    fn basic_access_is_free(&self) -> (free: bool)
        ensures
            free,
    {
        true
    }
}

/// The v0.1 pricing engine: disabled, and every fee is zero.
#[derive(Debug, Clone, Copy, Default)]
pub struct V01PricingEngine;

impl ProtocolPricingEngine for V01PricingEngine {
    fn enabled(&self) -> (on: bool)
        ensures
            !on,
    {
        false
    }

    fn user_resource_fee(&self, bytes: u64) -> (fee: Amount)
        ensures
            fee.atomic() == 0,
    {
        Amount::zero()
    }
}

} // verus!
