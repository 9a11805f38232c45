use vstd::prelude::*;

use crate::amount::Amount;
use crate::contribution::ServiceType;

verus! {

/// Limits that keep contribution rewards from being farmed.
#[derive(Debug, Clone, Copy, PartialEq, Eq, Structural)]
pub struct AntiFraudPolicy {
    pub version: u32,
    pub max_same_content_per_pair_epoch: u32,
    pub max_protocol_reward_per_address_epoch: Amount,
}

/// Why a contribution was given no score.
#[derive(Debug, Clone, Copy, PartialEq, Eq, Structural)]
pub enum ScoreError {
    /// The same content already went between the same pair too often this epoch.
    RepeatedContentLoop,
    /// The decayed score does not fit in 64 bits.
    OutOfRange,
}

/// Weight of a service type in basis points (10 000 = 1.0).
pub open spec fn service_factor(t: ServiceType) -> int {
    match t {
        ServiceType::StandardUpload => 10_000,
        ServiceType::RareDataUpload => 15_000,
        ServiceType::CdcReconstructionUpload => 12_500,
    }
}

/// The contribution score: bytes weighted by service type, divided by one
/// more than the number of earlier receipts between the same pair.
pub open spec fn contribution_score(bytes: u64, t: ServiceType, prior_pair_receipts: u32) -> int {
    let weighted = (bytes as int * service_factor(t)) / 10_000;
    let divisor = if prior_pair_receipts < u32::MAX {
        prior_pair_receipts as int + 1
    } else {
        u32::MAX as int
    };
    weighted / divisor
}

/// The outcome of scoring a contribution under a policy.
pub open spec fn score_outcome(
    policy: AntiFraudPolicy,
    bytes: u64,
    t: ServiceType,
    prior_pair_receipts: u32,
    prior_same_content_receipts: u32,
) -> Result<u64, ScoreError> {
    if prior_same_content_receipts >= policy.max_same_content_per_pair_epoch {
        Err(ScoreError::RepeatedContentLoop)
    } else if contribution_score(bytes, t, prior_pair_receipts) > u64::MAX {
        Err(ScoreError::OutOfRange)
    } else {
        Ok(contribution_score(bytes, t, prior_pair_receipts) as u64)
    }
}

impl Default for AntiFraudPolicy {
    fn default() -> (policy: AntiFraudPolicy)
        ensures
            policy.version == 1,
            policy.max_same_content_per_pair_epoch == 3,
            policy.max_protocol_reward_per_address_epoch.atomic() == 100_000_000_000,
    {
        AntiFraudPolicy {
            version: 1,
            max_same_content_per_pair_epoch: 3,
            max_protocol_reward_per_address_epoch: Amount::from_atomic(100_000_000_000),
        }
    }
}

impl AntiFraudPolicy {
    /// Scores a delivered contribution, refusing a content loop.
    pub fn score(
        &self,
        bytes: u64,
        service_type: ServiceType,
        prior_pair_receipts: u32,
        prior_same_content_receipts: u32,
    ) -> (score: Result<u64, ScoreError>)
        ensures
            score == score_outcome(
                *self,
                bytes,
                service_type,
                prior_pair_receipts,
                prior_same_content_receipts,
            ),
    {
        if prior_same_content_receipts >= self.max_same_content_per_pair_epoch {
            return Err(ScoreError::RepeatedContentLoop);
        }
        let factor: u128 = match service_type {
            ServiceType::StandardUpload => 10_000,
            ServiceType::RareDataUpload => 15_000,
            ServiceType::CdcReconstructionUpload => 12_500,
        };
        assert((bytes as u128) * factor <= 0xffff_ffff_ffff_ffffu128 * 15_000u128)
            by (nonlinear_arith)
            requires
                factor <= 15_000u128,
        ;
        let weighted = (bytes as u128) * factor / 10_000;
        let divisor: u128 = if prior_pair_receipts < u32::MAX {
            prior_pair_receipts as u128 + 1
        } else {
            u32::MAX as u128
        };
        let decayed = weighted / divisor;
        if decayed > u64::MAX as u128 {
            Err(ScoreError::OutOfRange)
        } else {
            Ok(decayed as u64)
        }
    }
}

/// What one reward epoch produced.
#[derive(Debug, Clone, Copy, PartialEq, Eq, Structural)]
pub struct RewardSummary {
    pub epoch: u64,
    pub receipts_processed: u64,
    pub total_score_bytes: u64,
    pub protocol_subsidy: Amount,
    pub user_resource_fees: Amount,
    pub emission_phase: u32,
}

/// More earlier receipts between the same pair never raise the score.
pub proof fn law_repeated_pairs_decay(bytes: u64, t: ServiceType, fewer: u32, more: u32)
    requires
        fewer <= more,
    ensures
        contribution_score(bytes, t, more) <= contribution_score(bytes, t, fewer),
{
    let w = (bytes as int * service_factor(t)) / 10_000;
    assert(w >= 0) by (nonlinear_arith)
        requires
            bytes >= 0,
            service_factor(t) > 0,
            w == (bytes as int * service_factor(t)) / 10_000,
    ;
    let d1 = if fewer < u32::MAX { fewer as int + 1 } else { u32::MAX as int };
    let d2 = if more < u32::MAX { more as int + 1 } else { u32::MAX as int };
    assert(w / d2 <= w / d1) by (nonlinear_arith)
        requires
            w >= 0,
            1 <= d1 <= d2,
    ;
}

/// Rare data and CDC reconstruction uploads score at least as much as a
/// standard upload of the same size, and a standard upload scores the bytes
/// themselves when no receipt came before.
pub proof fn law_service_factor_order(bytes: u64, prior: u32)
    ensures
        contribution_score(bytes, ServiceType::StandardUpload, 0) == bytes,
        contribution_score(bytes, ServiceType::StandardUpload, prior) <= contribution_score(
            bytes,
            ServiceType::CdcReconstructionUpload,
            prior,
        ),
        contribution_score(bytes, ServiceType::CdcReconstructionUpload, prior)
            <= contribution_score(bytes, ServiceType::RareDataUpload, prior),
{
    let b = bytes as int;
    let d = if prior < u32::MAX { prior as int + 1 } else { u32::MAX as int };
    assert((b * 10_000) / 10_000 == b) by (nonlinear_arith);
    assert((b * 10_000) / 10_000 <= (b * 12_500) / 10_000) by (nonlinear_arith)
        requires
            b >= 0,
    ;
    assert((b * 12_500) / 10_000 <= (b * 15_000) / 10_000) by (nonlinear_arith)
        requires
            b >= 0,
    ;
    let s = (b * 10_000) / 10_000;
    let c = (b * 12_500) / 10_000;
    let r = (b * 15_000) / 10_000;
    assert(s / d <= c / d) by (nonlinear_arith)
        requires
            0 <= s <= c,
            d >= 1,
    ;
    assert(c / d <= r / d) by (nonlinear_arith)
        requires
            0 <= c <= r,
            d >= 1,
    ;
}

} // verus!
