use shardmeld::contribution::ServiceType;
use shardmeld::rewards::AntiFraudPolicy;
use shardmeld::{
    genesis_reserve, max_network_emission, max_supply, Amount, AmountError, EmissionError,
    VersionedEmissionPolicy,
};

#[test]
fn parses_and_formats_exactly_without_floats() {
    let amount: Amount = "12.84000000".parse().unwrap();
    assert_eq!(amount.atomic(), 1_284_000_000);
    assert_eq!(amount.to_decimal_string(), "12.84000000");
    assert!("0.000000001".parse::<Amount>().is_err());
    assert!("184467440737.09551616".parse::<Amount>().is_err());
}

#[test]
fn reward_rate_decreases_by_emitted_supply_phase() {
    let bytes = 1_073_741_824;
    let early = VersionedEmissionPolicy::quote(bytes, Amount::zero()).unwrap();
    let half = VersionedEmissionPolicy::quote(
        bytes,
        Amount::from_atomic(max_network_emission().atomic() / 2),
    )
    .unwrap();
    assert_eq!(early.phase, 0);
    assert_eq!(half.phase, 1);
    assert!(early.protocol_subsidy > half.protocol_subsidy);
}

#[test]
fn emission_quote_never_crosses_cap() {
    let almost = Amount::from_atomic(max_network_emission().atomic() - 3);
    let quote = VersionedEmissionPolicy::quote(u64::MAX, almost).unwrap();
    assert!(quote.protocol_subsidy.atomic() <= 3);
}

#[test]
fn minted_supply_never_exceeds_cap() {
    for remaining in 0..100_u64 {
        let emitted = Amount::from_atomic(max_network_emission().atomic() - remaining);
        let quote = VersionedEmissionPolicy::quote(u64::MAX, emitted).unwrap();
        let final_emitted = emitted.checked_add(quote.protocol_subsidy).unwrap();
        let final_minted = genesis_reserve().checked_add(final_emitted).unwrap();
        assert!(final_emitted <= max_network_emission());
        assert!(final_minted <= max_supply());
    }
}

#[test]
fn integer_overflow_is_rejected() {
    assert!(Amount::from_atomic(u64::MAX)
        .checked_add(Amount::from_atomic(1))
        .is_err());
    assert!(Amount::zero().checked_sub(Amount::from_atomic(1)).is_err());
}

#[test]
fn repeated_pairs_decay_and_content_loops_are_stopped() {
    let policy = AntiFraudPolicy::default();
    let first = policy.score(1_000, ServiceType::StandardUpload, 0, 0).unwrap();
    let repeated = policy.score(1_000, ServiceType::StandardUpload, 1, 1).unwrap();
    let rare = policy.score(1_000, ServiceType::RareDataUpload, 0, 0).unwrap();
    let reconstructed = policy
        .score(1_000, ServiceType::CdcReconstructionUpload, 0, 0)
        .unwrap();
    assert!(repeated < first);
    assert!(rare > first);
    assert!(reconstructed > first);
    assert!(policy
        .score(
            1_000,
            ServiceType::StandardUpload,
            3,
            policy.max_same_content_per_pair_epoch,
        )
        .is_err());
}

#[test]
fn amount_text_edge_cases() {
    assert_eq!("0".parse::<Amount>().unwrap().atomic(), 0);
    assert_eq!("1".parse::<Amount>().unwrap().atomic(), 100_000_000);
    assert_eq!("0.00000001".parse::<Amount>().unwrap().atomic(), 1);
    assert_eq!(
        "184467440737.09551615".parse::<Amount>().unwrap().atomic(),
        u64::MAX
    );
    assert_eq!(Amount::from_atomic(u64::MAX).to_decimal_string(), "184467440737.09551615");
    assert_eq!(Amount::from_atomic(1).to_decimal_string(), "0.00000001");
    assert_eq!("".parse::<Amount>(), Err(AmountError::Invalid));
    assert_eq!("1.".parse::<Amount>(), Err(AmountError::TooManyDecimals));
    assert_eq!("-1".parse::<Amount>(), Err(AmountError::Invalid));
    assert_eq!("1.000000001".parse::<Amount>(), Err(AmountError::TooManyDecimals));
    assert_eq!(
        "184467440737.09551616".parse::<Amount>(),
        Err(AmountError::Overflow)
    );
}

#[test]
fn amount_text_round_trips() {
    for atomic in [0_u64, 1, 99, 100_000_000, 1_284_000_000, 123_456_789_012_345, u64::MAX] {
        let amount = Amount::from_atomic(atomic);
        let text = amount.to_decimal_string();
        assert_eq!(text.parse::<Amount>().unwrap(), amount);
    }
}

#[test]
fn emission_phases_and_exact_quotes() {
    let gib = 1_073_741_824_u64;
    let zero = VersionedEmissionPolicy::quote(gib, Amount::zero()).unwrap();
    assert_eq!(zero.protocol_subsidy.atomic(), 1_000_000_000);
    assert_eq!(zero.policy_version, 1);
    assert_eq!(zero.score_bytes, gib);
    let tiny = VersionedEmissionPolicy::quote(1, Amount::zero()).unwrap();
    assert_eq!(tiny.protocol_subsidy.atomic(), 1);
    let none = VersionedEmissionPolicy::quote(0, Amount::zero()).unwrap();
    assert_eq!(none.protocol_subsidy.atomic(), 0);
    assert_eq!(VersionedEmissionPolicy::phase(Amount::zero()), 0);
    assert_eq!(VersionedEmissionPolicy::phase(max_network_emission()), 31);
    let over = Amount::from_atomic(max_network_emission().atomic() + 1);
    assert_eq!(
        VersionedEmissionPolicy::quote(gib, over),
        Err(EmissionError::EmissionExhausted)
    );
    let exhausted = VersionedEmissionPolicy::quote(gib, max_network_emission()).unwrap();
    assert_eq!(exhausted.protocol_subsidy.atomic(), 0);
}

#[test]
fn supply_constants_are_exact() {
    assert_eq!(max_supply().atomic(), 1_200_000_000_000_000);
    assert_eq!(genesis_reserve().atomic(), 100_000_000_000_000);
    assert_eq!(max_network_emission().atomic(), 1_100_000_000_000_000);
    assert_eq!(
        genesis_reserve().checked_add(max_network_emission()).unwrap(),
        max_supply()
    );
}

#[test]
fn scores_follow_service_factors_exactly() {
    let policy = AntiFraudPolicy::default();
    assert_eq!(policy.score(1_000, ServiceType::StandardUpload, 0, 0), Ok(1_000));
    assert_eq!(policy.score(1_000, ServiceType::RareDataUpload, 0, 0), Ok(1_500));
    assert_eq!(
        policy.score(1_000, ServiceType::CdcReconstructionUpload, 0, 0),
        Ok(1_250)
    );
    assert_eq!(policy.score(1_000, ServiceType::StandardUpload, 1, 0), Ok(500));
    assert_eq!(policy.score(1_000, ServiceType::StandardUpload, 3, 2), Ok(250));
    assert_eq!(
        policy.score(u64::MAX, ServiceType::RareDataUpload, 0, 0),
        Err(shardmeld::rewards::ScoreError::OutOfRange)
    );
    assert_eq!(
        policy.score(1, ServiceType::StandardUpload, 0, 3),
        Err(shardmeld::rewards::ScoreError::RepeatedContentLoop)
    );
}

#[test]
fn phase_is_the_first_boundary_above_the_clamped_emission() {
    let cap = max_network_emission().atomic();
    assert_eq!(VersionedEmissionPolicy::phase(Amount::from_atomic(cap / 2 - 1)), 0);
    assert_eq!(VersionedEmissionPolicy::phase(Amount::from_atomic(cap / 2)), 1);
    assert_eq!(VersionedEmissionPolicy::phase(Amount::from_atomic(cap - cap / 4 - 1)), 1);
    assert_eq!(VersionedEmissionPolicy::phase(Amount::from_atomic(cap - cap / 4)), 2);
    assert_eq!(VersionedEmissionPolicy::phase(Amount::from_atomic(cap)), 31);
    assert_eq!(VersionedEmissionPolicy::phase(Amount::from_atomic(u64::MAX)), 31);
}

#[test]
fn amount_text_is_digits_with_up_to_eight_decimals() {
    assert_eq!("007.00000001".parse::<Amount>().unwrap().atomic(), 700_000_001);
    assert_eq!("12".parse::<Amount>().unwrap().atomic(), 1_200_000_000);
    assert_eq!("0.5".parse::<Amount>().unwrap().atomic(), 50_000_000);
    assert!("1.".parse::<Amount>().is_err());
    assert!(".5".parse::<Amount>().is_err());
    assert!("1.123456789".parse::<Amount>().is_err());
    assert!("1.2.3".parse::<Amount>().is_err());
    assert!("+1".parse::<Amount>().is_err());
    assert!("184467440737.09551615".parse::<Amount>().is_ok());
    assert!("184467440737.09551616".parse::<Amount>().is_err());
}
