use mesh_security::decimal::{Decimal, DECIMAL_FRACTIONAL};
use mesh_security::error::{ContractError, MeshSecurityError};

#[test]
fn decimals_are_read_from_text() {
    assert_eq!(Decimal::from_str("1.23").unwrap().atomics(), 1_230_000_000_000_000_000);
    assert_eq!(Decimal::from_str("1").unwrap(), Decimal::one());
    assert_eq!(Decimal::from_str("0").unwrap(), Decimal::zero());
    assert_eq!(Decimal::from_str("0.000000000000000001").unwrap(), Decimal::raw(1));
    assert_eq!(Decimal::from_str("000012").unwrap().atomics(), 12 * DECIMAL_FRACTIONAL);
    assert_eq!(Decimal::from_str("0.5").unwrap(), Decimal::percent(50));
}

#[test]
fn text_that_is_no_decimal_is_refused() {
    assert!(Decimal::from_str("").is_err());
    assert!(Decimal::from_str(".23").is_err());
    assert!(Decimal::from_str("1.2.3").is_err());
    assert!(Decimal::from_str("0.0000000000000000001").is_err());
    assert!(Decimal::from_str("a").is_err());
    assert_eq!(
        Decimal::from_str("1.").unwrap_err(),
        cosmwasm_std::StdError::generic_err("Error parsing fractional")
    );
}

#[test]
fn reading_agrees_with_cosmwasm() {
    for text in ["0.1", "17.000000000000000003", "340282366920938463463.374607431768211455"] {
        let theirs: cosmwasm_std::Decimal = text.parse().unwrap();
        assert_eq!(Decimal::from_str(text).unwrap().atomics(), theirs.atomics().u128());
    }
    assert!(Decimal::from_str("340282366920938463463.374607431768211456").is_err());
}

#[test]
fn small_decimals() {
    assert_eq!(Decimal::zero().atomics(), 0);
    assert_eq!(Decimal::one().atomics(), 1_000_000_000_000_000_000);
    assert_eq!(Decimal::percent(1).atomics(), 10_000_000_000_000_000);
    assert_eq!(Decimal::percent(250).atomics(), 2_500_000_000_000_000_000);
    assert_eq!(Decimal::percent(u64::MAX).atomics(), u64::MAX as u128 * 10_000_000_000_000_000);
    assert!(Decimal::zero().is_zero());
    assert!(!Decimal::raw(1).is_zero());
    assert!(Decimal::one().is_fraction());
    assert!(!Decimal::raw(DECIMAL_FRACTIONAL + 1).is_fraction());
}

#[test]
fn sums_are_checked() {
    assert_eq!(Decimal::raw(1).checked_add(Decimal::raw(2)), Ok(Decimal::raw(3)));
    assert_eq!(
        Decimal::raw(u128::MAX - 1).checked_add(Decimal::raw(1)),
        Ok(Decimal::raw(u128::MAX))
    );
    assert!(matches!(
        Decimal::raw(u128::MAX).checked_add(Decimal::raw(1)),
        Err(cosmwasm_std::StdError::Overflow { .. })
    ));
}

#[test]
fn products_are_rounded_down() {
    assert_eq!(Decimal::percent(50).mul_floor(333), Some(166));
    assert_eq!(Decimal::percent(150).mul_floor(1000), Some(1500));
    assert_eq!(Decimal::raw(333_333_333_333_333_333).mul_floor(10), Some(3));
    assert_eq!(Decimal::one().mul_floor(u128::MAX), Some(u128::MAX));
    assert_eq!(Decimal::raw(DECIMAL_FRACTIONAL + 1).mul_floor(u128::MAX), None);
    assert_eq!(Decimal::percent(200).mul_floor(u128::MAX / 2 + 1), None);
    assert_eq!(Decimal::zero().mul_floor(u128::MAX), Some(0));
    assert_eq!(Decimal::percent(10).mul_floor(1000), Some(100));
    assert_eq!(Decimal::raw(1).mul_floor(999_999_999_999_999_999), Some(0));
    assert_eq!(Decimal::raw(1).mul_floor(1_000_000_000_000_000_000), Some(1));
}

#[test]
fn errors_have_their_texts() {
    let cases: Vec<(ContractError, &str)> = vec![
        (
            ContractError::MeshSecurity(MeshSecurityError::InvalidChannelOrder),
            "Only supports unordered channels",
        ),
        (
            ContractError::MeshSecurity(MeshSecurityError::InvalidChannelVersion),
            "Counterparty version must be 'mesh-security-v0.1'",
        ),
        (ContractError::Unauthorized {}, "Unauthorized"),
        (ContractError::ProviderAddrParsing {}, "Couldn't parse provider from port_id"),
        (
            ContractError::ChannelExists("channel-1".to_string()),
            "Contract already has a bound channel: channel-1",
        ),
        (
            ContractError::WrongConnection("connection-1".to_string()),
            "Unauthorized counterparty chain, awaiting connection 'connection-1'",
        ),
        (
            ContractError::WrongPort("wasm.p".to_string()),
            "Unauthorized counterparty port, awaiting port 'wasm.p'",
        ),
        (
            ContractError::UnknownChannel("channel-9".to_string()),
            "Refuse to respond on unregistered channel 'channel-9'",
        ),
        (
            ContractError::CustomError { val: "a \"b\"".to_string() },
            "Custom Error val: \"a \\\"b\\\"\"",
        ),
        (ContractError::AckFailed {}, "Acknowledgement failed"),
        (ContractError::RewardsFailed {}, "Rewards acknowledgement failed"),
        (ContractError::UpdateValidatorsFailed {}, "Update validators acknowledgement failed"),
        (ContractError::ConsumerAlreadyExists {}, "Consumer already exists"),
        (ContractError::NotEnoughFunds {}, "Not enough funds"),
        (ContractError::NoConsumer {}, "Consumer does not exist"),
        (ContractError::InsufficientDelegation {}, "Insufficient delegation"),
        (ContractError::UnknownValidator("V9".to_string()), "Unknown validator 'V9'"),
    ];
    for (error, text) in cases {
        assert_eq!(error.message(), text);
    }
    assert_eq!(
        ContractError::Std(cosmwasm_std::StdError::generic_err("boom")).message(),
        "Generic error: boom"
    );
    assert_eq!(
        MeshSecurityError::InvalidChannelOrder.message(),
        "Only supports unordered channels"
    );
}

#[test]
fn errors_are_made_from_what_they_wrap() {
    assert_eq!(
        ContractError::from(MeshSecurityError::InvalidChannelVersion),
        ContractError::MeshSecurity(MeshSecurityError::InvalidChannelVersion)
    );
    assert_eq!(
        ContractError::from(cosmwasm_std::StdError::generic_err("x")),
        ContractError::Std(cosmwasm_std::StdError::generic_err("x"))
    );
}
