use mesh_security::channel::{ibc_app_version, ChannelState, IbcChannel, IbcEndpoint, IbcOrder};
use mesh_security::consumer::{provider_address, Config, Consumer, ProviderInfo};
use mesh_security::decimal::Decimal;
use mesh_security::driver::{
    ibc_open_channel, instantiate_provider, CHANNEL_ID, CONNECTION_ID, CONSUMER_PORT,
    COUNTERPARTY_CHANNEL_ID, CREATOR_ADDR, PROVIDER_PORT,
};
use mesh_security::error::ContractError;
use mesh_security::ledger::MetaStaking;
use mesh_security::outbox::RequestState;
use mesh_security::packet::{
    Ack, AckPayload, ConsumerMsg, ConsumerPacket, Outcome, ProviderMsg,
};
use mesh_security::provider::Provider;

fn text(s: &str) -> String {
    s.to_string()
}

fn config(rate: Decimal) -> Config {
    Config {
        provider: ProviderInfo { port_id: text(PROVIDER_PORT), connection_id: text(CONNECTION_ID) },
        remote_to_local_exchange_rate: rate,
        meta_staking_contract_address: text("meta_staking"),
        ics20_channel: text("channel-0"),
    }
}

// the channel as the consumer sees it
fn channel() -> IbcChannel {
    IbcChannel {
        endpoint: IbcEndpoint { port_id: text(CONSUMER_PORT), channel_id: text(COUNTERPARTY_CHANNEL_ID) },
        counterparty_endpoint: IbcEndpoint { port_id: text(PROVIDER_PORT), channel_id: text(CHANNEL_ID) },
        order: IbcOrder::Unordered,
        version: text(ibc_app_version()),
        connection_id: text(CONNECTION_ID),
    }
}

fn consumer() -> Consumer {
    let mut consumer = Consumer::instantiate(config(Decimal::one()), None).unwrap();
    consumer.ibc_channel_open(&channel(), None).unwrap();
    consumer.ibc_channel_connect(&channel(), Some(ibc_app_version())).unwrap();
    consumer
}

fn provider() -> Provider {
    let mut staking = MetaStaking::new(CREATOR_ADDR, 1_000_000);
    staking.register_consumer(CONNECTION_ID, 10000).unwrap();
    let mut provider = instantiate_provider(staking, None);
    ibc_open_channel(&mut provider, CHANNEL_ID).unwrap();
    provider
}

fn stake(key: &str, amount: u128, validator: &str) -> ProviderMsg {
    ProviderMsg::Stake { key: text(key), amount, validator: text(validator) }
}

fn unstake(key: &str, amount: u128, validator: &str) -> ProviderMsg {
    ProviderMsg::Unstake { key: text(key), amount, validator: text(validator) }
}

#[test]
fn the_provider_address_is_read_from_its_port() {
    assert_eq!(provider_address("wasm.provider"), Ok(text("provider")));
    assert_eq!(provider_address("wasm.x"), Ok(text("x")));
    assert_eq!(provider_address("wasm.ü.1"), Ok(text("ü.1")));
    for port in ["", "wasm", "wasm.", "wasm-provider", "transfer", "WASM.provider", "xwasm.p"] {
        assert_eq!(provider_address(port), Err(ContractError::ProviderAddrParsing {}));
    }
}

#[test]
fn a_consumer_needs_a_port_and_a_rate() {
    let mut bad = config(Decimal::one());
    bad.provider.port_id = text("provider");
    assert!(matches!(
        Consumer::instantiate(bad, None),
        Err(ContractError::ProviderAddrParsing {})
    ));
    match Consumer::instantiate(config(Decimal::zero()), None) {
        Err(e) => assert_eq!(
            e,
            ContractError::CustomError { val: text("exchange rate must be positive") }
        ),
        Ok(_) => panic!("a rate of zero was accepted"),
    }
    let fresh = Consumer::instantiate(config(Decimal::percent(1)), Some(5)).unwrap();
    assert_eq!(fresh.channel_state(), ChannelState::Uninitialized);
    assert_eq!(fresh.pending_rewards(), 0);
    fresh.bounds();
}

#[test]
fn the_consumer_binds_to_the_provider_alone() {
    let mut consumer = Consumer::instantiate(config(Decimal::one()), None).unwrap();
    let mut other_port = channel();
    other_port.counterparty_endpoint.port_id = text("wasm.other");
    assert_eq!(
        consumer.ibc_channel_connect(&other_port, Some(ibc_app_version())),
        Err(ContractError::WrongPort(text(PROVIDER_PORT)))
    );
    let mut other_connection = channel();
    other_connection.connection_id = text("connection-2");
    assert_eq!(
        consumer.ibc_channel_open(&other_connection, None),
        Err(ContractError::WrongConnection(text(CONNECTION_ID)))
    );
    assert_eq!(consumer.channel_state(), ChannelState::Uninitialized);
    assert_eq!(consumer.ibc_channel_connect(&channel(), None), Ok(()));
    assert_eq!(
        consumer.ibc_channel_connect(&channel(), None),
        Err(ContractError::ChannelExists(text(COUNTERPARTY_CHANNEL_ID)))
    );
    assert_eq!(consumer.ibc_channel_close(&channel()), Ok(()));
    assert_eq!(consumer.channel_state(), ChannelState::Closed);
    assert_eq!(
        consumer.receive(COUNTERPARTY_CHANNEL_ID, PROVIDER_PORT, &stake("d1", 1, "V1")),
        Err(ContractError::UnknownChannel(text(COUNTERPARTY_CHANNEL_ID)))
    );
}

#[test]
fn requests_from_elsewhere_are_refused() {
    let mut consumer = consumer();
    assert_eq!(
        consumer.receive("channel-9", PROVIDER_PORT, &stake("d1", 1, "V1")),
        Err(ContractError::UnknownChannel(text("channel-9")))
    );
    assert_eq!(
        consumer.receive(COUNTERPARTY_CHANNEL_ID, "wasm.other", &stake("d1", 1, "V1")),
        Err(ContractError::WrongPort(text(PROVIDER_PORT)))
    );
    assert_eq!(consumer.delegation("d1", "V1"), 0);
    let mut unbound = Consumer::instantiate(config(Decimal::one()), None).unwrap();
    assert_eq!(
        unbound.receive(COUNTERPARTY_CHANNEL_ID, PROVIDER_PORT, &ProviderMsg::ListValidators {}),
        Err(ContractError::UnknownChannel(text(COUNTERPARTY_CHANNEL_ID)))
    );
    assert_eq!(
        unbound.emit_validator_update(vec![text("V1")], vec![]),
        Err(ContractError::UnknownChannel(text("")))
    );
}

#[test]
fn a_stake_is_received_and_committed() {
    let mut provider = provider();
    let mut consumer = consumer();
    let baseline = provider.ledger().query_consumer(CONNECTION_ID).unwrap();

    let packet = provider.dispatch_stake("d1", "V1", 100).unwrap();
    assert_eq!(packet.data, stake("d1", 100, "V1"));
    let debited = provider.ledger().query_consumer(CONNECTION_ID).unwrap();
    assert_eq!(debited.total_staked, baseline.total_staked + 100);

    let ack = consumer.receive(COUNTERPARTY_CHANNEL_ID, PROVIDER_PORT, &packet.data).unwrap();
    assert_eq!(ack, Ack::Result(AckPayload::Empty));
    assert_eq!(consumer.delegation("d1", "V1"), 100);

    assert_eq!(
        provider.ibc_packet_ack(&packet.channel_id, packet.sequence, ack),
        Ok(RequestState::Committed)
    );
    assert_eq!(provider.ledger().query_consumer(CONNECTION_ID).unwrap(), debited);
    assert_eq!(provider.staked("d1", "V1"), 100);
}

#[test]
fn an_unstake_of_more_than_is_delegated_is_reverted() {
    let mut provider = provider();
    let mut consumer = consumer();

    let first = provider.dispatch_stake("d1", "V1", 30).unwrap();
    let ack = consumer.receive(COUNTERPARTY_CHANNEL_ID, PROVIDER_PORT, &first.data).unwrap();
    provider.ibc_packet_ack(&first.channel_id, first.sequence, ack).unwrap();
    // a second stake is on its way and has not reached the consumer
    let _second = provider.dispatch_stake("d1", "V1", 20).unwrap();
    assert_eq!(consumer.delegation("d1", "V1"), 30);

    let before = provider.ledger().query_consumer(CONNECTION_ID).unwrap();
    let staked_before = provider.staked("d1", "V1");
    let packet = provider.dispatch_unstake("d1", "V1", 50).unwrap();
    assert_eq!(provider.ledger().query_consumer(CONNECTION_ID).unwrap().total_staked, 0);

    let ack = consumer.receive(COUNTERPARTY_CHANNEL_ID, PROVIDER_PORT, &packet.data).unwrap();
    assert_eq!(ack, Ack::Error(text("Insufficient delegation")));
    assert_eq!(consumer.delegation("d1", "V1"), 30);

    assert_eq!(
        provider.ibc_packet_ack(&packet.channel_id, packet.sequence, ack),
        Ok(RequestState::Reverted)
    );
    assert_eq!(provider.ledger().query_consumer(CONNECTION_ID).unwrap(), before);
    assert_eq!(before.total_staked, 50);
    assert_eq!(provider.staked("d1", "V1"), staked_before);
    assert_eq!(provider.ledger().delegation(CONNECTION_ID, "V1"), 50);
}

#[test]
fn delegations_rise_and_fall() {
    let mut consumer = consumer();
    let ok = Ok(Ack::Result(AckPayload::Empty));
    assert_eq!(consumer.receive(COUNTERPARTY_CHANNEL_ID, PROVIDER_PORT, &stake("d1", 30, "V1")), ok);
    assert_eq!(
        consumer.receive(COUNTERPARTY_CHANNEL_ID, PROVIDER_PORT, &stake("d1", 12, "V1")),
        Ok(Ack::Result(AckPayload::Empty))
    );
    assert_eq!(
        consumer.receive(COUNTERPARTY_CHANNEL_ID, PROVIDER_PORT, &stake("d2", 5, "V1")),
        Ok(Ack::Result(AckPayload::Empty))
    );
    assert_eq!(consumer.delegation("d1", "V1"), 42);
    assert_eq!(
        consumer.receive(COUNTERPARTY_CHANNEL_ID, PROVIDER_PORT, &unstake("d1", 43, "V1")),
        Ok(Ack::Error(text("Insufficient delegation")))
    );
    assert_eq!(
        consumer.receive(COUNTERPARTY_CHANNEL_ID, PROVIDER_PORT, &unstake("d1", 1, "V2")),
        Ok(Ack::Error(text("Insufficient delegation")))
    );
    assert_eq!(consumer.delegation("d1", "V1"), 42);
    assert_eq!(consumer.delegation("d2", "V1"), 5);
    assert_eq!(
        consumer.receive(COUNTERPARTY_CHANNEL_ID, PROVIDER_PORT, &unstake("d1", 42, "V1")),
        Ok(Ack::Result(AckPayload::Empty))
    );
    assert_eq!(consumer.delegation("d1", "V1"), 0);
    assert_eq!(
        consumer.receive(COUNTERPARTY_CHANNEL_ID, PROVIDER_PORT, &stake("d3", u128::MAX, "V1")),
        Ok(Ack::Error(text("Not enough funds")))
    );
    assert_eq!(consumer.delegation("d3", "V1"), 0);
    consumer.bounds();
}

#[test]
fn the_active_validators_are_listed() {
    let mut consumer = consumer();
    let packet = consumer.emit_validator_update(vec![text("V1"), text("V2")], vec![]).unwrap();
    assert_eq!(
        packet,
        ConsumerPacket {
            channel_id: text(COUNTERPARTY_CHANNEL_ID),
            data: ConsumerMsg::UpdateValidators { added: vec![text("V1"), text("V2")], removed: vec![] },
            lifetime: 3600,
        }
    );
    consumer.emit_validator_update(vec![text("V3")], vec![text("V1")]).unwrap();
    assert_eq!(
        consumer.emit_validator_update(vec![text("V4")], vec![text("V4")]),
        Err(ContractError::UpdateValidatorsFailed {})
    );
    assert_eq!(
        consumer.receive(COUNTERPARTY_CHANNEL_ID, PROVIDER_PORT, &ProviderMsg::ListValidators {}),
        Ok(Ack::Result(AckPayload::Validators(vec![text("V2"), text("V3")])))
    );

    // the provider takes the change in, and the list as well
    let mut provider = provider();
    assert_eq!(
        provider.ibc_packet_receive(CHANNEL_ID, &packet.data),
        Ok(Ack::Result(AckPayload::Empty))
    );
    assert!(provider.query_validator("V1").unwrap().active);
    let request = provider.dispatch_list_validators().unwrap();
    let ack = consumer.receive(COUNTERPARTY_CHANNEL_ID, PROVIDER_PORT, &request.data).unwrap();
    provider.ibc_packet_ack(CHANNEL_ID, request.sequence, ack).unwrap();
    assert!(!provider.query_validator("V1").unwrap().active);
    assert!(provider.query_validator("V3").unwrap().active);
}

#[test]
fn a_failed_update_is_reported() {
    let consumer = consumer();
    assert_eq!(
        consumer.on_update_outcome(&Outcome::Ack(Ack::Result(AckPayload::Empty))),
        Ok(())
    );
    assert_eq!(
        consumer.on_update_outcome(&Outcome::Ack(Ack::Error(text("no")))),
        Err(ContractError::UpdateValidatorsFailed {})
    );
    assert_eq!(
        consumer.on_update_outcome(&Outcome::Timeout),
        Err(ContractError::UpdateValidatorsFailed {})
    );
}

#[test]
fn rewards_are_converted_when_they_are_claimed() {
    let mut consumer = Consumer::instantiate(config(Decimal::percent(150)), None).unwrap();
    consumer.accrue_rewards(1000).unwrap();
    consumer.accrue_rewards(1).unwrap();
    assert_eq!(consumer.pending_rewards(), 1001);
    assert_eq!(consumer.query_rewards(), Ok(1501));

    assert_eq!(
        consumer.set_exchange_rate("stranger", Decimal::one()),
        Err(ContractError::Unauthorized {})
    );
    assert_eq!(
        consumer.set_exchange_rate("meta_staking", Decimal::zero()),
        Err(ContractError::CustomError { val: text("exchange rate must be positive") })
    );
    assert_eq!(consumer.query_rewards(), Ok(1501));
    assert_eq!(consumer.set_exchange_rate("meta_staking", Decimal::percent(50)), Ok(()));
    assert_eq!(consumer.query_rewards(), Ok(500));
    assert_eq!(consumer.claim_rewards(), Ok(500));
    assert_eq!(consumer.pending_rewards(), 0);

    consumer.set_exchange_rate("meta_staking", Decimal::percent(300)).unwrap();
    assert_eq!(consumer.claim_rewards(), Ok(0));
    consumer.accrue_rewards(7).unwrap();
    assert_eq!(consumer.claim_rewards(), Ok(21));
}

#[test]
fn rewards_beyond_the_limits_are_refused() {
    let mut consumer = Consumer::instantiate(config(Decimal::percent(200)), None).unwrap();
    consumer.accrue_rewards(u128::MAX).unwrap();
    assert_eq!(consumer.accrue_rewards(1), Err(ContractError::RewardsFailed {}));
    assert_eq!(consumer.query_rewards(), Err(ContractError::RewardsFailed {}));
    assert_eq!(consumer.claim_rewards(), Err(ContractError::RewardsFailed {}));
    assert_eq!(consumer.pending_rewards(), u128::MAX);
}
