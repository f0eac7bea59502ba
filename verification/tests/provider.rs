use mesh_security::channel::{
    ibc_app_version, Channel, ChannelManager, ChannelState, IbcChannel, IbcEndpoint, IbcOrder,
};
use mesh_security::decimal::Decimal;
use mesh_security::driver::{
    add_stake_fail_unit, add_stake_unit, execute_claim_rewards, execute_slash,
    get_default_init_msg, ibc_close_channel, ibc_connect, ibc_open, ibc_open_channel,
    instantiate_provider, list_validators_fail_unit, list_validators_unit, mock_channel,
    query_account_unit, query_validators_unit, remove_stake_fail_unit, remove_stake_unit,
    try_execute_slash, update_validator_unit, CHANNEL_ID, CONNECTION_ID, CONSUMER_PORT,
    COUNTERPARTY_CHANNEL_ID, CREATOR_ADDR, DELEGATOR_ADDR, LOCKUP_ADDR, PROVIDER_PORT,
    RELAYER_ADDR, REWARDS_IBC_DENOM, VALIDATOR,
};
use mesh_security::error::{ContractError, MeshSecurityError};
use mesh_security::ledger::MetaStaking;
use mesh_security::outbox::{Outbox, OutboundRequest, RequestKind, RequestState};
use mesh_security::packet::{Ack, AckPayload, ConsumerMsg, Outcome, ProviderMsg, ProviderPacket};
use mesh_security::provider::{
    AccountResponse, ConsumerInfo, InstantiateMsg, Provider, SlasherInfo, StakeInfo,
    ValidatorResponse, DEFAULT_PACKET_LIFETIME,
};

const FUNDS: u128 = 10000;

fn ledger() -> MetaStaking {
    let mut staking = MetaStaking::new(CREATOR_ADDR, 1_000_000);
    staking.register_consumer(CONNECTION_ID, FUNDS).unwrap();
    staking
}

fn provider() -> Provider {
    instantiate_provider(ledger(), None)
}

fn bound_provider() -> Provider {
    let mut provider = provider();
    ibc_open_channel(&mut provider, CHANNEL_ID).unwrap();
    provider
}

fn staked_total(provider: &Provider) -> u128 {
    provider.ledger().query_consumer(CONNECTION_ID).unwrap().total_staked
}

fn text(s: &str) -> String {
    s.to_string()
}

// sends a stake and hands over the consumer's success
fn stake(provider: &mut Provider, delegator: &str, validator: &str, amount: u128) {
    provider.dispatch_stake(delegator, validator, amount).unwrap();
    assert_eq!(add_stake_unit(provider, delegator, validator, amount), Ok(RequestState::Committed));
}

// sends an unstake and hands over the consumer's success
fn unstake(provider: &mut Provider, delegator: &str, validator: &str, amount: u128) {
    provider.dispatch_unstake(delegator, validator, amount).unwrap();
    assert_eq!(
        remove_stake_unit(provider, delegator, validator, amount),
        Ok(RequestState::Committed)
    );
}

#[test]
fn the_default_message() {
    let msg = get_default_init_msg(7);
    assert_eq!(
        msg,
        InstantiateMsg {
            consumer: ConsumerInfo { connection_id: text(CONNECTION_ID) },
            slasher: SlasherInfo { code_id: 7, msg: vec![] },
            lockup: text(LOCKUP_ADDR),
            unbonding_period: 1209600,
            rewards_ibc_denom: text(REWARDS_IBC_DENOM),
            packet_lifetime: None,
        }
    );
    assert_eq!(RELAYER_ADDR, "relayer");
    assert_eq!(DEFAULT_PACKET_LIFETIME, 3600);
}

#[test]
fn a_new_provider_has_no_channel() {
    let provider = provider();
    assert_eq!(provider.channel_state(), ChannelState::Uninitialized);
    assert_eq!(provider.next_sequence(), 1);
    assert_eq!(staked_total(&provider), 0);
    provider.bounds();
}

#[test]
fn the_mock_channel() {
    assert_eq!(
        mock_channel("channel-5", "v"),
        IbcChannel {
            endpoint: IbcEndpoint { port_id: text(PROVIDER_PORT), channel_id: text("channel-5") },
            counterparty_endpoint: IbcEndpoint {
                port_id: text(CONSUMER_PORT),
                channel_id: text(COUNTERPARTY_CHANNEL_ID),
            },
            order: IbcOrder::Unordered,
            version: text("v"),
            connection_id: text(CONNECTION_ID),
        }
    );
    assert_eq!(ibc_app_version(), "mesh-security-v0.1");
}

#[test]
fn the_handshake_opens_the_channel() {
    let mut provider = provider();
    let channel = mock_channel(CHANNEL_ID, ibc_app_version());
    assert_eq!(ibc_open(&provider, channel.clone()), Ok(Some(text("mesh-security-v0.1"))));
    assert_eq!(provider.channel_state(), ChannelState::Uninitialized);
    assert_eq!(ibc_connect(&mut provider, channel), Ok(()));
    assert_eq!(provider.channel_state(), ChannelState::Open);
}

#[test]
fn only_one_channel_is_ever_bound() {
    let mut provider = bound_provider();
    let again = mock_channel("channel-2", ibc_app_version());
    let exists = Err(ContractError::ChannelExists(text(CHANNEL_ID)));
    assert_eq!(ibc_open(&provider, again.clone()), Err(ContractError::ChannelExists(text(CHANNEL_ID))));
    assert_eq!(ibc_connect(&mut provider, again.clone()), exists);
    assert_eq!(ibc_open_channel(&mut provider, CHANNEL_ID), exists);
    assert_eq!(ibc_open_channel(&mut provider, "channel-3"), exists);

    // a closed channel is not bound again either
    assert_eq!(ibc_close_channel(&mut provider), Ok(()));
    assert_eq!(provider.channel_state(), ChannelState::Closed);
    assert_eq!(ibc_connect(&mut provider, again), exists);
    assert_eq!(provider.channel_state(), ChannelState::Closed);
}

#[test]
fn another_connection_is_refused() {
    let mut provider = provider();
    let mut channel = mock_channel(CHANNEL_ID, ibc_app_version());
    channel.connection_id = text("connection-2");
    let wrong = Err(ContractError::WrongConnection(text(CONNECTION_ID)));
    assert_eq!(ibc_open(&provider, channel.clone()), Err(ContractError::WrongConnection(text(CONNECTION_ID))));
    assert_eq!(ibc_connect(&mut provider, channel), wrong);
    assert_eq!(provider.channel_state(), ChannelState::Uninitialized);
    assert_eq!(ibc_open_channel(&mut provider, CHANNEL_ID), Ok(()));
}

#[test]
fn order_and_version_are_checked() {
    let mut provider = provider();
    let mut ordered = mock_channel(CHANNEL_ID, ibc_app_version());
    ordered.order = IbcOrder::Ordered;
    assert_eq!(
        ibc_connect(&mut provider, ordered),
        Err(ContractError::MeshSecurity(MeshSecurityError::InvalidChannelOrder))
    );
    let versioned = mock_channel(CHANNEL_ID, "mesh-security-v0.2");
    assert_eq!(
        ibc_open(&provider, versioned),
        Err(ContractError::MeshSecurity(MeshSecurityError::InvalidChannelVersion))
    );
    let channel = mock_channel(CHANNEL_ID, ibc_app_version());
    assert_eq!(
        provider.ibc_channel_open(&channel, Some("other")),
        Err(ContractError::MeshSecurity(MeshSecurityError::InvalidChannelVersion))
    );
    assert_eq!(
        provider.ibc_channel_connect(&channel, Some("other")),
        Err(ContractError::MeshSecurity(MeshSecurityError::InvalidChannelVersion))
    );
    assert_eq!(provider.channel_state(), ChannelState::Uninitialized);
    assert_eq!(provider.ibc_channel_connect(&channel, None), Ok(()));
    assert_eq!(provider.channel_state(), ChannelState::Open);
}

#[test]
fn a_manager_with_a_port_checks_it() {
    let mut manager = ChannelManager::new(CONNECTION_ID, Some(text(CONSUMER_PORT)));
    let mut channel = mock_channel(CHANNEL_ID, ibc_app_version());
    channel.counterparty_endpoint.port_id = text("wasm.other");
    assert_eq!(
        manager.connect(&channel, Some(ibc_app_version())),
        Err(ContractError::WrongPort(text(CONSUMER_PORT)))
    );
    assert_eq!(manager.state(), ChannelState::Uninitialized);
    channel.connection_id = text("connection-9");
    assert_eq!(
        manager.open(&channel, None),
        Err(ContractError::WrongConnection(text(CONNECTION_ID)))
    );
    let good = mock_channel(CHANNEL_ID, ibc_app_version());
    assert_eq!(manager.check_open(CHANNEL_ID), Err(ContractError::UnknownChannel(text(CHANNEL_ID))));
    assert_eq!(manager.connect(&good, Some(ibc_app_version())), Ok(()));
    assert_eq!(manager.check_open(CHANNEL_ID), Ok(()));
    assert_eq!(
        manager.channel(),
        Channel {
            channel_id: text(CHANNEL_ID),
            connection_id: text(CONNECTION_ID),
            port_id: text(CONSUMER_PORT),
            negotiated_version: text("mesh-security-v0.1"),
            state: ChannelState::Open,
        }
    );
    assert_eq!(
        manager.close(&mock_channel("channel-2", ibc_app_version())),
        Err(ContractError::UnknownChannel(text("channel-2")))
    );
    assert_eq!(manager.close(&good), Ok(()));
    assert_eq!(manager.close(&good), Err(ContractError::UnknownChannel(text(CHANNEL_ID))));
    assert_eq!(manager.channel().state, ChannelState::Closed);
}

#[test]
fn nothing_is_sent_without_an_open_channel() {
    let mut provider = provider();
    assert_eq!(
        provider.dispatch_stake("d1", "V1", 100),
        Err(ContractError::UnknownChannel(text("")))
    );
    assert_eq!(ibc_close_channel(&mut provider), Err(ContractError::UnknownChannel(text(CHANNEL_ID))));
    ibc_open_channel(&mut provider, CHANNEL_ID).unwrap();
    provider.dispatch_stake("d1", "V1", 100).unwrap();
    ibc_close_channel(&mut provider).unwrap();
    let unknown = Err(ContractError::UnknownChannel(text(CHANNEL_ID)));
    assert_eq!(provider.dispatch_stake("d1", "V1", 100), unknown);
    assert_eq!(provider.dispatch_unstake("d1", "V1", 100), Err(ContractError::UnknownChannel(text(CHANNEL_ID))));
    assert_eq!(provider.dispatch_list_validators(), Err(ContractError::UnknownChannel(text(CHANNEL_ID))));
    assert_eq!(
        provider.ibc_packet_ack(CHANNEL_ID, 1, Ack::Result(AckPayload::Empty)),
        Err(ContractError::UnknownChannel(text(CHANNEL_ID)))
    );
    assert_eq!(
        provider.ibc_packet_timeout(CHANNEL_ID, 1),
        Err(ContractError::UnknownChannel(text(CHANNEL_ID)))
    );
    assert_eq!(
        update_validator_unit(&mut provider, vec![text("V1")], vec![]),
        Err(ContractError::UnknownChannel(text(CHANNEL_ID)))
    );
    assert!(provider.is_pending(1));
    assert_eq!(staked_total(&provider), 100);
}

#[test]
fn a_stake_is_applied_at_once_and_committed_by_success() {
    let mut provider = bound_provider();
    let packet = provider.dispatch_stake("d1", "V1", 100).unwrap();
    assert_eq!(
        packet,
        ProviderPacket {
            channel_id: text(CHANNEL_ID),
            sequence: 1,
            data: ProviderMsg::Stake { key: text("d1"), amount: 100, validator: text("V1") },
            lifetime: 3600,
        }
    );
    assert!(provider.is_pending(1));
    assert_eq!(provider.next_sequence(), 2);
    assert_eq!(staked_total(&provider), 100);
    assert_eq!(provider.staked("d1", "V1"), 100);

    assert_eq!(
        provider.ibc_packet_ack(CHANNEL_ID, 1, Ack::Result(AckPayload::Empty)),
        Ok(RequestState::Committed)
    );
    assert!(!provider.is_pending(1));
    assert_eq!(staked_total(&provider), 100);
    assert_eq!(provider.ledger().delegation(CONNECTION_ID, "V1"), 100);
    assert_eq!(provider.staked("d1", "V1"), 100);
}

#[test]
fn a_failed_stake_restores_the_balance() {
    for timeout in [false, true] {
        let mut provider = bound_provider();
        stake(&mut provider, "d0", "V1", 40);
        let before = provider.ledger().query_consumer(CONNECTION_ID).unwrap();

        let packet = provider.dispatch_stake("d1", "V1", 100).unwrap();
        assert_eq!(staked_total(&provider), 140);
        let end = if timeout {
            provider.ibc_packet_timeout(CHANNEL_ID, packet.sequence)
        } else {
            provider.ibc_packet_ack(CHANNEL_ID, packet.sequence, Ack::Error(text("no")))
        };
        assert_eq!(end, Ok(if timeout { RequestState::TimedOut } else { RequestState::Reverted }));

        assert_eq!(provider.ledger().query_consumer(CONNECTION_ID).unwrap(), before);
        assert_eq!(provider.ledger().delegation(CONNECTION_ID, "V1"), 40);
        assert_eq!(provider.staked("d1", "V1"), 0);
        assert_eq!(provider.staked("d0", "V1"), 40);
        assert!(!provider.is_pending(packet.sequence));
    }
}

#[test]
fn a_waiting_stake_is_committed_by_its_unit() {
    let mut provider = bound_provider();
    provider.dispatch_stake("d1", "V1", 100).unwrap();
    let waiting = provider.ledger().query_consumer(CONNECTION_ID).unwrap();
    assert_eq!(waiting.available_funds - waiting.total_staked, 9900);

    assert_eq!(add_stake_unit(&mut provider, "d1", "V1", 100), Ok(RequestState::Committed));
    assert!(!provider.is_pending(1));
    assert_eq!(provider.next_sequence(), 2);
    assert_eq!(provider.ledger().query_consumer(CONNECTION_ID).unwrap(), waiting);
    assert_eq!(provider.staked("d1", "V1"), 100);

    // the request has got its answer: a second one is refused
    assert_eq!(add_stake_unit(&mut provider, "d1", "V1", 100), Err(ContractError::AckFailed {}));
    assert_eq!(provider.ledger().query_consumer(CONNECTION_ID).unwrap(), waiting);
}

#[test]
fn a_unit_without_a_waiting_request_is_refused() {
    let mut provider = bound_provider();
    let before = provider.ledger().query_consumer(CONNECTION_ID).unwrap();
    let failed = Err(ContractError::AckFailed {});
    assert_eq!(add_stake_unit(&mut provider, "d1", "V1", 100), failed);
    assert_eq!(add_stake_fail_unit(&mut provider, "d1", "V1", 100), Err(ContractError::AckFailed {}));
    assert_eq!(remove_stake_unit(&mut provider, "d1", "V1", 1), Err(ContractError::AckFailed {}));
    assert_eq!(remove_stake_fail_unit(&mut provider, "d1", "V1", 1), Err(ContractError::AckFailed {}));
    assert_eq!(list_validators_unit(&mut provider), Err(ContractError::AckFailed {}));
    assert_eq!(list_validators_fail_unit(&mut provider), Err(ContractError::AckFailed {}));

    // a request that waits is answered only by the unit that names it
    provider.dispatch_stake("d1", "V1", 100).unwrap();
    assert_eq!(add_stake_unit(&mut provider, "d1", "V1", 99), Err(ContractError::AckFailed {}));
    assert_eq!(add_stake_unit(&mut provider, "d1", "V2", 100), Err(ContractError::AckFailed {}));
    assert_eq!(add_stake_unit(&mut provider, "d2", "V1", 100), Err(ContractError::AckFailed {}));
    assert_eq!(remove_stake_unit(&mut provider, "d1", "V1", 100), Err(ContractError::AckFailed {}));
    assert_eq!(list_validators_unit(&mut provider), Err(ContractError::AckFailed {}));
    assert!(provider.is_pending(1));
    assert_eq!(provider.next_sequence(), 2);
    assert_eq!(staked_total(&provider), before.total_staked + 100);
}

#[test]
fn a_waiting_stake_is_taken_back_by_its_fail_unit() {
    let mut provider = bound_provider();
    let before = provider.ledger().query_consumer(CONNECTION_ID).unwrap();
    assert_eq!(before.available_funds - before.total_staked, 10000);
    provider.dispatch_stake("d1", "V1", 100).unwrap();
    assert_eq!(staked_total(&provider), 100);

    assert_eq!(add_stake_fail_unit(&mut provider, "d1", "V1", 100), Ok(RequestState::Reverted));
    assert_eq!(provider.ledger().query_consumer(CONNECTION_ID).unwrap(), before);
    assert_eq!(provider.staked("d1", "V1"), 0);
    assert!(!provider.is_pending(1));

    // taken back once, never twice
    assert_eq!(
        add_stake_fail_unit(&mut provider, "d1", "V1", 100),
        Err(ContractError::AckFailed {})
    );
    assert_eq!(provider.ledger().query_consumer(CONNECTION_ID).unwrap(), before);
    assert_eq!(provider.next_sequence(), 2);
}

#[test]
fn a_waiting_unstake_is_committed_or_taken_back_by_its_unit() {
    let mut provider = bound_provider();
    stake(&mut provider, "d1", "V1", 100);

    provider.dispatch_unstake("d1", "V1", 30).unwrap();
    assert_eq!(provider.staked("d1", "V1"), 70);
    assert_eq!(remove_stake_unit(&mut provider, "d1", "V1", 30), Ok(RequestState::Committed));
    assert_eq!(provider.staked("d1", "V1"), 70);
    assert_eq!(staked_total(&provider), 70);

    provider.dispatch_unstake("d1", "V1", 30).unwrap();
    assert_eq!(provider.staked("d1", "V1"), 40);
    assert_eq!(staked_total(&provider), 40);
    assert_eq!(remove_stake_fail_unit(&mut provider, "d1", "V1", 30), Ok(RequestState::Reverted));
    assert_eq!(provider.staked("d1", "V1"), 70);
    assert_eq!(staked_total(&provider), 70);
    assert_eq!(provider.ledger().delegation(CONNECTION_ID, "V1"), 70);
    assert_eq!(
        remove_stake_fail_unit(&mut provider, "d1", "V1", 30),
        Err(ContractError::AckFailed {})
    );
    assert_eq!(provider.next_sequence(), 4);
}

#[test]
fn a_unit_answers_the_request_that_waits_longest() {
    let mut provider = bound_provider();
    provider.dispatch_stake("d1", "V1", 100).unwrap();
    provider.dispatch_stake("d2", "V1", 100).unwrap();
    provider.dispatch_stake("d1", "V1", 100).unwrap();
    assert_eq!(provider.find_waiting(RequestKind::Stake, "d1", "V1", Some(100)), Some(1));
    assert_eq!(provider.find_waiting(RequestKind::Stake, "d2", "V1", Some(100)), Some(2));
    assert_eq!(provider.find_waiting(RequestKind::Unstake, "d1", "V1", Some(100)), None);
    assert_eq!(provider.find_waiting(RequestKind::Stake, "d1", "V1", None), None);

    assert_eq!(add_stake_fail_unit(&mut provider, "d1", "V1", 100), Ok(RequestState::Reverted));
    assert!(!provider.is_pending(1));
    assert!(provider.is_pending(2));
    assert!(provider.is_pending(3));
    assert_eq!(provider.staked("d1", "V1"), 100);
    assert_eq!(add_stake_unit(&mut provider, "d1", "V1", 100), Ok(RequestState::Committed));
    assert!(!provider.is_pending(3));
    assert_eq!(provider.staked("d1", "V1"), 100);
    assert_eq!(staked_total(&provider), 200);
}

#[test]
fn a_unit_needs_the_open_channel() {
    let mut provider = bound_provider();
    provider.dispatch_stake("d1", "V1", 100).unwrap();
    ibc_close_channel(&mut provider).unwrap();
    assert_eq!(
        add_stake_unit(&mut provider, "d1", "V1", 100),
        Err(ContractError::UnknownChannel(text(CHANNEL_ID)))
    );
    assert_eq!(
        list_validators_fail_unit(&mut provider),
        Err(ContractError::UnknownChannel(text(CHANNEL_ID)))
    );
    assert!(provider.is_pending(1));

    // a provider bound to another channel takes no answer from the usual one
    let mut other = instantiate_provider(ledger(), None);
    ibc_open_channel(&mut other, "channel-2").unwrap();
    other.dispatch_stake("d1", "V1", 100).unwrap();
    assert_eq!(
        add_stake_fail_unit(&mut other, "d1", "V1", 100),
        Err(ContractError::UnknownChannel(text(CHANNEL_ID)))
    );
    assert_eq!(staked_total(&other), 100);
}

#[test]
fn requests_are_refused_before_they_are_sent() {
    let mut provider = bound_provider();
    stake(&mut provider, "d1", "V1", 70);
    assert_eq!(
        provider.dispatch_stake("d1", "V1", FUNDS),
        Err(ContractError::NotEnoughFunds {})
    );
    assert_eq!(
        provider.dispatch_unstake("d1", "V1", 71),
        Err(ContractError::InsufficientDelegation {})
    );
    assert_eq!(
        provider.dispatch_unstake("d2", "V1", 1),
        Err(ContractError::InsufficientDelegation {})
    );
    assert_eq!(provider.next_sequence(), 2);
    stake(&mut provider, "d2", "V2", FUNDS - 70);
    assert_eq!(staked_total(&provider), FUNDS);
}

#[test]
fn a_provider_without_its_consumer_in_the_ledger_sends_no_stake() {
    let mut provider = instantiate_provider(MetaStaking::new(CREATOR_ADDR, 10), None);
    ibc_open_channel(&mut provider, CHANNEL_ID).unwrap();
    assert_eq!(provider.dispatch_stake("d1", "V1", 1), Err(ContractError::NoConsumer {}));
    assert_eq!(provider.next_sequence(), 1);
}

#[test]
fn each_sequence_resolves_once() {
    let mut provider = bound_provider();
    assert_eq!(provider.on_ack(1, Ack::Result(AckPayload::Empty)), Err(ContractError::AckFailed {}));
    assert_eq!(provider.on_timeout(9), Err(ContractError::AckFailed {}));
    let packet = provider.dispatch_stake("d1", "V1", 100).unwrap();
    assert_eq!(provider.on_ack(packet.sequence, Ack::Error(text("no"))), Ok(RequestState::Reverted));
    assert_eq!(
        provider.on_ack(packet.sequence, Ack::Error(text("no"))),
        Err(ContractError::AckFailed {})
    );
    assert_eq!(provider.on_timeout(packet.sequence), Err(ContractError::AckFailed {}));
    assert_eq!(
        provider.resolve(packet.sequence, Outcome::Ack(Ack::Result(AckPayload::Empty))),
        Err(ContractError::AckFailed {})
    );
    assert_eq!(staked_total(&provider), 0);
}

#[test]
fn answers_may_come_in_any_order() {
    let mut provider = bound_provider();
    let first = provider.dispatch_stake("d1", "V1", 100).unwrap();
    let second = provider.dispatch_unstake("d1", "V1", 60).unwrap();
    assert_eq!(second.sequence, 2);
    assert_eq!(
        second.data,
        ProviderMsg::Unstake { key: text("d1"), amount: 60, validator: text("V1") }
    );
    assert_eq!(staked_total(&provider), 40);
    // the stake can no longer be taken back in full: reported, nothing changes
    assert_eq!(
        provider.on_ack(first.sequence, Ack::Error(text("no"))),
        Err(ContractError::AckFailed {})
    );
    assert!(provider.is_pending(first.sequence));
    assert_eq!(staked_total(&provider), 40);
    assert_eq!(provider.on_timeout(second.sequence), Ok(RequestState::TimedOut));
    assert_eq!(staked_total(&provider), 100);
    assert_eq!(provider.on_timeout(first.sequence), Ok(RequestState::TimedOut));
    assert_eq!(staked_total(&provider), 0);
    assert_eq!(provider.staked("d1", "V1"), 0);
}

#[test]
fn a_failed_unstake_needs_funds_to_be_restored() {
    let mut provider = bound_provider();
    stake(&mut provider, "d1", "V1", FUNDS);
    let waiting = provider.dispatch_unstake("d1", "V1", 500).unwrap();
    stake(&mut provider, "d2", "V2", 500);
    assert_eq!(
        provider.on_ack(waiting.sequence, Ack::Error(text("no"))),
        Err(ContractError::AckFailed {})
    );
    assert_eq!(
        remove_stake_fail_unit(&mut provider, "d1", "V1", 500),
        Err(ContractError::AckFailed {})
    );
    assert_eq!(provider.staked("d1", "V1"), FUNDS - 500);
    unstake(&mut provider, "d2", "V2", 500);
    assert_eq!(
        remove_stake_fail_unit(&mut provider, "d1", "V1", 500),
        Ok(RequestState::Reverted)
    );
    assert_eq!(provider.staked("d1", "V1"), FUNDS);
    assert_eq!(staked_total(&provider), FUNDS);
}

#[test]
fn the_list_of_validators_replaces_the_cache() {
    let mut provider = bound_provider();
    update_validator_unit(&mut provider, vec![text("V1"), text("V2")], vec![]).unwrap();
    provider.dispatch_list_validators().unwrap();
    assert_eq!(list_validators_fail_unit(&mut provider), Ok(RequestState::Reverted));
    assert!(query_validators_unit(&provider, "V1").unwrap().active);
    provider.dispatch_list_validators().unwrap();
    assert_eq!(list_validators_unit(&mut provider), Ok(RequestState::Committed));
    assert!(!query_validators_unit(&provider, "V1").unwrap().active);
    assert!(!query_validators_unit(&provider, "V2").unwrap().active);
    assert!(query_validators_unit(&provider, VALIDATOR).unwrap().active);
    assert_eq!(provider.next_sequence(), 3);

    let packet = provider.dispatch_list_validators().unwrap();
    assert_eq!(packet.data, ProviderMsg::ListValidators {});
    assert_eq!(
        provider.on_ack(packet.sequence, Ack::Result(AckPayload::Empty)),
        Err(ContractError::AckFailed {})
    );
    assert!(provider.is_pending(packet.sequence));
    assert_eq!(
        provider.on_ack(
            packet.sequence,
            Ack::Result(AckPayload::Validators(vec![text("V2"), text("V3")]))
        ),
        Ok(RequestState::Committed)
    );
    assert!(!query_validators_unit(&provider, VALIDATOR).unwrap().active);
    assert!(query_validators_unit(&provider, "V2").unwrap().active);
    assert!(query_validators_unit(&provider, "V3").unwrap().active);

    // a list that answers a stake commits the stake and is not applied
    let stake = provider.dispatch_stake("d1", "V1", 1).unwrap();
    assert_eq!(
        provider.on_ack(stake.sequence, Ack::Result(AckPayload::Validators(vec![text("V9")]))),
        Ok(RequestState::Committed)
    );
    assert!(query_validators_unit(&provider, "V9").is_err());
    assert_eq!(provider.staked("d1", "V1"), 1);
}

#[test]
fn validator_changes_are_applied_to_the_cache() {
    let mut provider = bound_provider();
    assert_eq!(
        update_validator_unit(&mut provider, vec![text("V1"), text("V2")], vec![]),
        Ok(Ack::Result(AckPayload::Empty))
    );
    assert_eq!(
        update_validator_unit(&mut provider, vec![text("V3")], vec![text("V1"), text("V8")]),
        Ok(Ack::Result(AckPayload::Empty))
    );
    assert_eq!(
        query_validators_unit(&provider, "V1"),
        Ok(ValidatorResponse { address: text("V1"), tokens_staked: 0, active: false })
    );
    assert!(query_validators_unit(&provider, "V3").unwrap().active);
    assert!(matches!(
        query_validators_unit(&provider, "V8"),
        Err(cosmwasm_std::StdError::NotFound { .. })
    ));

    assert_eq!(
        update_validator_unit(&mut provider, vec![text("V5"), text("V1")], vec![text("V1")]),
        Ok(Ack::Error(text("Update validators acknowledgement failed")))
    );
    assert!(query_validators_unit(&provider, "V5").is_err());
    assert_eq!(
        provider.on_update_validators(&vec![text("V5")], &vec![text("V5")]),
        Err(ContractError::UpdateValidatorsFailed {})
    );
    assert_eq!(
        provider.ibc_packet_receive(
            "channel-2",
            &ConsumerMsg::UpdateValidators { added: vec![], removed: vec![] }
        ),
        Err(ContractError::UnknownChannel(text("channel-2")))
    );
}

#[test]
fn queries_tell_stakes() {
    let mut provider = bound_provider();
    update_validator_unit(&mut provider, vec![text("V1")], vec![]).unwrap();
    stake(&mut provider, "d1", "V1", 100);
    stake(&mut provider, "d2", "V1", 50);
    stake(&mut provider, "d1", "V2", 7);
    assert_eq!(
        query_validators_unit(&provider, "V1"),
        Ok(ValidatorResponse { address: text("V1"), tokens_staked: 150, active: true })
    );
    assert_eq!(
        query_account_unit(&provider, "d1"),
        Ok(AccountResponse {
            staked: vec![
                StakeInfo { validator: text("V1"), tokens: 100 },
                StakeInfo { validator: text("V2"), tokens: 7 },
            ]
        })
    );
    assert_eq!(query_account_unit(&provider, "d3"), Ok(AccountResponse { staked: vec![] }));
    assert_eq!(query_account_unit(&provider, "d1"), query_account_unit(&provider, "d1"));

    // a stake that is used up leaves the list, and comes last when it returns
    unstake(&mut provider, "d1", "V1", 100);
    stake(&mut provider, "d1", "V3", 1);
    stake(&mut provider, "d1", "V1", 2);
    stake(&mut provider, "d1", "V2", 1);
    assert_eq!(
        query_account_unit(&provider, "d1"),
        Ok(AccountResponse {
            staked: vec![
                StakeInfo { validator: text("V2"), tokens: 8 },
                StakeInfo { validator: text("V3"), tokens: 1 },
                StakeInfo { validator: text("V1"), tokens: 2 },
            ]
        })
    );
}

fn slashable() -> Provider {
    let mut provider = bound_provider();
    provider.register_slasher("slasher").unwrap();
    update_validator_unit(&mut provider, vec![text("V1"), text("V2")], vec![]).unwrap();
    stake(&mut provider, "d1", "V1", 333);
    stake(&mut provider, "d2", "V1", 667);
    stake(&mut provider, "d1", "V2", 10);
    provider
}

#[test]
fn a_slash_cuts_the_ledger_and_every_stake() {
    let mut provider = slashable();
    assert_eq!(execute_slash(&mut provider, "slasher", "V1", "0.1", false), Ok(100));
    assert_eq!(provider.ledger().delegation(CONNECTION_ID, "V1"), 900);
    assert_eq!(provider.staked("d1", "V1"), 300);
    assert_eq!(provider.staked("d2", "V1"), 601);
    assert_eq!(provider.staked("d1", "V2"), 10);
    assert!(query_validators_unit(&provider, "V1").unwrap().active);
    assert_eq!(
        provider.ledger().query_consumer(CONNECTION_ID).unwrap().available_funds,
        FUNDS - 100
    );

    assert_eq!(try_execute_slash(&mut provider, "slasher", "V1", "1", true), Ok(900));
    assert_eq!(provider.staked("d1", "V1"), 0);
    assert_eq!(provider.staked("d2", "V1"), 0);
    assert_eq!(provider.staked("d1", "V2"), 10);
    assert!(!query_validators_unit(&provider, "V1").unwrap().active);
    assert_eq!(
        query_account_unit(&provider, "d1"),
        Ok(AccountResponse { staked: vec![StakeInfo { validator: text("V2"), tokens: 10 }] })
    );
    provider.bounds();
}

#[test]
fn a_slash_is_refused() {
    let mut provider = slashable();
    assert_eq!(
        try_execute_slash(&mut provider, "stranger", "V1", "0.1", false),
        Err(ContractError::Unauthorized {})
    );
    assert_eq!(
        try_execute_slash(&mut provider, "slasher", "V9", "0.1", false),
        Err(ContractError::UnknownValidator(text("V9")))
    );
    assert_eq!(
        try_execute_slash(&mut provider, "slasher", "V1", "1.000000000000000001", true),
        Err(ContractError::CustomError { val: text("slash percentage exceeds one") })
    );
    assert_eq!(
        try_execute_slash(&mut provider, "slasher", "V1", "ten", true),
        Err(ContractError::Std(cosmwasm_std::StdError::generic_err("Error parsing whole")))
    );
    assert_eq!(
        provider.slash("slasher", "V1", Decimal::percent(200), true),
        Err(ContractError::CustomError { val: text("slash percentage exceeds one") })
    );
    assert_eq!(provider.staked("d1", "V1"), 333);
    assert!(query_validators_unit(&provider, "V1").unwrap().active);
    assert_eq!(provider.register_slasher("other"), Err(ContractError::Unauthorized {}));

    let mut fresh = bound_provider();
    assert_eq!(
        try_execute_slash(&mut fresh, "slasher", "V1", "0.1", false),
        Err(ContractError::Unauthorized {})
    );
}

#[test]
fn rewards_are_claimed_once() {
    let mut staking = ledger();
    staking.accrue_reward(CONNECTION_ID, VALIDATOR, Decimal::percent(250)).unwrap();
    let mut provider = instantiate_provider(staking, None);
    ibc_open_channel(&mut provider, CHANNEL_ID).unwrap();
    assert_eq!(
        execute_claim_rewards(&mut provider, VALIDATOR),
        Err(ContractError::Unauthorized {})
    );
    stake(&mut provider, DELEGATOR_ADDR, VALIDATOR, 5);
    assert_eq!(provider.claim_rewards("other", VALIDATOR), Err(ContractError::Unauthorized {}));
    assert_eq!(execute_claim_rewards(&mut provider, VALIDATOR), Ok(Decimal::percent(250)));
    assert_eq!(execute_claim_rewards(&mut provider, VALIDATOR), Ok(Decimal::zero()));
}

#[test]
fn an_outbox_hands_out_rising_sequences() {
    let mut outbox = Outbox::new();
    assert_eq!(outbox.next_sequence(), 1);
    assert!(!outbox.is_full());
    assert_eq!(outbox.record(RequestKind::Stake, "d1", "V1", Some(5)), Some(1));
    assert_eq!(outbox.record(RequestKind::ListValidators, "", "", None), Some(2));
    assert_eq!(
        outbox.peek(1),
        Some(OutboundRequest {
            sequence: 1,
            kind: RequestKind::Stake,
            delegator_key: text("d1"),
            validator: text("V1"),
            amount: Some(5),
        })
    );
    assert_eq!(outbox.peek(3), None);
    assert_eq!(outbox.record(RequestKind::Stake, "d1", "V1", Some(5)), Some(3));
    assert_eq!(outbox.find_waiting(RequestKind::Stake, "d1", "V1", Some(5)), Some(1));
    assert_eq!(outbox.find_waiting(RequestKind::ListValidators, "", "", None), Some(2));
    assert_eq!(outbox.find_waiting(RequestKind::Stake, "d1", "V1", Some(6)), None);
    assert_eq!(outbox.resolve(1).unwrap().sequence, 1);
    assert_eq!(outbox.find_waiting(RequestKind::Stake, "d1", "V1", Some(5)), Some(3));
    assert_eq!(outbox.resolve(2).unwrap().kind, RequestKind::ListValidators);
    assert_eq!(outbox.resolve(2), None);
    assert_eq!(outbox.next_sequence(), 4);
    outbox.bounds();
}

#[test]
fn a_custom_packet_lifetime_is_used() {
    let mut msg = get_default_init_msg(1);
    msg.packet_lifetime = Some(99);
    msg.consumer.connection_id = text("connection-5");
    let mut staking = MetaStaking::new(CREATOR_ADDR, 10);
    staking.register_consumer("connection-5", 10).unwrap();
    let mut provider = instantiate_provider(staking, Some(msg));
    assert_eq!(
        ibc_open_channel(&mut provider, CHANNEL_ID),
        Err(ContractError::WrongConnection(text("connection-5")))
    );
    let mut channel = mock_channel(CHANNEL_ID, ibc_app_version());
    channel.connection_id = text("connection-5");
    ibc_connect(&mut provider, channel).unwrap();
    assert_eq!(provider.dispatch_stake("d", "V", 10).unwrap().lifetime, 99);
}
