//! Drives a provider as the transport would: the handshake in one call, and
//! the consumer's answer to a request that waits.
use crate::channel::{
    app_version, connected, handshake_fault, ibc_app_version, is_open_on, closed, open_fault,
    EndpointView, IbcChannel, IbcChannelView, IbcEndpoint, IbcOrder,
};
use crate::decimal::{decimal_text_atomics, Decimal};
use crate::error::{ContractError, ErrorView};
use crate::ledger::{slash_cut, withdrawn, MetaStaking};
use crate::outbox::{RequestKind, RequestState};
use crate::packet::{
    Ack, AckPayload, AckPayloadView, AckView, ConsumerMsg, OutcomeView,
};
use crate::provider::{
    account_of, callback_fault, claim_fault, created, final_state, lists_account, resolve_fault,
    resolved,
    slash_applied, slash_call_fault, update_fault, AccountResponse, ConsumerInfo,
    InstantiateMsg, Provider, ProviderView, SlasherInfo, ValidatorResponse,
};
use crate::sums::amount_in;
use crate::validators::{texts, updated};
use vstd::prelude::*;

verus! {

pub const CHANNEL_ID: &'static str = "channel-1";

pub const COUNTERPARTY_CHANNEL_ID: &'static str = "channel-7";

pub const CONNECTION_ID: &'static str = "connection-1";

pub const PROVIDER_PORT: &'static str = "wasm.provider";

pub const CONSUMER_PORT: &'static str = "wasm.consumer";

pub const CREATOR_ADDR: &'static str = "creator";

pub const LOCKUP_ADDR: &'static str = "lockup";

pub const RELAYER_ADDR: &'static str = "relayer";

pub const REWARDS_IBC_DENOM: &'static str = "ibc/rewards";

pub const VALIDATOR: &'static str = "validator";

pub const DELEGATOR_ADDR: &'static str = "delegator";

/// The parameters of the channel that [`mock_channel`] makes.
pub open spec fn mock_channel_view(channel_id: Seq<char>, version: Seq<char>) -> IbcChannelView {
    IbcChannelView {
        endpoint: EndpointView { port_id: PROVIDER_PORT@, channel_id },
        counterparty_endpoint: EndpointView {
            port_id: CONSUMER_PORT@,
            channel_id: COUNTERPARTY_CHANNEL_ID@,
        },
        order: IbcOrder::Unordered,
        version,
        connection_id: CONNECTION_ID@,
    }
}

/// An unordered channel between the provider's and the consumer's port over
/// the usual connection, with the given identifier and version.
pub fn mock_channel(channel_id: &str, version: &str) -> (c: IbcChannel)
    ensures
        c@ == mock_channel_view(channel_id@, version@),
{
    IbcChannel {
        endpoint: IbcEndpoint {
            port_id: PROVIDER_PORT.to_owned(),
            channel_id: channel_id.to_owned(),
        },
        counterparty_endpoint: IbcEndpoint {
            port_id: CONSUMER_PORT.to_owned(),
            channel_id: COUNTERPARTY_CHANNEL_ID.to_owned(),
        },
        order: IbcOrder::Unordered,
        version: version.to_owned(),
        connection_id: CONNECTION_ID.to_owned(),
    }
}

/// The message that creates a provider for the usual connection, with a
/// fortnight of unbonding, the default packet lifetime and a slasher of the
/// given code. The slasher's own message is left empty.
pub fn get_default_init_msg(slasher_code_id: u64) -> (m: InstantiateMsg)
    ensures
        m.consumer.connection_id@ == CONNECTION_ID@,
        m.slasher.code_id == slasher_code_id,
        m.slasher.msg@ == Seq::<u8>::empty(),
        m.lockup@ == LOCKUP_ADDR@,
        m.unbonding_period == 86400 * 14,
        m.rewards_ibc_denom@ == REWARDS_IBC_DENOM@,
        m.packet_lifetime.is_none(),
{
    InstantiateMsg {
        consumer: ConsumerInfo { connection_id: CONNECTION_ID.to_owned() },
        slasher: SlasherInfo { code_id: slasher_code_id, msg: Vec::new() },
        lockup: LOCKUP_ADDR.to_owned(),
        unbonding_period: 86400 * 14,
        rewards_ibc_denom: REWARDS_IBC_DENOM.to_owned(),
        packet_lifetime: None,
    }
}

/// Creates a provider over `ledger` from `init_msg`, or from the default
/// message with slasher code 1 where none is given.
pub fn instantiate_provider(ledger: MetaStaking, init_msg: Option<InstantiateMsg>) -> (p: Provider)
    ensures
        p@ == match init_msg {
            Some(m) => created(
                m.consumer.connection_id@,
                m.lockup@,
                m.unbonding_period,
                m.rewards_ibc_denom@,
                m.packet_lifetime,
                ledger@,
            ),
            None => created(
                CONNECTION_ID@,
                LOCKUP_ADDR@,
                (86400 * 14) as u64,
                REWARDS_IBC_DENOM@,
                None,
                ledger@,
            ),
        },
{
    let msg = match init_msg {
        Some(m) => m,
        None => get_default_init_msg(1),
    };
    Provider::instantiate(msg, ledger)
}

/// The first step of the handshake, with no version from the counterparty
/// yet.
pub fn ibc_open(provider: &Provider, channel: IbcChannel) -> (r: Result<
    Option<String>,
    ContractError,
>)
    ensures
        match r {
            Ok(v) => open_fault(provider@.binding, channel@, None).is_none() && v.is_some()
                && v.unwrap()@ == app_version(),
            Err(e) => open_fault(provider@.binding, channel@, None) == Some(e@),
        },
{
    provider.ibc_channel_open(&channel, None)
}

/// The last step of the handshake, with the counterparty speaking the
/// protocol's version.
pub fn ibc_connect(provider: &mut Provider, channel: IbcChannel) -> (r: Result<(), ContractError>)
    ensures
        match r {
            Ok(_) => handshake_fault(old(provider)@.binding, channel@).is_none()
                && final(provider)@ == (ProviderView {
                binding: connected(old(provider)@.binding, channel@),
                ..old(provider)@
            }),
            Err(e) => handshake_fault(old(provider)@.binding, channel@) == Some(e@)
                && final(provider)@ == old(provider)@,
        },
{
    provider.ibc_channel_connect(&channel, Some(ibc_app_version()))
}

/// The whole handshake for the channel with the given identifier.
pub fn ibc_open_channel(provider: &mut Provider, channel: &str) -> (r: Result<(), ContractError>)
    ensures
        match r {
            Ok(_) => handshake_fault(
                old(provider)@.binding,
                mock_channel_view(channel@, app_version()),
            ).is_none() && final(provider)@ == (ProviderView {
                binding: connected(
                    old(provider)@.binding,
                    mock_channel_view(channel@, app_version()),
                ),
                ..old(provider)@
            }),
            Err(e) => handshake_fault(
                old(provider)@.binding,
                mock_channel_view(channel@, app_version()),
            ) == Some(e@) && final(provider)@ == old(provider)@,
        },
{
    let opened = mock_channel(channel, ibc_app_version());
    match ibc_open(provider, opened) {
        Ok(_) => {},
        Err(e) => {
            return Err(e);
        },
    }
    let connecting = mock_channel(channel, ibc_app_version());
    ibc_connect(provider, connecting)
}

/// Closes the channel with the usual identifier.
pub fn ibc_close_channel(provider: &mut Provider) -> (r: Result<(), ContractError>)
    ensures
        match r {
            Ok(_) => is_open_on(old(provider)@.binding, CHANNEL_ID@) && final(provider)@ == (
            ProviderView { binding: closed(old(provider)@.binding), ..old(provider)@ }),
            Err(e) => !is_open_on(old(provider)@.binding, CHANNEL_ID@) && e@
                == ErrorView::UnknownChannel(CHANNEL_ID@) && final(provider)@ == old(provider)@,
        },
{
    let channel = mock_channel(CHANNEL_ID, ibc_app_version());
    provider.ibc_channel_close(&channel)
}

/// Hands the provider a change of the consumer's validators that came over
/// the channel with the usual identifier.
pub fn update_validator_unit(provider: &mut Provider, added: Vec<String>, removed: Vec<String>) -> (r:
    Result<Ack, ContractError>)
    ensures
        match r {
            Ok(ack) => is_open_on(old(provider)@.binding, CHANNEL_ID@) && (if update_fault(
                texts(added@),
                texts(removed@),
            ).is_none() {
                final(provider)@ == (ProviderView {
                    validators: updated(
                        old(provider)@.validators,
                        texts(added@),
                        texts(removed@),
                    ),
                    ..old(provider)@
                }) && ack@ == AckView::Result(AckPayloadView::Empty)
            } else {
                final(provider)@ == old(provider)@ && ack@ == AckView::Error(
                    ErrorView::UpdateValidatorsFailed.text(),
                )
            }),
            Err(e) => !is_open_on(old(provider)@.binding, CHANNEL_ID@) && e@
                == ErrorView::UnknownChannel(CHANNEL_ID@) && final(provider)@ == old(provider)@,
        },
{
    let msg = ConsumerMsg::UpdateValidators { added, removed };
    provider.ibc_packet_receive(CHANNEL_ID, &msg)
}

/// The acknowledgement of a request that the consumer accepted.
pub open spec fn accepted() -> OutcomeView {
    OutcomeView::Ack(AckView::Result(AckPayloadView::Empty))
}

/// The acknowledgement of a request that the consumer refused.
pub open spec fn refused() -> OutcomeView {
    OutcomeView::Ack(AckView::Error("error"@))
}

/// The acknowledgement of a request for the validators that names the usual
/// validator alone.
pub open spec fn listing() -> OutcomeView {
    OutcomeView::Ack(AckView::Result(AckPayloadView::Validators(seq![VALIDATOR@])))
}

/// Why an answer to a request of the given kind, for the given delegator,
/// validator and amount, is refused, if it is. It comes over the channel with
/// the usual identifier, so first that channel must be the open one. Then
/// such a request must wait: the answer goes to the one with the lowest
/// sequence, and where none waits the answer is refused with `AckFailed`.
pub open spec fn answer_fault(
    p: ProviderView,
    kind: RequestKind,
    delegator: Seq<char>,
    validator: Seq<char>,
    amount: Option<u128>,
    o: OutcomeView,
) -> Option<ErrorView> {
    callback_fault(
        p,
        CHANNEL_ID@,
        match p.outbox.first_waiting(kind, delegator, validator, amount) {
            Some(s) => resolve_fault(p, s, o),
            None => Some(ErrorView::AckFailed),
        },
    )
}

/// The state after an answer that was not refused: the request with the
/// lowest sequence among those that wait for it has got its outcome.
pub open spec fn answered(
    p: ProviderView,
    kind: RequestKind,
    delegator: Seq<char>,
    validator: Seq<char>,
    amount: Option<u128>,
    o: OutcomeView,
) -> ProviderView {
    resolved(p, p.outbox.first_waiting(kind, delegator, validator, amount).unwrap(), o)
}

fn answer(
    provider: &mut Provider,
    kind: RequestKind,
    delegator: &str,
    validator: &str,
    amount: Option<u128>,
    ack: Ack,
) -> (r: Result<RequestState, ContractError>)
    ensures
        match r {
            Ok(s) => answer_fault(
                old(provider)@,
                kind,
                delegator@,
                validator@,
                amount,
                OutcomeView::Ack(ack@),
            ).is_none() && s == final_state(OutcomeView::Ack(ack@)) && final(provider)@
                == answered(
                old(provider)@,
                kind,
                delegator@,
                validator@,
                amount,
                OutcomeView::Ack(ack@),
            ),
            Err(e) => answer_fault(
                old(provider)@,
                kind,
                delegator@,
                validator@,
                amount,
                OutcomeView::Ack(ack@),
            ) == Some(e@) && final(provider)@ == old(provider)@,
        },
        final(provider)@.outbox.next_sequence == old(provider)@.outbox.next_sequence,
{
    provider.bounds();
    let sequence = match provider.find_waiting(kind, delegator, validator, amount) {
        Some(s) => s,
        None => provider.next_sequence(),
    };
    provider.ibc_packet_ack(CHANNEL_ID, sequence, ack)
}

/// Hands the provider the consumer's success for a stake that waits: the
/// stake is committed, and what was changed when it was sent stays. Nothing
/// is sent.
pub fn add_stake_unit(provider: &mut Provider, delegator: &str, validator: &str, amount: u128) -> (r:
    Result<RequestState, ContractError>)
    ensures
        match r {
            Ok(s) => answer_fault(
                old(provider)@,
                RequestKind::Stake,
                delegator@,
                validator@,
                Some(amount),
                accepted(),
            ).is_none() && s == RequestState::Committed && final(provider)@ == answered(
                old(provider)@,
                RequestKind::Stake,
                delegator@,
                validator@,
                Some(amount),
                accepted(),
            ),
            Err(e) => answer_fault(
                old(provider)@,
                RequestKind::Stake,
                delegator@,
                validator@,
                Some(amount),
                accepted(),
            ) == Some(e@) && final(provider)@ == old(provider)@,
        },
        final(provider)@.outbox.next_sequence == old(provider)@.outbox.next_sequence,
{
    answer(
        provider,
        RequestKind::Stake,
        delegator,
        validator,
        Some(amount),
        Ack::Result(AckPayload::Empty),
    )
}

/// Hands the provider the consumer's error for a stake that waits: the
/// stake is taken back from the ledger and from the delegator's stakes.
/// Nothing is sent.
pub fn add_stake_fail_unit(
    provider: &mut Provider,
    delegator: &str,
    validator: &str,
    amount: u128,
) -> (r: Result<RequestState, ContractError>)
    ensures
        match r {
            Ok(s) => answer_fault(
                old(provider)@,
                RequestKind::Stake,
                delegator@,
                validator@,
                Some(amount),
                refused(),
            ).is_none() && s == RequestState::Reverted && final(provider)@ == answered(
                old(provider)@,
                RequestKind::Stake,
                delegator@,
                validator@,
                Some(amount),
                refused(),
            ),
            Err(e) => answer_fault(
                old(provider)@,
                RequestKind::Stake,
                delegator@,
                validator@,
                Some(amount),
                refused(),
            ) == Some(e@) && final(provider)@ == old(provider)@,
        },
        final(provider)@.outbox.next_sequence == old(provider)@.outbox.next_sequence,
{
    proof {
        reveal_strlit("error");
    }
    answer(
        provider,
        RequestKind::Stake,
        delegator,
        validator,
        Some(amount),
        Ack::Error("error".to_owned()),
    )
}

/// Hands the provider the consumer's success for an unstake that waits: the
/// unstake is committed, and what was changed when it was sent stays.
/// Nothing is sent.
pub fn remove_stake_unit(
    provider: &mut Provider,
    delegator: &str,
    validator: &str,
    amount: u128,
) -> (r: Result<RequestState, ContractError>)
    ensures
        match r {
            Ok(s) => answer_fault(
                old(provider)@,
                RequestKind::Unstake,
                delegator@,
                validator@,
                Some(amount),
                accepted(),
            ).is_none() && s == RequestState::Committed && final(provider)@ == answered(
                old(provider)@,
                RequestKind::Unstake,
                delegator@,
                validator@,
                Some(amount),
                accepted(),
            ),
            Err(e) => answer_fault(
                old(provider)@,
                RequestKind::Unstake,
                delegator@,
                validator@,
                Some(amount),
                accepted(),
            ) == Some(e@) && final(provider)@ == old(provider)@,
        },
        final(provider)@.outbox.next_sequence == old(provider)@.outbox.next_sequence,
{
    answer(
        provider,
        RequestKind::Unstake,
        delegator,
        validator,
        Some(amount),
        Ack::Result(AckPayload::Empty),
    )
}

/// Hands the provider the consumer's error for an unstake that waits: the
/// amount goes back to the ledger's delegation and to the delegator's
/// stakes. Nothing is sent.
pub fn remove_stake_fail_unit(
    provider: &mut Provider,
    delegator: &str,
    validator: &str,
    amount: u128,
) -> (r: Result<RequestState, ContractError>)
    ensures
        match r {
            Ok(s) => answer_fault(
                old(provider)@,
                RequestKind::Unstake,
                delegator@,
                validator@,
                Some(amount),
                refused(),
            ).is_none() && s == RequestState::Reverted && final(provider)@ == answered(
                old(provider)@,
                RequestKind::Unstake,
                delegator@,
                validator@,
                Some(amount),
                refused(),
            ),
            Err(e) => answer_fault(
                old(provider)@,
                RequestKind::Unstake,
                delegator@,
                validator@,
                Some(amount),
                refused(),
            ) == Some(e@) && final(provider)@ == old(provider)@,
        },
        final(provider)@.outbox.next_sequence == old(provider)@.outbox.next_sequence,
{
    proof {
        reveal_strlit("error");
    }
    answer(
        provider,
        RequestKind::Unstake,
        delegator,
        validator,
        Some(amount),
        Ack::Error("error".to_owned()),
    )
}

/// Hands the provider the consumer's answer to a request for the validators
/// that waits. The answer names the usual validator alone, which is the one
/// active validator that the provider knows afterwards. Nothing is sent.
pub fn list_validators_unit(provider: &mut Provider) -> (r: Result<RequestState, ContractError>)
    ensures
        match r {
            Ok(s) => answer_fault(
                old(provider)@,
                RequestKind::ListValidators,
                Seq::empty(),
                Seq::empty(),
                None,
                listing(),
            ).is_none() && s == RequestState::Committed && final(provider)@ == answered(
                old(provider)@,
                RequestKind::ListValidators,
                Seq::empty(),
                Seq::empty(),
                None,
                listing(),
            ),
            Err(e) => answer_fault(
                old(provider)@,
                RequestKind::ListValidators,
                Seq::empty(),
                Seq::empty(),
                None,
                listing(),
            ) == Some(e@) && final(provider)@ == old(provider)@,
        },
        final(provider)@.outbox.next_sequence == old(provider)@.outbox.next_sequence,
{
    let mut validators: Vec<String> = Vec::new();
    validators.push(VALIDATOR.to_owned());
    proof {
        assert(texts(validators@) =~= seq![VALIDATOR@]);
        reveal_strlit("");
        assert(""@ =~= Seq::<char>::empty());
    }
    answer(
        provider,
        RequestKind::ListValidators,
        "",
        "",
        None,
        Ack::Result(AckPayload::Validators(validators)),
    )
}

/// Hands the provider the consumer's error for a request for the validators
/// that waits: what the provider knows of the validators stays. Nothing is
/// sent.
pub fn list_validators_fail_unit(provider: &mut Provider) -> (r: Result<
    RequestState,
    ContractError,
>)
    ensures
        match r {
            Ok(s) => answer_fault(
                old(provider)@,
                RequestKind::ListValidators,
                Seq::empty(),
                Seq::empty(),
                None,
                refused(),
            ).is_none() && s == RequestState::Reverted && final(provider)@ == answered(
                old(provider)@,
                RequestKind::ListValidators,
                Seq::empty(),
                Seq::empty(),
                None,
                refused(),
            ),
            Err(e) => answer_fault(
                old(provider)@,
                RequestKind::ListValidators,
                Seq::empty(),
                Seq::empty(),
                None,
                refused(),
            ) == Some(e@) && final(provider)@ == old(provider)@,
        },
        final(provider)@.outbox.next_sequence == old(provider)@.outbox.next_sequence,
{
    proof {
        reveal_strlit("error");
        reveal_strlit("");
        assert(""@ =~= Seq::<char>::empty());
    }
    answer(
        provider,
        RequestKind::ListValidators,
        "",
        "",
        None,
        Ack::Error("error".to_owned()),
    )
}

/// What the provider knows of a validator.
pub fn query_validators_unit(provider: &Provider, validator: &str) -> (r: Result<
    ValidatorResponse,
    cosmwasm_std::StdError,
>)
    ensures
        match r {
            Ok(v) => provider@.validators.dom().contains(validator@) && v.address@ == validator@
                && v.active == provider@.validators[validator@] && v.tokens_staked == (
            if provider@.ledger.registered(provider@.consumer) {
                amount_in(provider@.ledger.consumers[provider@.consumer].delegations, validator@)
            } else {
                0
            }),
            Err(_) => !provider@.validators.dom().contains(validator@),
        },
{
    provider.query_validator(validator)
}

/// What `address` has staked, validator by validator, in the order in which
/// the stakes entered. The query never fails and changes nothing.
pub fn query_account_unit(provider: &Provider, address: &str) -> (r: Result<
    AccountResponse,
    cosmwasm_std::StdError,
>)
    ensures
        r matches Ok(a) && a@ == account_of(provider@.stakes, provider@.stake_order, address@)
            && lists_account(provider@.stakes, address@, a.staked@),
{
    provider.query_account(address)
}

/// Slashes a validator by the share that `slash_amount` denotes, which must
/// be the text of a decimal; see [`Provider::slash`].
pub fn execute_slash(
    provider: &mut Provider,
    slasher_addr: &str,
    validator: &str,
    slash_amount: &str,
    force_unbond: bool,
) -> (r: Result<u128, ContractError>)
    requires
        decimal_text_atomics(slash_amount@).is_some(),
    ensures
        match r {
            Ok(s) => slash_call_fault(
                old(provider)@,
                slasher_addr@,
                validator@,
                decimal_text_atomics(slash_amount@).unwrap() as nat,
            ).is_none() && s == slash_cut(
                old(provider)@.ledger,
                old(provider)@.consumer,
                validator@,
                decimal_text_atomics(slash_amount@).unwrap() as nat,
            ) && final(provider)@ == slash_applied(
                old(provider)@,
                validator@,
                decimal_text_atomics(slash_amount@).unwrap() as nat,
                force_unbond,
            ),
            Err(e) => slash_call_fault(
                old(provider)@,
                slasher_addr@,
                validator@,
                decimal_text_atomics(slash_amount@).unwrap() as nat,
            ) == Some(e@) && final(provider)@ == old(provider)@,
        },
{
    match Decimal::from_str(slash_amount) {
        Ok(percentage) => provider.slash(slasher_addr, validator, percentage, force_unbond),
        Err(e) => Err(ContractError::Std(e)),
    }
}

/// Slashes a validator by the share that `slash_amount` denotes. A text
/// that denotes no decimal is refused with the parser's error, and nothing
/// changes; the rest is [`execute_slash`].
pub fn try_execute_slash(
    provider: &mut Provider,
    slasher_addr: &str,
    validator: &str,
    slash_amount: &str,
    force_unbond: bool,
) -> (r: Result<u128, ContractError>)
    ensures
        decimal_text_atomics(slash_amount@).is_none() ==> r.is_err() && r.unwrap_err()@
            == ErrorView::Std && final(provider)@ == old(provider)@,
        decimal_text_atomics(slash_amount@).is_some() ==> match r {
            Ok(s) => slash_call_fault(
                old(provider)@,
                slasher_addr@,
                validator@,
                decimal_text_atomics(slash_amount@).unwrap() as nat,
            ).is_none() && s == slash_cut(
                old(provider)@.ledger,
                old(provider)@.consumer,
                validator@,
                decimal_text_atomics(slash_amount@).unwrap() as nat,
            ) && final(provider)@ == slash_applied(
                old(provider)@,
                validator@,
                decimal_text_atomics(slash_amount@).unwrap() as nat,
                force_unbond,
            ),
            Err(e) => slash_call_fault(
                old(provider)@,
                slasher_addr@,
                validator@,
                decimal_text_atomics(slash_amount@).unwrap() as nat,
            ) == Some(e@) && final(provider)@ == old(provider)@,
        },
{
    match Decimal::from_str(slash_amount) {
        Ok(_) => execute_slash(provider, slasher_addr, validator, slash_amount, force_unbond),
        Err(e) => Err(ContractError::Std(e)),
    }
}

/// Claims the rewards from a validator for the usual delegator; see
/// [`Provider::claim_rewards`].
pub fn execute_claim_rewards(provider: &mut Provider, validator: &str) -> (r: Result<
    Decimal,
    ContractError,
>)
    ensures
        match r {
            Ok(d) => claim_fault(old(provider)@, DELEGATOR_ADDR@, validator@).is_none()
                && d.atomics == amount_in(
                old(provider)@.ledger.consumers[old(provider)@.consumer].rewards,
                validator@,
            ) && final(provider)@ == (ProviderView {
                ledger: withdrawn(old(provider)@.ledger, old(provider)@.consumer, validator@),
                ..old(provider)@
            }),
            Err(e) => claim_fault(old(provider)@, DELEGATOR_ADDR@, validator@) == Some(e@)
                && final(provider)@ == old(provider)@,
        },
{
    provider.claim_rewards(DELEGATOR_ADDR, validator)
}

} // verus!
