//! The consumer's side of the protocol: it takes the provider's requests,
//! keeps the delegations and the validators, answers each request, and tells
//! the provider when its validators change.
use crate::channel::{
    closed, connect_fault, connected, is_open_on, no_channel, open_fault, text_of, BindingView,
    ChannelManager, ChannelState, IbcChannel,
};
use crate::decimal::{floor_of_product, Decimal};
use crate::error::{ContractError, ErrorView};
use crate::packet::{
    Ack, AckPayload, AckPayloadView, AckView, ConsumerMsg, ConsumerMsgView, ConsumerPacket,
    ConsumerPacketView, Outcome, ProviderMsg, ProviderMsgView,
};
use crate::provider::{update_fault, DEFAULT_PACKET_LIFETIME};
use crate::sums::{amount_in, credited, debited, positive, sum_of};
use crate::table::{AmountTable, PairKey};
use crate::validators::{
    active_in_order, names_active, names_known, overlap, texts, updated, with_all_known,
    ValidatorSet,
};
use vstd::prelude::*;
use vstd::string::*;

verus! {

/// Where the provider is found.
#[derive(Clone, Debug, PartialEq, Eq)]
pub struct ProviderInfo {
    pub port_id: String,
    pub connection_id: String,
}

/// What a consumer is set up with.
#[derive(Clone, Debug, PartialEq, Eq)]
pub struct Config {
    pub provider: ProviderInfo,
    /// Turns an amount of the consumer's tokens into the provider's units.
    pub remote_to_local_exchange_rate: Decimal,
    pub meta_staking_contract_address: String,
    pub ics20_channel: String,
}

/// The address in a contract's port, which reads `wasm.` and then the
/// address; none where the port does not read so.
pub open spec fn port_address(port: Seq<char>) -> Option<Seq<char>> {
    if port.len() > 5 && port.subrange(0, 5) == "wasm."@ {
        Some(port.subrange(5, port.len() as int))
    } else {
        None
    }
}

/// Reads the provider's address from its port.
pub fn provider_address(port_id: &str) -> (r: Result<String, ContractError>)
    ensures
        match r {
            Ok(a) => port_address(port_id@) == Some(a@),
            Err(e) => port_address(port_id@).is_none() && e@ == ErrorView::ProviderAddrParsing,
        },
{
    let n = port_id.unicode_len();
    if n <= 5 {
        return Err(ContractError::ProviderAddrParsing {  });
    }
    let head = port_id.substring_char(0, 5);
    if head.to_owned() != "wasm.".to_owned() {
        return Err(ContractError::ProviderAddrParsing {  });
    }
    Ok(port_id.substring_char(5, n).to_owned())
}

/// The state of a consumer.
pub struct ConsumerView {
    pub binding: BindingView,
    pub provider_address: Seq<char>,
    /// The exchange rate, in atomic units.
    pub exchange_rate: nat,
    pub meta_staking: Seq<char>,
    pub ics20_channel: Seq<char>,
    pub packet_lifetime: u64,
    pub validators: Map<Seq<char>, bool>,
    /// The validators in the order in which they became known. It is the
    /// order in which the active ones are listed.
    pub validator_order: Seq<Seq<char>>,
    /// What each delegator key has delegated to each validator.
    pub delegations: Map<(Seq<char>, Seq<char>), nat>,
    /// The rewards that wait to be claimed, in the consumer's tokens.
    pub pending_rewards: nat,
}

/// The text of the error for an exchange rate of zero.
pub open spec fn rate_text() -> Seq<char> {
    "exchange rate must be positive"@
}

/// Why a consumer is not created, if it is not.
pub open spec fn config_fault(port: Seq<char>, rate: nat) -> Option<ErrorView> {
    if port_address(port).is_none() {
        Some(ErrorView::ProviderAddrParsing)
    } else if rate == 0 {
        Some(ErrorView::CustomError(rate_text()))
    } else {
        None
    }
}

/// Why a packet is not taken in, if it is not: it came over a channel that
/// is not the open one, or from a port that is not the provider's.
pub open spec fn receive_fault(c: ConsumerView, channel_id: Seq<char>, source_port: Seq<char>) -> Option<
    ErrorView,
> {
    if !is_open_on(c.binding, channel_id) {
        Some(ErrorView::UnknownChannel(channel_id))
    } else if source_port != c.binding.channel.port_id {
        Some(ErrorView::WrongPort(c.binding.channel.port_id))
    } else {
        None
    }
}

/// Whether the consumer refuses a request with an error acknowledgement, and
/// with which error: a stake that would take the sum of all delegations out
/// of `u128`, or an unstake of more than is delegated.
pub open spec fn refusal(c: ConsumerView, msg: ProviderMsgView) -> Option<ErrorView> {
    match msg {
        ProviderMsgView::Stake { key, amount, validator } => if sum_of(c.delegations) + amount
            > u128::MAX {
            Some(ErrorView::NotEnoughFunds)
        } else {
            None
        },
        ProviderMsgView::Unstake { key, amount, validator } => if amount > amount_in(
            c.delegations,
            (key, validator),
        ) {
            Some(ErrorView::InsufficientDelegation)
        } else {
            None
        },
        ProviderMsgView::ListValidators => None,
    }
}

/// The state after a request that was not refused.
pub open spec fn received(c: ConsumerView, msg: ProviderMsgView) -> ConsumerView {
    match msg {
        ProviderMsgView::Stake { key, amount, validator } => ConsumerView {
            delegations: credited(c.delegations, (key, validator), amount),
            ..c
        },
        ProviderMsgView::Unstake { key, amount, validator } => ConsumerView {
            delegations: debited(c.delegations, (key, validator), amount),
            ..c
        },
        ProviderMsgView::ListValidators => c,
    }
}

/// Whether an acknowledgement is the answer that a request is owed.
pub open spec fn answers(c: ConsumerView, msg: ProviderMsgView, ack: AckView) -> bool {
    match refusal(c, msg) {
        Some(e) => ack == AckView::Error(e.text()),
        None => match msg {
            ProviderMsgView::ListValidators => ack == AckView::Result(
                AckPayloadView::Validators(active_in_order(c.validators, c.validator_order)),
            ),
            _ => ack == AckView::Result(AckPayloadView::Empty),
        },
    }
}

/// Why a change of the validators is not sent, if it is not.
pub open spec fn emit_fault(c: ConsumerView, added: Seq<Seq<char>>, removed: Seq<Seq<char>>) -> Option<
    ErrorView,
> {
    if c.binding.channel.state != ChannelState::Open {
        Some(ErrorView::UnknownChannel(c.binding.channel.channel_id))
    } else {
        update_fault(added, removed)
    }
}

/// What the waiting rewards are worth in the provider's units: their amount
/// times the exchange rate, rounded down.
pub open spec fn rewards_value(c: ConsumerView) -> nat {
    floor_of_product(c.pending_rewards, c.exchange_rate)
}

/// The state after a request was taken in: changed as the request says, or
/// unchanged where the request is refused.
pub open spec fn after_request(c: ConsumerView, msg: ProviderMsgView) -> ConsumerView {
    if refusal(c, msg).is_some() {
        c
    } else {
        received(c, msg)
    }
}

/// Over-unstake: an unstake of more than is delegated leaves the consumer
/// as it is, and the one answer it can get is the error of an insufficient
/// delegation.
pub proof fn lemma_over_unstake(c: ConsumerView, key: Seq<char>, validator: Seq<char>, amount: nat)
    requires
        amount > amount_in(c.delegations, (key, validator)),
    ensures
        after_request(c, ProviderMsgView::Unstake { key, amount, validator }) == c,
        forall|ack: AckView| #[trigger]
            answers(c, ProviderMsgView::Unstake { key, amount, validator }, ack) ==> ack
                == AckView::Error(ErrorView::InsufficientDelegation.text()),
{
}

/// An unstake of no more than is delegated is accepted, and takes its
/// amount from the delegation and from nothing else.
pub proof fn lemma_unstake_accepted(
    c: ConsumerView,
    key: Seq<char>,
    validator: Seq<char>,
    amount: nat,
)
    requires
        c.delegations.dom().finite(),
        amount <= amount_in(c.delegations, (key, validator)),
    ensures
        answers(
            c,
            ProviderMsgView::Unstake { key, amount, validator },
            AckView::Result(AckPayloadView::Empty),
        ),
        amount_in(
            after_request(c, ProviderMsgView::Unstake { key, amount, validator }).delegations,
            (key, validator),
        ) == amount_in(c.delegations, (key, validator)) - amount,
        sum_of(after_request(c, ProviderMsgView::Unstake { key, amount, validator }).delegations)
            == sum_of(c.delegations) - amount,
{
    crate::sums::lemma_debited(c.delegations, (key, validator), amount);
}

/// A consumer contract.
pub struct Consumer {
    channels: ChannelManager,
    provider_address: String,
    exchange_rate: Decimal,
    meta_staking: String,
    ics20_channel: String,
    packet_lifetime: u64,
    validators: ValidatorSet,
    delegations: AmountTable<PairKey>,
    pending_rewards: u128,
}

impl View for Consumer {
    type V = ConsumerView;

    closed spec fn view(&self) -> ConsumerView {
        ConsumerView {
            binding: self.channels@,
            provider_address: self.provider_address@,
            exchange_rate: self.exchange_rate.atomics as nat,
            meta_staking: self.meta_staking@,
            ics20_channel: self.ics20_channel@,
            packet_lifetime: self.packet_lifetime,
            validators: self.validators@,
            validator_order: self.validators.order(),
            delegations: self.delegations@,
            pending_rewards: self.pending_rewards as nat,
        }
    }
}

impl Consumer {
    /// Creates a consumer. The provider's port must read `wasm.` and then an
    /// address, and the exchange rate must not be zero.
    pub fn instantiate(config: Config, packet_lifetime: Option<u64>) -> (r: Result<
        Self,
        ContractError,
    >)
        ensures
            match r {
                Ok(c) => config_fault(
                    config.provider.port_id@,
                    config.remote_to_local_exchange_rate.atomics as nat,
                ).is_none() && c@ == (ConsumerView {
                    binding: BindingView {
                        connection: config.provider.connection_id@,
                        port: Some(config.provider.port_id@),
                        channel: no_channel(),
                    },
                    provider_address: port_address(config.provider.port_id@).unwrap(),
                    exchange_rate: config.remote_to_local_exchange_rate.atomics as nat,
                    meta_staking: config.meta_staking_contract_address@,
                    ics20_channel: config.ics20_channel@,
                    packet_lifetime: match packet_lifetime {
                        Some(t) => t,
                        None => DEFAULT_PACKET_LIFETIME,
                    },
                    validators: Map::empty(),
                    validator_order: Seq::empty(),
                    delegations: Map::empty(),
                    pending_rewards: 0,
                }),
                Err(e) => config_fault(
                    config.provider.port_id@,
                    config.remote_to_local_exchange_rate.atomics as nat,
                ) == Some(e@),
            },
    {
        let provider_address = match provider_address(config.provider.port_id.as_str()) {
            Ok(a) => a,
            Err(e) => {
                return Err(e);
            },
        };
        if config.remote_to_local_exchange_rate.is_zero() {
            return Err(
                ContractError::CustomError { val: "exchange rate must be positive".to_owned() },
            );
        }
        let lifetime = match packet_lifetime {
            Some(t) => t,
            None => DEFAULT_PACKET_LIFETIME,
        };
        let channels = ChannelManager::new(
            config.provider.connection_id.as_str(),
            Some(config.provider.port_id),
        );
        Ok(
            Consumer {
                channels,
                provider_address,
                exchange_rate: config.remote_to_local_exchange_rate,
                meta_staking: config.meta_staking_contract_address,
                ics20_channel: config.ics20_channel,
                packet_lifetime: lifetime,
                validators: ValidatorSet::new(),
                delegations: AmountTable::new(),
                pending_rewards: 0,
            },
        )
    }

    /// What holds of every consumer: its delegations are finite, free of
    /// zero amounts and sum to a number within `u128`, and its order of
    /// validators names every known validator once, so that a list of the
    /// active ones names each of them once.
    pub fn bounds(&self)
        ensures
            self@.delegations.dom().finite(),
            positive(self@.delegations),
            sum_of(self@.delegations) <= u128::MAX,
            names_known(self@.validators, self@.validator_order),
            names_active(
                self@.validators,
                active_in_order(self@.validators, self@.validator_order),
            ),
    {
        self.delegations.bounds();
        self.validators.bounds();
    }

    /// Where the channel stands.
    pub fn channel_state(&self) -> (s: ChannelState)
        ensures
            s == self@.binding.channel.state,
    {
        self.channels.state()
    }

    /// What `key` has delegated to `validator`.
    pub fn delegation(&self, key: &str, validator: &str) -> (a: u128)
        ensures
            a == amount_in(self@.delegations, (key@, validator@)),
    {
        let pair = PairKey::new(key, validator);
        self.delegations.get(&pair)
    }

    /// The rewards that wait to be claimed, in the consumer's tokens.
    pub fn pending_rewards(&self) -> (a: u128)
        ensures
            a == self@.pending_rewards,
    {
        self.pending_rewards
    }

    /// Checks an attempt to open a channel; see [`ChannelManager::open`].
    pub fn ibc_channel_open(&self, channel: &IbcChannel, counterparty_version: Option<&str>) -> (r:
        Result<Option<String>, ContractError>)
        ensures
            match r {
                Ok(v) => open_fault(self@.binding, channel@, text_of(counterparty_version)).is_none()
                    && v.is_some() && v.unwrap()@ == crate::channel::app_version(),
                Err(e) => open_fault(self@.binding, channel@, text_of(counterparty_version))
                    == Some(e@),
            },
    {
        self.channels.open(channel, counterparty_version)
    }

    /// Completes the handshake; see [`ChannelManager::connect`].
    pub fn ibc_channel_connect(
        &mut self,
        channel: &IbcChannel,
        counterparty_version: Option<&str>,
    ) -> (r: Result<(), ContractError>)
        ensures
            match r {
                Ok(_) => connect_fault(
                    old(self)@.binding,
                    channel@,
                    text_of(counterparty_version),
                ).is_none() && final(self)@ == (ConsumerView {
                    binding: connected(old(self)@.binding, channel@),
                    ..old(self)@
                }),
                Err(e) => connect_fault(old(self)@.binding, channel@, text_of(counterparty_version))
                    == Some(e@) && final(self)@ == old(self)@,
            },
    {
        self.channels.connect(channel, counterparty_version)
    }

    /// Closes the channel; see [`ChannelManager::close`].
    pub fn ibc_channel_close(&mut self, channel: &IbcChannel) -> (r: Result<(), ContractError>)
        ensures
            match r {
                Ok(_) => is_open_on(old(self)@.binding, channel@.endpoint.channel_id)
                    && final(self)@ == (ConsumerView {
                    binding: closed(old(self)@.binding),
                    ..old(self)@
                }),
                Err(e) => !is_open_on(old(self)@.binding, channel@.endpoint.channel_id) && e@
                    == ErrorView::UnknownChannel(channel@.endpoint.channel_id) && final(self)@
                    == old(self)@,
            },
    {
        self.channels.close(channel)
    }

    /// Takes in a request from the provider that came over `channel_id` from
    /// `source_port`, and answers it. A stake adds to the delegation, an
    /// unstake takes from it, and a request for the validators is answered
    /// with the active ones. An unstake of more than is delegated changes
    /// nothing and is answered with an error, so that the provider takes
    /// its own change back.
    pub fn receive(&mut self, channel_id: &str, source_port: &str, msg: &ProviderMsg) -> (r: Result<
        Ack,
        ContractError,
    >)
        ensures
            match r {
                Ok(ack) => receive_fault(old(self)@, channel_id@, source_port@).is_none()
                    && answers(old(self)@, msg@, ack@) && final(self)@ == after_request(
                    old(self)@,
                    msg@,
                ),
                Err(e) => receive_fault(old(self)@, channel_id@, source_port@) == Some(e@)
                    && final(self)@ == old(self)@,
            },
    {
        match self.channels.check_open(channel_id) {
            Ok(_) => {},
            Err(e) => {
                return Err(e);
            },
        }
        let bound = self.channels.channel();
        if bound.port_id != source_port.to_owned() {
            return Err(ContractError::WrongPort(bound.port_id));
        }
        match msg {
            ProviderMsg::Stake { key, amount, validator } => {
                let pair = PairKey::new(key.as_str(), validator.as_str());
                if self.delegations.credit(&pair, *amount) {
                    Ok(Ack::Result(AckPayload::Empty))
                } else {
                    Ok(Ack::Error((ContractError::NotEnoughFunds {  }).message()))
                }
            },
            ProviderMsg::Unstake { key, amount, validator } => {
                let pair = PairKey::new(key.as_str(), validator.as_str());
                if self.delegations.debit(&pair, *amount) {
                    Ok(Ack::Result(AckPayload::Empty))
                } else {
                    Ok(Ack::Error((ContractError::InsufficientDelegation {  }).message()))
                }
            },
            ProviderMsg::ListValidators {  } => {
                Ok(Ack::Result(AckPayload::Validators(self.validators.active_list())))
            },
        }
    }

    /// Applies a change of the validators and makes the packet that tells
    /// the provider of it. A change that names an address both as added and
    /// as removed is refused with `UpdateValidatorsFailed`.
    pub fn emit_validator_update(&mut self, added: Vec<String>, removed: Vec<String>) -> (r: Result<
        ConsumerPacket,
        ContractError,
    >)
        ensures
            match r {
                Ok(packet) => emit_fault(old(self)@, texts(added@), texts(removed@)).is_none()
                    && final(self)@ == (ConsumerView {
                    validators: updated(old(self)@.validators, texts(added@), texts(removed@)),
                    validator_order: with_all_known(old(self)@.validator_order, texts(added@)),
                    ..old(self)@
                }) && packet@ == (ConsumerPacketView {
                    channel_id: old(self)@.binding.channel.channel_id,
                    data: ConsumerMsgView::UpdateValidators {
                        added: texts(added@),
                        removed: texts(removed@),
                    },
                    lifetime: old(self)@.packet_lifetime,
                }),
                Err(e) => emit_fault(old(self)@, texts(added@), texts(removed@)) == Some(e@)
                    && final(self)@ == old(self)@,
            },
    {
        if self.channels.state() != ChannelState::Open {
            return Err(ContractError::UnknownChannel(self.channels.channel().channel_id));
        }
        if overlap(&added, &removed) {
            return Err(ContractError::UpdateValidatorsFailed {  });
        }
        self.validators.apply(&added, &removed);
        Ok(
            ConsumerPacket {
                channel_id: self.channels.channel().channel_id,
                data: ConsumerMsg::UpdateValidators { added, removed },
                lifetime: self.packet_lifetime,
            },
        )
    }

    /// Takes in how a change of the validators that was sent has ended. The
    /// consumer's state does not depend on it; anything but success is
    /// reported as `UpdateValidatorsFailed`.
    pub fn on_update_outcome(&self, outcome: &Outcome) -> (r: Result<(), ContractError>)
        ensures
            match r {
                Ok(_) => outcome@.succeeded(),
                Err(e) => !outcome@.succeeded() && e@ == ErrorView::UpdateValidatorsFailed,
            },
    {
        match outcome {
            Outcome::Ack(Ack::Result(_)) => Ok(()),
            _ => Err(ContractError::UpdateValidatorsFailed {  }),
        }
    }

    /// Adds to the rewards that wait to be claimed. A sum beyond `u128` is
    /// refused with `RewardsFailed`.
    pub fn accrue_rewards(&mut self, amount: u128) -> (r: Result<(), ContractError>)
        ensures
            match r {
                Ok(_) => old(self)@.pending_rewards + amount <= u128::MAX && final(self)@ == (
                ConsumerView {
                    pending_rewards: (old(self)@.pending_rewards + amount) as nat,
                    ..old(self)@
                }),
                Err(e) => old(self)@.pending_rewards + amount > u128::MAX && e@
                    == ErrorView::RewardsFailed && final(self)@ == old(self)@,
            },
    {
        if amount > u128::MAX - self.pending_rewards {
            return Err(ContractError::RewardsFailed {  });
        }
        self.pending_rewards = self.pending_rewards + amount;
        Ok(())
    }

    /// Sets the exchange rate. Only the meta-staking contract may do so, and
    /// the rate must not be zero.
    pub fn set_exchange_rate(&mut self, sender: &str, rate: Decimal) -> (r: Result<
        (),
        ContractError,
    >)
        ensures
            match r {
                Ok(_) => sender@ == old(self)@.meta_staking && rate.atomics != 0 && final(self)@
                    == (ConsumerView { exchange_rate: rate.atomics as nat, ..old(self)@ }),
                Err(e) => final(self)@ == old(self)@ && (if sender@ != old(self)@.meta_staking {
                    e@ == ErrorView::Unauthorized
                } else {
                    rate.atomics == 0 && e@ == ErrorView::CustomError(rate_text())
                }),
            },
    {
        if self.meta_staking != sender.to_owned() {
            return Err(ContractError::Unauthorized {  });
        }
        if rate.is_zero() {
            return Err(
                ContractError::CustomError { val: "exchange rate must be positive".to_owned() },
            );
        }
        self.exchange_rate = rate;
        Ok(())
    }

    /// What the waiting rewards are worth in the provider's units at the
    /// present exchange rate; `RewardsFailed` where that exceeds `u128`.
    pub fn query_rewards(&self) -> (r: Result<u128, ContractError>)
        ensures
            match r {
                Ok(v) => v == rewards_value(self@),
                Err(e) => rewards_value(self@) > u128::MAX && e@ == ErrorView::RewardsFailed,
            },
    {
        match self.exchange_rate.mul_floor(self.pending_rewards) {
            Some(v) => Ok(v),
            None => Err(ContractError::RewardsFailed {  }),
        }
    }

    /// Claims the waiting rewards: hands out what they are worth in the
    /// provider's units at the present exchange rate, and clears them. A
    /// later change of the rate cannot touch what was handed out.
    pub fn claim_rewards(&mut self) -> (r: Result<u128, ContractError>)
        ensures
            match r {
                Ok(v) => v == rewards_value(old(self)@) && final(self)@ == (ConsumerView {
                    pending_rewards: 0,
                    ..old(self)@
                }),
                Err(e) => rewards_value(old(self)@) > u128::MAX && e@ == ErrorView::RewardsFailed
                    && final(self)@ == old(self)@,
            },
    {
        let value = match self.query_rewards() {
            Ok(v) => v,
            Err(e) => {
                return Err(e);
            },
        };
        self.pending_rewards = 0;
        Ok(value)
    }
}

} // verus!
