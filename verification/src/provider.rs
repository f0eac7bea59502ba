//! The provider's side of the protocol: it sends stake, unstake and
//! list-validators requests over its channel, applies each to the ledger at
//! once, and takes the change back where the answer is an error or none.
use crate::channel::{
    closed, connect_fault, connected, is_open_on, no_channel, open_fault, text_of, BindingView,
    ChannelManager, ChannelState, IbcChannel,
};
use crate::decimal::{floor_of_product, lemma_share_bounded, Decimal, DECIMAL_FRACTIONAL};
use crate::error::{not_found, ContractError, ErrorView};
use crate::ledger::{
    delegate_fault, delegated, lemma_delegate_undone, lemma_step_sound,
    lemma_undelegate_undone, remove_fault, slash_cut, slash_fault, slashed, undelegate_fault,
    undelegated, withdrawn, LedgerOp, LedgerView, MetaStaking,
};
use crate::outbox::{Outbox, OutboxView, RequestKind, RequestState, RequestView};
use crate::packet::{
    Ack, AckPayload, AckPayloadView, AckView, ConsumerMsg, ConsumerMsgView, Outcome, OutcomeView,
    ProviderMsg, ProviderMsgView, ProviderPacket, ProviderPacketView,
};
use crate::sums::{
    amount_in, credited, debited, lemma_credit_then_debit, lemma_credited,
    lemma_debit_then_credit, lemma_debited, positive, sum_of,
};
use crate::table::{
    credit_order, debit_order, lemma_credit_orders, lemma_credit_then_debit_order,
    lemma_debit_orders, lists, orders, position_of, AmountTable, Holding, PairKey,
};
use crate::validators::{
    lemma_contains_push, listed, overlap, overlapping, texts, updated, ValidatorSet,
};
use vstd::prelude::*;

verus! {

/// The seconds a packet lives where the contract was given no other number.
pub const DEFAULT_PACKET_LIFETIME: u64 = 3600;

/// The consumer that a provider serves.
#[derive(Clone, Debug, PartialEq, Eq)]
pub struct ConsumerInfo {
    pub connection_id: String,
}

/// How the slasher contract is to be set up: its code, and the message that
/// creates it. The message is carried as it is.
#[derive(Clone, Debug, PartialEq, Eq)]
pub struct SlasherInfo {
    pub code_id: u64,
    pub msg: Vec<u8>,
}

/// What a provider is created with.
#[derive(Clone, Debug, PartialEq, Eq)]
pub struct InstantiateMsg {
    pub consumer: ConsumerInfo,
    pub slasher: SlasherInfo,
    pub lockup: String,
    pub unbonding_period: u64,
    pub rewards_ibc_denom: String,
    pub packet_lifetime: Option<u64>,
}

/// The state of a provider.
pub struct ProviderView {
    pub binding: BindingView,
    pub ledger: LedgerView,
    /// The name under which the ledger keeps the provider's consumer: the
    /// identifier of the consumer's connection.
    pub consumer: Seq<char>,
    pub slasher: Option<Seq<char>>,
    pub lockup: Seq<char>,
    pub unbonding_period: u64,
    pub rewards_ibc_denom: Seq<char>,
    pub packet_lifetime: u64,
    /// The validators of the consumer, as far as the provider was told.
    pub validators: Map<Seq<char>, bool>,
    /// What each delegator has staked with each validator.
    pub stakes: Map<(Seq<char>, Seq<char>), nat>,
    /// The stakes in the order in which they entered: a stake that is new
    /// comes last, and one that is used up leaves. It is the order in which
    /// an account is listed.
    pub stake_order: Seq<(Seq<char>, Seq<char>)>,
    pub outbox: OutboxView,
}

/// The text of the error for a contract that has used up its sequences.
pub open spec fn exhausted_text() -> Seq<char> {
    "packet sequence exhausted"@
}

impl ProviderView {
    /// The state is sound: ledger and outbox are, and the stakes are finite,
    /// free of zero amounts and sum to a number within `u128`.
    pub open spec fn sound(self) -> bool {
        &&& self.ledger.sound()
        &&& self.outbox.sound()
        &&& self.stakes.dom().finite()
        &&& positive(self.stakes)
        &&& sum_of(self.stakes) <= u128::MAX
        &&& orders(self.stakes, self.stake_order)
    }

    /// Why nothing can be sent, if so: no channel is open, or the
    /// sequences are used up.
    pub open spec fn send_fault(self) -> Option<ErrorView> {
        if self.binding.channel.state != ChannelState::Open {
            Some(ErrorView::UnknownChannel(self.binding.channel.channel_id))
        } else if self.outbox.full() {
            Some(ErrorView::CustomError(exhausted_text()))
        } else {
            None
        }
    }

    /// The packet that carries `data` next.
    pub open spec fn packet(self, data: ProviderMsgView) -> ProviderPacketView {
        ProviderPacketView {
            channel_id: self.binding.channel.channel_id,
            sequence: self.outbox.next_sequence,
            data,
            lifetime: self.packet_lifetime,
        }
    }
}

/// Why a stake is not sent, if it is not.
pub open spec fn stake_fault(p: ProviderView, amount: nat) -> Option<ErrorView> {
    if p.send_fault().is_some() {
        p.send_fault()
    } else if delegate_fault(p.ledger, p.consumer, amount).is_some() {
        delegate_fault(p.ledger, p.consumer, amount)
    } else if sum_of(p.stakes) + amount > u128::MAX {
        Some(ErrorView::NotEnoughFunds)
    } else {
        None
    }
}

/// The state after a stake was sent: the ledger has delegated the amount,
/// the delegator's stake has grown by it, and the request waits.
pub open spec fn stake_sent(
    p: ProviderView,
    delegator: Seq<char>,
    validator: Seq<char>,
    amount: u128,
) -> ProviderView {
    ProviderView {
        ledger: delegated(p.ledger, p.consumer, validator, amount as nat),
        stakes: credited(p.stakes, (delegator, validator), amount as nat),
        stake_order: credit_order(
            p.stake_order,
            p.stakes,
            (delegator, validator),
            amount as nat,
        ),
        outbox: p.outbox.recorded(RequestKind::Stake, delegator, validator, Some(amount)),
        ..p
    }
}

/// Why an unstake is not sent, if it is not.
pub open spec fn unstake_fault(
    p: ProviderView,
    delegator: Seq<char>,
    validator: Seq<char>,
    amount: nat,
) -> Option<ErrorView> {
    if p.send_fault().is_some() {
        p.send_fault()
    } else if amount > amount_in(p.stakes, (delegator, validator)) {
        Some(ErrorView::InsufficientDelegation)
    } else {
        undelegate_fault(p.ledger, p.consumer, validator, amount)
    }
}

/// The state after an unstake was sent: the ledger has taken the amount
/// back, the delegator's stake has shrunk by it, and the request waits.
pub open spec fn unstake_sent(
    p: ProviderView,
    delegator: Seq<char>,
    validator: Seq<char>,
    amount: u128,
) -> ProviderView {
    ProviderView {
        ledger: undelegated(p.ledger, p.consumer, validator, amount as nat),
        stakes: debited(p.stakes, (delegator, validator), amount as nat),
        stake_order: debit_order(p.stake_order, p.stakes, (delegator, validator), amount as nat),
        outbox: p.outbox.recorded(RequestKind::Unstake, delegator, validator, Some(amount)),
        ..p
    }
}

/// The state after a request for the list of validators was sent.
pub open spec fn list_sent(p: ProviderView) -> ProviderView {
    ProviderView {
        outbox: p.outbox.recorded(RequestKind::ListValidators, Seq::empty(), Seq::empty(), None),
        ..p
    }
}

/// Why the change that a request made cannot be taken back, if so.
pub open spec fn revert_fault(p: ProviderView, q: RequestView) -> Option<ErrorView> {
    let key = (q.delegator_key, q.validator);
    match q.kind {
        RequestKind::Stake => if q.owed() > amount_in(p.stakes, key) || undelegate_fault(
            p.ledger,
            p.consumer,
            q.validator,
            q.owed(),
        ).is_some() {
            Some(ErrorView::AckFailed)
        } else {
            None
        },
        RequestKind::Unstake => if sum_of(p.stakes) + q.owed() > u128::MAX || delegate_fault(
            p.ledger,
            p.consumer,
            q.owed(),
        ).is_some() {
            Some(ErrorView::AckFailed)
        } else {
            None
        },
        RequestKind::ListValidators => None,
    }
}

/// The state after the change that a request made was taken back.
pub open spec fn reverted(p: ProviderView, q: RequestView) -> ProviderView {
    let key = (q.delegator_key, q.validator);
    match q.kind {
        RequestKind::Stake => ProviderView {
            ledger: undelegated(p.ledger, p.consumer, q.validator, q.owed()),
            stakes: debited(p.stakes, key, q.owed()),
            stake_order: debit_order(p.stake_order, p.stakes, key, q.owed()),
            ..p
        },
        RequestKind::Unstake => ProviderView {
            ledger: delegated(p.ledger, p.consumer, q.validator, q.owed()),
            stakes: credited(p.stakes, key, q.owed()),
            stake_order: credit_order(p.stake_order, p.stakes, key, q.owed()),
            ..p
        },
        RequestKind::ListValidators => p,
    }
}

/// Why an outcome cannot be applied, if so. Each of these is reported as
/// `AckFailed`: no request waits under the sequence, a list of validators
/// was asked for and the answer carries none, or the change that the request
/// made can no longer be taken back.
pub open spec fn resolve_fault(p: ProviderView, sequence: u64, o: OutcomeView) -> Option<
    ErrorView,
> {
    if !p.outbox.pending.dom().contains(sequence) {
        Some(ErrorView::AckFailed)
    } else {
        let q = p.outbox.pending[sequence];
        if o.succeeded() {
            if q.kind == RequestKind::ListValidators && !(o matches OutcomeView::Ack(
                AckView::Result(AckPayloadView::Validators(_)),
            )) {
                Some(ErrorView::AckFailed)
            } else {
                None
            }
        } else {
            revert_fault(p, q)
        }
    }
}

/// The state after an outcome was applied: the request no longer waits; a
/// success leaves the earlier change in place, or replaces the known
/// validators by the list that came; anything else takes the change back.
pub open spec fn resolved(p: ProviderView, sequence: u64, o: OutcomeView) -> ProviderView {
    let q = p.outbox.pending[sequence];
    let rest = ProviderView { outbox: p.outbox.resolved(sequence), ..p };
    match o {
        OutcomeView::Ack(AckView::Result(payload)) => match payload {
            AckPayloadView::Validators(list) => if q.kind == RequestKind::ListValidators {
                ProviderView { validators: listed(p.validators, list), ..rest }
            } else {
                rest
            },
            AckPayloadView::Empty => rest,
        },
        _ => reverted(rest, q),
    }
}

/// Where an outcome leaves its request.
pub open spec fn final_state(o: OutcomeView) -> RequestState {
    match o {
        OutcomeView::Ack(AckView::Result(_)) => RequestState::Committed,
        OutcomeView::Ack(AckView::Error(_)) => RequestState::Reverted,
        OutcomeView::Timeout => RequestState::TimedOut,
    }
}

/// Why a change of the validators is not applied, if it is not: an address
/// is named both as added and as removed.
pub open spec fn update_fault(added: Seq<Seq<char>>, removed: Seq<Seq<char>>) -> Option<ErrorView> {
    if overlapping(added, removed) {
        Some(ErrorView::UpdateValidatorsFailed)
    } else {
        None
    }
}

/// Compensation: a stake that was sent and then failed, by an error or by
/// timeout, leaves ledger, stakes and validators exactly as they were
/// before it was sent. Only the sequence has moved on.
pub proof fn lemma_stake_compensated(
    p: ProviderView,
    delegator: Seq<char>,
    validator: Seq<char>,
    amount: u128,
    o: OutcomeView,
)
    requires
        p.sound(),
        stake_fault(p, amount as nat).is_none(),
        !o.succeeded(),
    ensures
        resolve_fault(stake_sent(p, delegator, validator, amount), p.outbox.next_sequence, o).is_none(),
        resolved(stake_sent(p, delegator, validator, amount), p.outbox.next_sequence, o) == (
        ProviderView {
            outbox: OutboxView { next_sequence: (p.outbox.next_sequence + 1) as u64, ..p.outbox },
            ..p
        }),
{
    let s = stake_sent(p, delegator, validator, amount);
    let seq = p.outbox.next_sequence;
    let key = (delegator, validator);
    lemma_delegate_undone(p.ledger, p.consumer, validator, amount as nat);
    lemma_credited(p.stakes, key, amount as nat);
    lemma_credit_then_debit(p.stakes, key, amount as nat);
    lemma_credit_then_debit_order(p.stake_order, p.stakes, key, amount as nat);
    assert(!p.outbox.pending.dom().contains(seq));
    assert(s.outbox.pending.remove(seq) =~= p.outbox.pending);
    let q = s.outbox.pending[seq];
    assert(q.owed() == amount);
}

/// Compensation: an unstake that was sent and then failed, by an error or by
/// timeout, leaves ledger, stakes and validators exactly as they were
/// before it was sent. The sequence has moved on, and a stake that the
/// unstake had used up is listed last once it is restored.
pub proof fn lemma_unstake_compensated(
    p: ProviderView,
    delegator: Seq<char>,
    validator: Seq<char>,
    amount: u128,
    o: OutcomeView,
)
    requires
        p.sound(),
        unstake_fault(p, delegator, validator, amount as nat).is_none(),
        !o.succeeded(),
    ensures
        resolve_fault(
            unstake_sent(p, delegator, validator, amount),
            p.outbox.next_sequence,
            o,
        ).is_none(),
        resolved(unstake_sent(p, delegator, validator, amount), p.outbox.next_sequence, o) == (
        ProviderView {
            outbox: OutboxView { next_sequence: (p.outbox.next_sequence + 1) as u64, ..p.outbox },
            stake_order: credit_order(
                debit_order(p.stake_order, p.stakes, (delegator, validator), amount as nat),
                debited(p.stakes, (delegator, validator), amount as nat),
                (delegator, validator),
                amount as nat,
            ),
            ..p
        }),
        amount < amount_in(p.stakes, (delegator, validator)) ==> resolved(
            unstake_sent(p, delegator, validator, amount),
            p.outbox.next_sequence,
            o,
        ).stake_order == p.stake_order,
{
    let s = unstake_sent(p, delegator, validator, amount);
    let seq = p.outbox.next_sequence;
    let key = (delegator, validator);
    lemma_undelegate_undone(p.ledger, p.consumer, validator, amount as nat);
    lemma_debited(p.stakes, key, amount as nat);
    lemma_debit_then_credit(p.stakes, key, amount as nat);
    assert(!p.outbox.pending.dom().contains(seq));
    assert(s.outbox.pending.remove(seq) =~= p.outbox.pending);
    let q = s.outbox.pending[seq];
    assert(q.owed() == amount);
}

/// A success leaves ledger and stakes as the request had left them when it
/// was sent.
pub proof fn lemma_commit_keeps(p: ProviderView, sequence: u64, o: OutcomeView)
    requires
        o.succeeded(),
    ensures
        resolved(p, sequence, o).ledger == p.ledger,
        resolved(p, sequence, o).stakes == p.stakes,
{
}

/// Each sequence resolves once: after an outcome was applied for it, any
/// further outcome for it is refused with `AckFailed`.
pub proof fn lemma_resolves_once(p: ProviderView, sequence: u64, o: OutcomeView, again: OutcomeView)
    requires
        resolve_fault(p, sequence, o).is_none(),
    ensures
        resolve_fault(resolved(p, sequence, o), sequence, again) == Some(ErrorView::AckFailed),
{
}


/// One operation of the provider's packet state machine.
pub enum ProviderOp {
    Stake { delegator: Seq<char>, validator: Seq<char>, amount: u128 },
    Unstake { delegator: Seq<char>, validator: Seq<char>, amount: u128 },
    ListValidators,
    Resolve { sequence: u64, outcome: OutcomeView },
    UpdateValidators { added: Seq<Seq<char>>, removed: Seq<Seq<char>> },
}

/// Why an operation is refused, if it is.
pub open spec fn provider_fault(p: ProviderView, op: ProviderOp) -> Option<ErrorView> {
    match op {
        ProviderOp::Stake { delegator, validator, amount } => stake_fault(p, amount as nat),
        ProviderOp::Unstake { delegator, validator, amount } => unstake_fault(
            p,
            delegator,
            validator,
            amount as nat,
        ),
        ProviderOp::ListValidators => p.send_fault(),
        ProviderOp::Resolve { sequence, outcome } => resolve_fault(p, sequence, outcome),
        ProviderOp::UpdateValidators { added, removed } => update_fault(added, removed),
    }
}

/// The state after an operation: changed as the operation says where it is
/// accepted, unchanged where it is refused.
pub open spec fn provider_step(p: ProviderView, op: ProviderOp) -> ProviderView {
    if provider_fault(p, op).is_some() {
        p
    } else {
        match op {
            ProviderOp::Stake { delegator, validator, amount } => stake_sent(
                p,
                delegator,
                validator,
                amount,
            ),
            ProviderOp::Unstake { delegator, validator, amount } => unstake_sent(
                p,
                delegator,
                validator,
                amount,
            ),
            ProviderOp::ListValidators => list_sent(p),
            ProviderOp::Resolve { sequence, outcome } => resolved(p, sequence, outcome),
            ProviderOp::UpdateValidators { added, removed } => ProviderView {
                validators: updated(p.validators, added, removed),
                ..p
            },
        }
    }
}

/// The state after a sequence of operations.
pub open spec fn provider_run(p: ProviderView, ops: Seq<ProviderOp>) -> ProviderView
    decreases ops.len(),
{
    if ops.len() == 0 {
        p
    } else {
        provider_step(provider_run(p, ops.drop_last()), ops.last())
    }
}

proof fn lemma_recorded_sound(
    o: OutboxView,
    kind: RequestKind,
    delegator: Seq<char>,
    validator: Seq<char>,
    amount: Option<u128>,
)
    requires
        o.sound(),
        !o.full(),
    ensures
        o.recorded(kind, delegator, validator, amount).sound(),
{
    let n = o.recorded(kind, delegator, validator, amount);
    assert forall|s: u64| #[trigger] n.pending.dom().contains(s) implies s < n.next_sequence
        && n.pending[s].sequence == s by {
        if s != o.next_sequence {
            assert(o.pending.dom().contains(s));
        }
    }
}

/// Every operation keeps a sound state sound, whether a request is sent,
/// committed, or taken back after an error or a timeout.
pub proof fn lemma_provider_step_sound(p: ProviderView, op: ProviderOp)
    requires
        p.sound(),
    ensures
        provider_step(p, op).sound(),
{
    if provider_fault(p, op).is_none() {
        match op {
            ProviderOp::Stake { delegator, validator, amount } => {
                lemma_step_sound(
                    p.ledger,
                    LedgerOp::Delegate { consumer: p.consumer, validator, amount: amount as nat },
                );
                lemma_credited(p.stakes, (delegator, validator), amount as nat);
                lemma_credit_orders(p.stake_order, p.stakes, (delegator, validator), amount as nat);
                lemma_recorded_sound(p.outbox, RequestKind::Stake, delegator, validator, Some(amount));
            },
            ProviderOp::Unstake { delegator, validator, amount } => {
                lemma_step_sound(
                    p.ledger,
                    LedgerOp::Undelegate { consumer: p.consumer, validator, amount: amount as nat },
                );
                lemma_debited(p.stakes, (delegator, validator), amount as nat);
                lemma_debit_orders(p.stake_order, p.stakes, (delegator, validator), amount as nat);
                lemma_recorded_sound(
                    p.outbox,
                    RequestKind::Unstake,
                    delegator,
                    validator,
                    Some(amount),
                );
            },
            ProviderOp::ListValidators => {
                lemma_recorded_sound(
                    p.outbox,
                    RequestKind::ListValidators,
                    Seq::empty(),
                    Seq::empty(),
                    None,
                );
            },
            ProviderOp::Resolve { sequence, outcome } => {
                let q = p.outbox.pending[sequence];
                let key = (q.delegator_key, q.validator);
                let n = provider_step(p, op);
                assert(n.outbox.sound()) by {
                    assert forall|s: u64| #[trigger]
                        n.outbox.pending.dom().contains(s) implies s < n.outbox.next_sequence
                        && n.outbox.pending[s].sequence == s by {
                        assert(p.outbox.pending.dom().contains(s));
                    }
                }
                if !outcome.succeeded() {
                    match q.kind {
                        RequestKind::Stake => {
                            lemma_step_sound(
                                p.ledger,
                                LedgerOp::Undelegate {
                                    consumer: p.consumer,
                                    validator: q.validator,
                                    amount: q.owed(),
                                },
                            );
                            lemma_debited(p.stakes, key, q.owed());
                            lemma_debit_orders(p.stake_order, p.stakes, key, q.owed());
                        },
                        RequestKind::Unstake => {
                            lemma_step_sound(
                                p.ledger,
                                LedgerOp::Delegate {
                                    consumer: p.consumer,
                                    validator: q.validator,
                                    amount: q.owed(),
                                },
                            );
                            lemma_credited(p.stakes, key, q.owed());
                            lemma_credit_orders(p.stake_order, p.stakes, key, q.owed());
                        },
                        RequestKind::ListValidators => {},
                    }
                }
            },
            ProviderOp::UpdateValidators { added, removed } => {},
        }
    }
}

/// Consistency under partial failure: after any sequence of requests,
/// acknowledgements, errors and timeouts, in any order, the state is sound.
/// The ledger's delegations stay within the earmarked funds, and no request
/// waits under a sequence that was not handed out.
pub proof fn lemma_provider_sound(p: ProviderView, ops: Seq<ProviderOp>)
    requires
        p.sound(),
    ensures
        provider_run(p, ops).sound(),
    decreases ops.len(),
{
    if ops.len() > 0 {
        lemma_provider_sound(p, ops.drop_last());
        lemma_provider_step_sound(provider_run(p, ops.drop_last()), ops.last());
    }
}

/// Why a packet callback is refused, if it is: for a channel that is not
/// the open one, or else for what the handling itself objects.
pub open spec fn callback_fault(
    p: ProviderView,
    channel_id: Seq<char>,
    inner: Option<ErrorView>,
) -> Option<ErrorView> {
    if !is_open_on(p.binding, channel_id) {
        Some(ErrorView::UnknownChannel(channel_id))
    } else {
        inner
    }
}

/// The state of a provider that was just created.
pub open spec fn created(
    connection_id: Seq<char>,
    lockup: Seq<char>,
    unbonding_period: u64,
    rewards_ibc_denom: Seq<char>,
    packet_lifetime: Option<u64>,
    ledger: LedgerView,
) -> ProviderView {
    ProviderView {
        binding: BindingView { connection: connection_id, port: None, channel: no_channel() },
        ledger,
        consumer: connection_id,
        slasher: None,
        lockup,
        unbonding_period,
        rewards_ibc_denom,
        packet_lifetime: match packet_lifetime {
            Some(t) => t,
            None => DEFAULT_PACKET_LIFETIME,
        },
        validators: Map::empty(),
        stakes: Map::empty(),
        stake_order: Seq::empty(),
        outbox: OutboxView { pending: Map::empty(), next_sequence: 1 },
    }
}

/// A provider contract.
pub struct Provider {
    channels: ChannelManager,
    ledger: MetaStaking,
    consumer: String,
    slasher: Option<String>,
    lockup: String,
    unbonding_period: u64,
    rewards_ibc_denom: String,
    packet_lifetime: u64,
    validators: ValidatorSet,
    stakes: AmountTable<PairKey>,
    outbox: Outbox,
}

impl View for Provider {
    type V = ProviderView;

    closed spec fn view(&self) -> ProviderView {
        ProviderView {
            binding: self.channels@,
            ledger: self.ledger@,
            consumer: self.consumer@,
            slasher: match self.slasher {
                Some(s) => Some(s@),
                None => None,
            },
            lockup: self.lockup@,
            unbonding_period: self.unbonding_period,
            rewards_ibc_denom: self.rewards_ibc_denom@,
            packet_lifetime: self.packet_lifetime,
            validators: self.validators@,
            stakes: self.stakes@,
            stake_order: self.stakes.order(),
            outbox: self.outbox@,
        }
    }
}

impl Provider {
    /// Creates a provider that serves the consumer named in `msg` and draws
    /// on `ledger`. The message names the consumer's connection and no port,
    /// so the provider awaits that connection and no port: it refuses a
    /// handshake for its connection, never for its counterparty port.
    pub fn instantiate(msg: InstantiateMsg, ledger: MetaStaking) -> (p: Self)
        ensures
            p@.binding.connection == msg.consumer.connection_id@,
            p@.binding.port.is_none(),
            p@ == created(
                msg.consumer.connection_id@,
                msg.lockup@,
                msg.unbonding_period,
                msg.rewards_ibc_denom@,
                msg.packet_lifetime,
                ledger@,
            ),
    {
        let packet_lifetime = match msg.packet_lifetime {
            Some(t) => t,
            None => DEFAULT_PACKET_LIFETIME,
        };
        Provider {
            channels: ChannelManager::new(msg.consumer.connection_id.as_str(), None),
            ledger,
            consumer: msg.consumer.connection_id.clone(),
            slasher: None,
            lockup: msg.lockup,
            unbonding_period: msg.unbonding_period,
            rewards_ibc_denom: msg.rewards_ibc_denom,
            packet_lifetime,
            validators: ValidatorSet::new(),
            stakes: AmountTable::new(),
            outbox: Outbox::new(),
        }
    }

    /// What holds of every provider: its state is sound.
    pub fn bounds(&self)
        ensures
            self@.sound(),
    {
        self.ledger.bounds();
        self.stakes.bounds();
        self.outbox.bounds();
    }

    /// The ledger that the provider draws on.
    pub fn ledger(&self) -> (l: &MetaStaking)
        ensures
            l@ == self@.ledger,
    {
        &self.ledger
    }

    /// Where the channel stands.
    pub fn channel_state(&self) -> (s: ChannelState)
        ensures
            s == self@.binding.channel.state,
    {
        self.channels.state()
    }

    /// The sequence that the next packet will get.
    pub fn next_sequence(&self) -> (s: u64)
        ensures
            s == self@.outbox.next_sequence,
    {
        self.outbox.next_sequence()
    }

    /// Whether a request waits under `sequence`.
    pub fn is_pending(&self, sequence: u64) -> (r: bool)
        ensures
            r == self@.outbox.pending.dom().contains(sequence),
    {
        self.outbox.peek(sequence).is_some()
    }

    /// The lowest sequence under which a request of the given kind, for the
    /// given delegator, validator and amount, waits for its answer.
    pub fn find_waiting(
        &self,
        kind: RequestKind,
        delegator: &str,
        validator: &str,
        amount: Option<u128>,
    ) -> (r: Option<u64>)
        ensures
            r == self@.outbox.first_waiting(kind, delegator@, validator@, amount),
            r matches Some(s) ==> self@.outbox.is_first_waiting(
                s,
                kind,
                delegator@,
                validator@,
                amount,
            ),
            r.is_none() ==> forall|t: u64|
                !#[trigger] self@.outbox.waits_as(t, kind, delegator@, validator@, amount),
    {
        self.outbox.find_waiting(kind, delegator, validator, amount)
    }

    /// What `delegator` has staked with `validator`.
    pub fn staked(&self, delegator: &str, validator: &str) -> (a: u128)
        ensures
            a == amount_in(self@.stakes, (delegator@, validator@)),
    {
        let key = PairKey::new(delegator, validator);
        self.stakes.get(&key)
    }

    /// Checks an attempt to open a channel; see [`ChannelManager::open`].
    pub fn ibc_channel_open(&self, channel: &IbcChannel, counterparty_version: Option<&str>) -> (r:
        Result<Option<String>, ContractError>)
        ensures
            match r {
                Ok(v) => open_fault(self@.binding, channel@, text_of(counterparty_version)).is_none()
                    && v.is_some() && v.unwrap()@ == crate::channel::app_version(),
                Err(e) => open_fault(self@.binding, channel@, text_of(counterparty_version))
                    == Some(e@),
            },
    {
        self.channels.open(channel, counterparty_version)
    }

    /// Completes the handshake; see [`ChannelManager::connect`].
    pub fn ibc_channel_connect(
        &mut self,
        channel: &IbcChannel,
        counterparty_version: Option<&str>,
    ) -> (r: Result<(), ContractError>)
        ensures
            match r {
                Ok(_) => connect_fault(
                    old(self)@.binding,
                    channel@,
                    text_of(counterparty_version),
                ).is_none() && final(self)@ == (ProviderView {
                    binding: connected(old(self)@.binding, channel@),
                    ..old(self)@
                }),
                Err(e) => connect_fault(old(self)@.binding, channel@, text_of(counterparty_version))
                    == Some(e@) && final(self)@ == old(self)@,
            },
    {
        self.channels.connect(channel, counterparty_version)
    }

    /// Closes the channel; see [`ChannelManager::close`].
    pub fn ibc_channel_close(&mut self, channel: &IbcChannel) -> (r: Result<(), ContractError>)
        ensures
            match r {
                Ok(_) => is_open_on(old(self)@.binding, channel@.endpoint.channel_id)
                    && final(self)@ == (ProviderView {
                    binding: closed(old(self)@.binding),
                    ..old(self)@
                }),
                Err(e) => !is_open_on(old(self)@.binding, channel@.endpoint.channel_id) && e@
                    == ErrorView::UnknownChannel(channel@.endpoint.channel_id) && final(self)@
                    == old(self)@,
            },
    {
        self.channels.close(channel)
    }

    fn check_send(&self) -> (r: Result<(), ContractError>)
        ensures
            match r {
                Ok(_) => self@.send_fault().is_none(),
                Err(e) => self@.send_fault() == Some(e@),
            },
    {
        if self.channels.state() != ChannelState::Open {
            return Err(ContractError::UnknownChannel(self.channels.channel().channel_id));
        }
        if self.outbox.is_full() {
            return Err(ContractError::CustomError { val: "packet sequence exhausted".to_owned() });
        }
        Ok(())
    }

    fn check_delegate(&self, amount: u128) -> (r: Result<(), ContractError>)
        ensures
            match r {
                Ok(_) => delegate_fault(self@.ledger, self@.consumer, amount as nat).is_none(),
                Err(e) => delegate_fault(self@.ledger, self@.consumer, amount as nat) == Some(e@),
            },
    {
        let info = match self.ledger.query_consumer(self.consumer.as_str()) {
            Ok(i) => i,
            Err(e) => {
                return Err(e);
            },
        };
        if amount > info.available_funds - info.total_staked {
            return Err(ContractError::NotEnoughFunds {  });
        }
        Ok(())
    }

    fn check_undelegate(&self, validator: &str, amount: u128) -> (r: Result<(), ContractError>)
        ensures
            match r {
                Ok(_) => undelegate_fault(
                    self@.ledger,
                    self@.consumer,
                    validator@,
                    amount as nat,
                ).is_none(),
                Err(e) => undelegate_fault(self@.ledger, self@.consumer, validator@, amount as nat)
                    == Some(e@),
            },
    {
        if !self.ledger.is_registered(self.consumer.as_str()) {
            return Err(ContractError::NoConsumer {  });
        }
        if amount > self.ledger.delegation(self.consumer.as_str(), validator) {
            return Err(ContractError::InsufficientDelegation {  });
        }
        Ok(())
    }

    fn packet(&self, sequence: u64, data: ProviderMsg) -> (p: ProviderPacket)
        ensures
            p@ == (ProviderPacketView { sequence, ..self@.packet(data@) }),
    {
        ProviderPacket {
            channel_id: self.channels.channel().channel_id,
            sequence,
            data,
            lifetime: self.packet_lifetime,
        }
    }

    /// Sends a stake: the ledger delegates `amount` of the consumer's funds
    /// to `validator` at once, the delegator's stake grows by it, and the
    /// request waits for its answer. The result is the packet to send.
    pub fn dispatch_stake(&mut self, delegator: &str, validator: &str, amount: u128) -> (r: Result<
        ProviderPacket,
        ContractError,
    >)
        ensures
            match r {
                Ok(packet) => stake_fault(old(self)@, amount as nat).is_none() && final(self)@
                    == stake_sent(old(self)@, delegator@, validator@, amount) && packet@ == old(self)@.packet(
                    ProviderMsgView::Stake {
                        key: delegator@,
                        amount: amount as nat,
                        validator: validator@,
                    },
                ),
                Err(e) => stake_fault(old(self)@, amount as nat) == Some(e@) && final(self)@
                    == old(self)@,
            },
    {
        match self.check_send() {
            Ok(_) => {},
            Err(e) => {
                return Err(e);
            },
        }
        match self.check_delegate(amount) {
            Ok(_) => {},
            Err(e) => {
                return Err(e);
            },
        }
        if amount > u128::MAX - self.stakes.total() {
            return Err(ContractError::NotEnoughFunds {  });
        }
        let packet = self.packet(
            self.outbox.next_sequence(),
            ProviderMsg::Stake {
                key: delegator.to_owned(),
                amount,
                validator: validator.to_owned(),
            },
        );
        match self.ledger.delegate(self.consumer.as_str(), validator, amount) {
            Ok(_) => {},
            Err(e) => {
                return Err(e);
            },
        }
        let key = PairKey::new(delegator, validator);
        let _ = self.stakes.credit(&key, amount);
        let _ = self.outbox.record(RequestKind::Stake, delegator, validator, Some(amount));
        Ok(packet)
    }

    /// Sends an unstake: the ledger takes `amount` back from `validator` at
    /// once, the delegator's stake shrinks by it, and the request waits for
    /// its answer. The result is the packet to send.
    pub fn dispatch_unstake(&mut self, delegator: &str, validator: &str, amount: u128) -> (r:
        Result<ProviderPacket, ContractError>)
        ensures
            match r {
                Ok(packet) => unstake_fault(
                    old(self)@,
                    delegator@,
                    validator@,
                    amount as nat,
                ).is_none() && final(self)@ == unstake_sent(
                    old(self)@,
                    delegator@,
                    validator@,
                    amount,
                ) && packet@ == old(self)@.packet(
                    ProviderMsgView::Unstake {
                        key: delegator@,
                        amount: amount as nat,
                        validator: validator@,
                    },
                ),
                Err(e) => unstake_fault(old(self)@, delegator@, validator@, amount as nat) == Some(
                    e@,
                ) && final(self)@ == old(self)@,
            },
    {
        match self.check_send() {
            Ok(_) => {},
            Err(e) => {
                return Err(e);
            },
        }
        let key = PairKey::new(delegator, validator);
        if amount > self.stakes.get(&key) {
            return Err(ContractError::InsufficientDelegation {  });
        }
        match self.check_undelegate(validator, amount) {
            Ok(_) => {},
            Err(e) => {
                return Err(e);
            },
        }
        let packet = self.packet(
            self.outbox.next_sequence(),
            ProviderMsg::Unstake {
                key: delegator.to_owned(),
                amount,
                validator: validator.to_owned(),
            },
        );
        match self.ledger.undelegate(self.consumer.as_str(), validator, amount) {
            Ok(_) => {},
            Err(e) => {
                return Err(e);
            },
        }
        let _ = self.stakes.debit(&key, amount);
        let _ = self.outbox.record(RequestKind::Unstake, delegator, validator, Some(amount));
        Ok(packet)
    }

    /// Sends a request for the list of the consumer's validators. The result
    /// is the packet to send.
    pub fn dispatch_list_validators(&mut self) -> (r: Result<ProviderPacket, ContractError>)
        ensures
            match r {
                Ok(packet) => old(self)@.send_fault().is_none() && final(self)@ == list_sent(
                    old(self)@,
                ) && packet@ == old(self)@.packet(ProviderMsgView::ListValidators),
                Err(e) => old(self)@.send_fault() == Some(e@) && final(self)@ == old(self)@,
            },
    {
        match self.check_send() {
            Ok(_) => {},
            Err(e) => {
                return Err(e);
            },
        }
        let packet = self.packet(self.outbox.next_sequence(), ProviderMsg::ListValidators {  });
        proof {
            reveal_strlit("");
            assert(""@ =~= Seq::<char>::empty());
        }
        let _ = self.outbox.record(RequestKind::ListValidators, "", "", None);
        Ok(packet)
    }

    fn revert(&mut self, kind: RequestKind, delegator: &str, validator: &str, amount: u128) -> (r:
        Result<(), ContractError>)
        ensures
            match r {
                Ok(_) => revert_fault(
                    old(self)@,
                    RequestView {
                        sequence: 0,
                        kind,
                        delegator_key: delegator@,
                        validator: validator@,
                        amount: Some(amount),
                    },
                ).is_none() && final(self)@ == reverted(
                    old(self)@,
                    RequestView {
                        sequence: 0,
                        kind,
                        delegator_key: delegator@,
                        validator: validator@,
                        amount: Some(amount),
                    },
                ),
                Err(e) => revert_fault(
                    old(self)@,
                    RequestView {
                        sequence: 0,
                        kind,
                        delegator_key: delegator@,
                        validator: validator@,
                        amount: Some(amount),
                    },
                ) == Some(e@) && final(self)@ == old(self)@,
            },
    {
        let key = PairKey::new(delegator, validator);
        match kind {
            RequestKind::Stake => {
                if amount > self.stakes.get(&key) {
                    return Err(ContractError::AckFailed {  });
                }
                match self.check_undelegate(validator, amount) {
                    Ok(_) => {},
                    Err(_) => {
                        return Err(ContractError::AckFailed {  });
                    },
                }
                match self.ledger.undelegate(self.consumer.as_str(), validator, amount) {
                    Ok(_) => {},
                    Err(_) => {
                        return Err(ContractError::AckFailed {  });
                    },
                }
                let _ = self.stakes.debit(&key, amount);
                Ok(())
            },
            RequestKind::Unstake => {
                if amount > u128::MAX - self.stakes.total() {
                    return Err(ContractError::AckFailed {  });
                }
                match self.check_delegate(amount) {
                    Ok(_) => {},
                    Err(_) => {
                        return Err(ContractError::AckFailed {  });
                    },
                }
                match self.ledger.delegate(self.consumer.as_str(), validator, amount) {
                    Ok(_) => {},
                    Err(_) => {
                        return Err(ContractError::AckFailed {  });
                    },
                }
                let _ = self.stakes.credit(&key, amount);
                Ok(())
            },
            RequestKind::ListValidators => Ok(()),
        }
    }

    /// Applies the outcome of the request that was sent under `sequence`. A
    /// success commits it: what was changed when it was sent stays, and a
    /// list of validators that came replaces what was known, whatever
    /// changes of the validators were applied before it: of a list and a
    /// change, the one applied last wins. An error or a timeout takes the
    /// change back. Where the outcome cannot be applied, the result is
    /// `AckFailed` and nothing changes.
    pub fn resolve(&mut self, sequence: u64, outcome: Outcome) -> (r: Result<
        RequestState,
        ContractError,
    >)
        ensures
            match r {
                Ok(s) => resolve_fault(old(self)@, sequence, outcome@).is_none() && final(self)@
                    == resolved(old(self)@, sequence, outcome@) && s == final_state(outcome@),
                Err(e) => resolve_fault(old(self)@, sequence, outcome@) == Some(e@)
                    && final(self)@ == old(self)@,
            },
    {
        let q = match self.outbox.peek(sequence) {
            Some(q) => q,
            None => {
                return Err(ContractError::AckFailed {  });
            },
        };
        let amount = match q.amount {
            Some(a) => a,
            None => 0,
        };
        let state = match outcome {
            Outcome::Ack(Ack::Result(payload)) => {
                match payload {
                    AckPayload::Validators(list) => {
                        if q.kind == RequestKind::ListValidators {
                            self.validators.overwrite(&list);
                        }
                    },
                    AckPayload::Empty => {
                        if q.kind == RequestKind::ListValidators {
                            return Err(ContractError::AckFailed {  });
                        }
                    },
                }
                RequestState::Committed
            },
            Outcome::Ack(Ack::Error(_)) => {
                match self.revert(q.kind, q.delegator_key.as_str(), q.validator.as_str(), amount) {
                    Ok(_) => {},
                    Err(e) => {
                        return Err(e);
                    },
                }
                RequestState::Reverted
            },
            Outcome::Timeout => {
                match self.revert(q.kind, q.delegator_key.as_str(), q.validator.as_str(), amount) {
                    Ok(_) => {},
                    Err(e) => {
                        return Err(e);
                    },
                }
                RequestState::TimedOut
            },
        };
        let _ = self.outbox.resolve(sequence);
        Ok(state)
    }

    /// Applies the acknowledgement of the request under `sequence`.
    pub fn on_ack(&mut self, sequence: u64, ack: Ack) -> (r: Result<RequestState, ContractError>)
        ensures
            match r {
                Ok(s) => resolve_fault(old(self)@, sequence, OutcomeView::Ack(ack@)).is_none()
                    && final(self)@ == resolved(old(self)@, sequence, OutcomeView::Ack(ack@)) && s
                    == final_state(OutcomeView::Ack(ack@)),
                Err(e) => resolve_fault(old(self)@, sequence, OutcomeView::Ack(ack@)) == Some(e@)
                    && final(self)@ == old(self)@,
            },
    {
        self.resolve(sequence, Outcome::Ack(ack))
    }

    /// Applies the timeout of the request under `sequence`: as an error
    /// would be, but the request ends as timed out.
    pub fn on_timeout(&mut self, sequence: u64) -> (r: Result<RequestState, ContractError>)
        ensures
            match r {
                Ok(s) => resolve_fault(old(self)@, sequence, OutcomeView::Timeout).is_none()
                    && final(self)@ == resolved(old(self)@, sequence, OutcomeView::Timeout) && s
                    == RequestState::TimedOut,
                Err(e) => resolve_fault(old(self)@, sequence, OutcomeView::Timeout) == Some(e@)
                    && final(self)@ == old(self)@,
            },
    {
        self.resolve(sequence, Outcome::Timeout)
    }

    /// Applies a change of the consumer's validators to what the provider
    /// knows of them. A change that names an address both as added and as
    /// removed is refused with `UpdateValidatorsFailed`.
    pub fn on_update_validators(&mut self, added: &Vec<String>, removed: &Vec<String>) -> (r:
        Result<(), ContractError>)
        ensures
            match r {
                Ok(_) => update_fault(texts(added@), texts(removed@)).is_none() && final(self)@
                    == (ProviderView {
                    validators: updated(old(self)@.validators, texts(added@), texts(removed@)),
                    ..old(self)@
                }),
                Err(e) => update_fault(texts(added@), texts(removed@)) == Some(e@) && final(self)@
                    == old(self)@,
            },
    {
        if overlap(added, removed) {
            return Err(ContractError::UpdateValidatorsFailed {  });
        }
        self.validators.apply(added, removed);
        Ok(())
    }
}


/// What the provider tells of a validator.
#[derive(Clone, Debug, PartialEq, Eq)]
pub struct ValidatorResponse {
    pub address: String,
    /// What the ledger has delegated to the validator for the consumer.
    pub tokens_staked: u128,
    pub active: bool,
}

/// What a delegator has staked with one validator.
#[derive(Clone, Debug, PartialEq, Eq)]
pub struct StakeInfo {
    pub validator: String,
    pub tokens: u128,
}

/// What the provider tells of a delegator.
#[derive(Clone, Debug, PartialEq, Eq)]
pub struct AccountResponse {
    pub staked: Vec<StakeInfo>,
}

impl View for StakeInfo {
    type V = (Seq<char>, nat);

    open spec fn view(&self) -> (Seq<char>, nat) {
        (self.validator@, self.tokens as nat)
    }
}

impl View for AccountResponse {
    type V = Seq<(Seq<char>, nat)>;

    open spec fn view(&self) -> Seq<(Seq<char>, nat)> {
        self.staked@.map_values(|s: StakeInfo| s@)
    }
}

/// The stakes of `delegator` as a list: for each of its stakes, in the order
/// in which `order` names them, the validator and the amount staked.
pub open spec fn account_of(
    stakes: Map<(Seq<char>, Seq<char>), nat>,
    order: Seq<(Seq<char>, Seq<char>)>,
    delegator: Seq<char>,
) -> Seq<(Seq<char>, nat)>
    decreases order.len(),
{
    if order.len() == 0 {
        Seq::empty()
    } else {
        let rest = account_of(stakes, order.drop_last(), delegator);
        let k = order.last();
        if k.0 == delegator {
            rest.push((k.1, amount_in(stakes, k)))
        } else {
            rest
        }
    }
}

/// Whether a list names the stakes of `delegator`: each validator it has
/// stake with once, with the amount staked.
pub open spec fn lists_account(
    stakes: Map<(Seq<char>, Seq<char>), nat>,
    delegator: Seq<char>,
    list: Seq<StakeInfo>,
) -> bool {
    &&& forall|i: int|
        0 <= i < list.len() ==> stakes.dom().contains((delegator, #[trigger] list[i].validator@))
            && stakes[(delegator, list[i].validator@)] == list[i].tokens
    &&& forall|i: int, j: int| 0 <= i < j < list.len() ==> list[i].validator@ != list[j].validator@
    &&& forall|v: Seq<char>| #[trigger]
        stakes.dom().contains((delegator, v)) ==> exists|i: int|
            0 <= i < list.len() && list[i].validator@ == v
}

/// The stakes after a slash of `validator`: every stake with it loses its
/// share `percentage`, rounded down, and a stake that loses all is gone.
pub open spec fn slashed_stakes(
    m: Map<(Seq<char>, Seq<char>), nat>,
    validator: Seq<char>,
    percentage: nat,
) -> Map<(Seq<char>, Seq<char>), nat> {
    Map::new(
        |k: (Seq<char>, Seq<char>)|
            m.dom().contains(k) && (k.1 != validator || floor_of_product(m[k], percentage) < m[k]),
        |k: (Seq<char>, Seq<char>)|
            if k.1 == validator {
                (m[k] - floor_of_product(m[k], percentage)) as nat
            } else {
                m[k]
            },
    )
}

/// The order of the stakes after a slash of `validator`: a stake that loses
/// all leaves, and the others stay in their order.
pub open spec fn slashed_order(
    order: Seq<(Seq<char>, Seq<char>)>,
    m: Map<(Seq<char>, Seq<char>), nat>,
    validator: Seq<char>,
    percentage: nat,
) -> Seq<(Seq<char>, Seq<char>)>
    decreases order.len(),
{
    if order.len() == 0 {
        order
    } else {
        let rest = slashed_order(order.drop_last(), m, validator, percentage);
        let k = order.last();
        if k.1 == validator && floor_of_product(amount_in(m, k), percentage) >= amount_in(m, k) {
            rest
        } else {
            rest.push(k)
        }
    }
}

spec fn partly_slashed(
    m: Map<(Seq<char>, Seq<char>), nat>,
    done: Seq<(Seq<char>, Seq<char>)>,
    validator: Seq<char>,
    percentage: nat,
) -> Map<(Seq<char>, Seq<char>), nat> {
    Map::new(
        |k: (Seq<char>, Seq<char>)|
            m.dom().contains(k) && !(done.contains(k) && k.1 == validator && floor_of_product(
                m[k],
                percentage,
            ) >= m[k]),
        |k: (Seq<char>, Seq<char>)|
            if done.contains(k) && k.1 == validator {
                (m[k] - floor_of_product(m[k], percentage)) as nat
            } else {
                m[k]
            },
    )
}

spec fn keys_of(list: Seq<Holding<PairKey>>) -> Seq<(Seq<char>, Seq<char>)> {
    list.map_values(|h: Holding<PairKey>| h.key@)
}

fn slash_stakes(stakes: &mut AmountTable<PairKey>, validator: &str, percentage: Decimal)
    requires
        percentage.atomics <= DECIMAL_FRACTIONAL,
    ensures
        final(stakes)@ == slashed_stakes(old(stakes)@, validator@, percentage.atomics as nat),
        final(stakes).order() == slashed_order(
            old(stakes).order(),
            old(stakes)@,
            validator@,
            percentage.atomics as nat,
        ),
{
    stakes.bounds();
    let list = stakes.holdings();
    let target = validator.to_owned();
    let ghost start = stakes@;
    let ghost keys = keys_of(list@);
    let ghost pct = percentage.atomics as nat;
    let mut i: usize = 0;
    assert(stakes@ =~= partly_slashed(start, keys.take(0), validator@, pct));
    assert(keys =~= stakes.order());
    assert(keys.take(0) =~= Seq::<(Seq<char>, Seq<char>)>::empty());
    assert(stakes.order() =~= slashed_order(keys.take(0), start, validator@, pct) + keys.skip(0));
    while i < list.len()
        invariant
            i <= list@.len(),
            lists(start, list@),
            keys == keys_of(list@),
            stakes.order() == slashed_order(keys.take(i as int), start, validator@, pct)
                + keys.skip(i as int),
            pct == percentage.atomics,
            percentage.atomics <= DECIMAL_FRACTIONAL,
            target@ == validator@,
            positive(start),
            stakes@ == partly_slashed(start, keys.take(i as int), validator@, pct),
        decreases list@.len() - i,
    {
        let ghost k = list@[i as int].key@;
        let ghost cur = stakes@;
        let ghost kept = slashed_order(keys.take(i as int), start, validator@, pct);
        let ghost cur_order = stakes.order();
        stakes.bounds();
        proof {
            assert(keys.take(i + 1).drop_last() =~= keys.take(i as int));
            assert(keys.take(i + 1).last() == k);
            assert(cur_order =~= kept.push(k) + keys.skip(i + 1));
            assert(cur_order[kept.len() as int] == k);
            assert(keys[i as int] == k);
            assert(!keys.take(i as int).contains(k)) by {
                if keys.take(i as int).contains(k) {
                    let j = choose|j: int|
                        0 <= j < keys.take(i as int).len() && keys.take(i as int)[j] == k;
                    assert(list@[j].key@ != list@[i as int].key@);
                }
            }
            assert(start.dom().contains(list@[i as int].key@));
            lemma_contains_push(keys.take(i as int), k);
            assert(keys.take(i + 1) =~= keys.take(i as int).push(k));
            lemma_share_bounded(start[k], pct);
        }
        if list[i].key.second == target {
            let cut = percentage.share_of(list[i].amount);
            let _ = stakes.debit(&list[i].key, cut);
            proof {
                assert(stakes@ =~= partly_slashed(start, keys.take(i + 1), validator@, pct));
                if cut > 0 && cut == list@[i as int].amount {
                    let p = position_of(cur_order, k);
                    assert(0 <= p < cur_order.len() && cur_order[p] == k);
                    assert(p == kept.len());
                    assert(cur_order.remove(p) =~= kept + keys.skip(i + 1));
                }
            }
        } else {
            proof {
                assert(stakes@ =~= partly_slashed(start, keys.take(i + 1), validator@, pct));
            }
        }
        i = i + 1;
    }
    proof {
        assert(keys.take(i as int) =~= keys);
        assert(keys.skip(i as int) =~= Seq::<(Seq<char>, Seq<char>)>::empty());
        assert(stakes.order() =~= slashed_order(keys, start, validator@, pct));
        assert(partly_slashed(start, keys, validator@, pct) =~= slashed_stakes(
            start,
            validator@,
            pct,
        )) by {
            assert forall|k: (Seq<char>, Seq<char>)| start.dom().contains(k) implies keys.contains(
                k,
            ) by {
                let j = choose|j: int| 0 <= j < list@.len() && list@[j].key@ == k;
                assert(keys[j] == k);
            }
        }
    }
}

/// Why a slash is refused, if it is.
pub open spec fn slash_call_fault(
    p: ProviderView,
    sender: Seq<char>,
    validator: Seq<char>,
    percentage: nat,
) -> Option<ErrorView> {
    if p.slasher != Some(sender) {
        Some(ErrorView::Unauthorized)
    } else if !p.validators.dom().contains(validator) {
        Some(ErrorView::UnknownValidator(validator))
    } else {
        slash_fault(p.ledger, p.consumer, percentage)
    }
}

/// The state after a slash: the ledger and every stake with the validator
/// have lost their share, and a validator that was to be unbonded by force
/// is no longer active.
pub open spec fn slash_applied(
    p: ProviderView,
    validator: Seq<char>,
    percentage: nat,
    force_unbond: bool,
) -> ProviderView {
    ProviderView {
        ledger: slashed(p.ledger, p.consumer, validator, percentage),
        stakes: slashed_stakes(p.stakes, validator, percentage),
        stake_order: slashed_order(p.stake_order, p.stakes, validator, percentage),
        validators: if force_unbond {
            p.validators.insert(validator, false)
        } else {
            p.validators
        },
        ..p
    }
}

/// Why a claim of rewards is refused, if it is.
pub open spec fn claim_fault(p: ProviderView, delegator: Seq<char>, validator: Seq<char>) -> Option<
    ErrorView,
> {
    if amount_in(p.stakes, (delegator, validator)) == 0 {
        Some(ErrorView::Unauthorized)
    } else {
        remove_fault(p.ledger, p.consumer)
    }
}

impl Provider {
    /// Makes `address` the slasher, the one that may slash. A provider that
    /// has a slasher keeps it.
    pub fn register_slasher(&mut self, address: &str) -> (r: Result<(), ContractError>)
        ensures
            match r {
                Ok(_) => old(self)@.slasher.is_none() && final(self)@ == (ProviderView {
                    slasher: Some(address@),
                    ..old(self)@
                }),
                Err(e) => old(self)@.slasher.is_some() && e@ == ErrorView::Unauthorized
                    && final(self)@ == old(self)@,
            },
    {
        if self.slasher.is_some() {
            return Err(ContractError::Unauthorized {  });
        }
        self.slasher = Some(address.to_owned());
        Ok(())
    }

    fn is_slasher(&self, sender: &str) -> (r: bool)
        ensures
            r == (self@.slasher == Some(sender@)),
    {
        match &self.slasher {
            Some(s) => *s == sender.to_owned(),
            None => false,
        }
    }

    /// Slashes a validator by the share `percentage`. Only the slasher may
    /// do so. The ledger's delegation to the validator and every
    /// delegator's stake with it lose their share, each rounded down, and
    /// with `force_unbond` the validator is no longer active. The result is
    /// what the ledger's delegation lost.
    pub fn slash(&mut self, sender: &str, validator: &str, percentage: Decimal, force_unbond: bool) -> (r:
        Result<u128, ContractError>)
        ensures
            match r {
                Ok(s) => slash_call_fault(
                    old(self)@,
                    sender@,
                    validator@,
                    percentage.atomics as nat,
                ).is_none() && s == slash_cut(
                    old(self)@.ledger,
                    old(self)@.consumer,
                    validator@,
                    percentage.atomics as nat,
                ) && final(self)@ == slash_applied(
                    old(self)@,
                    validator@,
                    percentage.atomics as nat,
                    force_unbond,
                ),
                Err(e) => slash_call_fault(
                    old(self)@,
                    sender@,
                    validator@,
                    percentage.atomics as nat,
                ) == Some(e@) && final(self)@ == old(self)@,
            },
    {
        if !self.is_slasher(sender) {
            return Err(ContractError::Unauthorized {  });
        }
        if !self.validators.is_known(validator) {
            return Err(ContractError::UnknownValidator(validator.to_owned()));
        }
        let taken = match self.ledger.slash(self.consumer.as_str(), validator, percentage) {
            Ok(t) => t,
            Err(e) => {
                return Err(e);
            },
        };
        slash_stakes(&mut self.stakes, validator, percentage);
        if force_unbond {
            self.validators.deactivate(validator);
        }
        Ok(taken)
    }

    /// Hands out the reward that waits in the ledger from `validator`, and
    /// clears it. The claimant must have stake with the validator.
    pub fn claim_rewards(&mut self, delegator: &str, validator: &str) -> (r: Result<
        Decimal,
        ContractError,
    >)
        ensures
            match r {
                Ok(d) => claim_fault(old(self)@, delegator@, validator@).is_none() && d.atomics
                    == amount_in(
                    old(self)@.ledger.consumers[old(self)@.consumer].rewards,
                    validator@,
                ) && final(self)@ == (ProviderView {
                    ledger: withdrawn(old(self)@.ledger, old(self)@.consumer, validator@),
                    ..old(self)@
                }),
                Err(e) => claim_fault(old(self)@, delegator@, validator@) == Some(e@)
                    && final(self)@ == old(self)@,
            },
    {
        let key = PairKey::new(delegator, validator);
        if self.stakes.get(&key) == 0 {
            return Err(ContractError::Unauthorized {  });
        }
        self.ledger.withdraw_reward(self.consumer.as_str(), validator)
    }

    /// What the provider knows of a validator; the error of a thing not
    /// found for one that it does not know.
    pub fn query_validator(&self, address: &str) -> (r: Result<
        ValidatorResponse,
        cosmwasm_std::StdError,
    >)
        ensures
            match r {
                Ok(v) => self@.validators.dom().contains(address@) && v.address@ == address@
                    && v.active == self@.validators[address@] && v.tokens_staked == (
                if self@.ledger.registered(self@.consumer) {
                    amount_in(self@.ledger.consumers[self@.consumer].delegations, address@)
                } else {
                    0
                }),
                Err(_) => !self@.validators.dom().contains(address@),
            },
    {
        if !self.validators.is_known(address) {
            return Err(not_found("Validator"));
        }
        Ok(
            ValidatorResponse {
                address: address.to_owned(),
                tokens_staked: self.ledger.delegation(self.consumer.as_str(), address),
                active: self.validators.is_active(address),
            },
        )
    }

    /// What `address` has staked, validator by validator, in the order in
    /// which the stakes entered. The query never fails and changes nothing.
    pub fn query_account(&self, address: &str) -> (r: Result<
        AccountResponse,
        cosmwasm_std::StdError,
    >)
        ensures
            r matches Ok(a) && a@ == account_of(self@.stakes, self@.stake_order, address@)
                && lists_account(self@.stakes, address@, a.staked@),
    {
        let list = self.stakes.holdings();
        let owner = address.to_owned();
        let mut staked: Vec<StakeInfo> = Vec::new();
        let ghost mut from: Seq<int> = Seq::empty();
        let ghost order = self.stakes.order();
        let mut i: usize = 0;
        assert(order.take(0) =~= Seq::<(Seq<char>, Seq<char>)>::empty());
        while i < list.len()
            invariant
                i <= list@.len(),
                lists(self@.stakes, list@),
                order == self.stakes.order(),
                list@.len() == order.len(),
                forall|j: int| 0 <= j < list@.len() ==> (#[trigger] list@[j]).key@ == order[j],
                staked@.map_values(|s: StakeInfo| s@) == account_of(
                    self@.stakes,
                    order.take(i as int),
                    address@,
                ),
                owner@ == address@,
                from.len() == staked@.len(),
                forall|a: int|
                    0 <= a < staked@.len() ==> 0 <= #[trigger] from[a] < i && list@[from[a]].key@
                        == (address@, staked@[a].validator@) && list@[from[a]].amount
                        == staked@[a].tokens,
                forall|a: int, b: int| 0 <= a < b < staked@.len() ==> from[a] < from[b],
                forall|j: int|
                    0 <= j < i && list@[j].key@.0 == address@ ==> exists|a: int|
                        0 <= a < staked@.len() && #[trigger] from[a] == j,
            decreases list@.len() - i,
        {
            let ghost listed = staked@.map_values(|s: StakeInfo| s@);
            proof {
                assert(order.take(i + 1).drop_last() =~= order.take(i as int));
                assert(order.take(i + 1).last() == list@[i as int].key@);
                assert(self@.stakes.dom().contains(list@[i as int].key@));
            }
            if list[i].key.first == owner {
                let ghost prev = from;
                let ghost prev_len = staked@.len();
                staked.push(
                    StakeInfo { validator: list[i].key.second.clone(), tokens: list[i].amount },
                );
                proof {
                    assert(staked@.map_values(|s: StakeInfo| s@) =~= listed.push(
                        (list@[i as int].key@.1, list@[i as int].amount as nat),
                    ));
                    from = from.push(i as int);
                    assert forall|j: int| 0 <= j < i + 1 && list@[j].key@.0 == address@ implies exists|
                        a: int,
                    | 0 <= a < staked@.len() && #[trigger] from[a] == j by {
                        if j < i {
                            let a = choose|a: int| 0 <= a < prev_len && #[trigger] prev[a] == j;
                            assert(from[a] == j);
                        } else {
                            assert(from[prev_len as int] == j);
                        }
                    }
                }
            }
            i = i + 1;
        }
        proof {
            assert(order.take(i as int) =~= order);
            let m = self@.stakes;
            assert forall|a: int| 0 <= a < staked@.len() implies m.dom().contains(
                (address@, #[trigger] staked@[a].validator@),
            ) && m[(address@, staked@[a].validator@)] == staked@[a].tokens by {
                assert(m.dom().contains(list@[from[a]].key@));
            }
            assert forall|a: int, b: int| 0 <= a < b < staked@.len() implies staked@[a].validator@
                != staked@[b].validator@ by {
                assert(from[a] < from[b]);
                assert(list@[from[a]].key@ != list@[from[b]].key@);
            }
            assert forall|v: Seq<char>| #[trigger] m.dom().contains((address@, v)) implies exists|
                a: int,
            | 0 <= a < staked@.len() && staked@[a].validator@ == v by {
                let j = choose|j: int| 0 <= j < list@.len() && list@[j].key@ == (address@, v);
                let a = choose|a: int| 0 <= a < staked@.len() && #[trigger] from[a] == j;
                assert(staked@[a].validator@ == v);
            }
        }
        Ok(AccountResponse { staked })
    }

    /// Takes in a packet from the consumer that came over `channel_id`: a
    /// change of its validators. The change is applied and answered with
    /// success, or refused and answered with the text of
    /// `UpdateValidatorsFailed`. A channel that is not the open one is
    /// refused with `UnknownChannel`.
    pub fn ibc_packet_receive(&mut self, channel_id: &str, msg: &ConsumerMsg) -> (r: Result<
        Ack,
        ContractError,
    >)
        ensures
            match r {
                Ok(ack) => is_open_on(old(self)@.binding, channel_id@) && (match msg@ {
                    ConsumerMsgView::UpdateValidators { added, removed } => if update_fault(
                        added,
                        removed,
                    ).is_none() {
                        final(self)@ == (ProviderView {
                            validators: updated(old(self)@.validators, added, removed),
                            ..old(self)@
                        }) && ack@ == AckView::Result(AckPayloadView::Empty)
                    } else {
                        final(self)@ == old(self)@ && ack@ == AckView::Error(
                            ErrorView::UpdateValidatorsFailed.text(),
                        )
                    },
                }),
                Err(e) => !is_open_on(old(self)@.binding, channel_id@) && e@
                    == ErrorView::UnknownChannel(channel_id@) && final(self)@ == old(self)@,
            },
    {
        match self.channels.check_open(channel_id) {
            Ok(_) => {},
            Err(e) => {
                return Err(e);
            },
        }
        match msg {
            ConsumerMsg::UpdateValidators { added, removed } => {
                match self.on_update_validators(added, removed) {
                    Ok(_) => Ok(Ack::Result(AckPayload::Empty)),
                    Err(e) => Ok(Ack::Error(e.message())),
                }
            },
        }
    }

    /// Takes in the acknowledgement of the packet that was sent over
    /// `channel_id` under `sequence`. A channel that is not the open one is
    /// refused with `UnknownChannel`; the rest is [`Provider::on_ack`].
    pub fn ibc_packet_ack(&mut self, channel_id: &str, sequence: u64, ack: Ack) -> (r: Result<
        RequestState,
        ContractError,
    >)
        ensures
            match r {
                Ok(s) => callback_fault(
                    old(self)@,
                    channel_id@,
                    resolve_fault(old(self)@, sequence, OutcomeView::Ack(ack@)),
                ).is_none() && final(self)@ == resolved(
                    old(self)@,
                    sequence,
                    OutcomeView::Ack(ack@),
                ) && s == final_state(OutcomeView::Ack(ack@)),
                Err(e) => callback_fault(
                    old(self)@,
                    channel_id@,
                    resolve_fault(old(self)@, sequence, OutcomeView::Ack(ack@)),
                ) == Some(e@) && final(self)@ == old(self)@,
            },
    {
        match self.channels.check_open(channel_id) {
            Ok(_) => {},
            Err(e) => {
                return Err(e);
            },
        }
        self.on_ack(sequence, ack)
    }

    /// Takes in the timeout of the packet that was sent over `channel_id`
    /// under `sequence`. A channel that is not the open one is refused with
    /// `UnknownChannel`; the rest is [`Provider::on_timeout`].
    pub fn ibc_packet_timeout(&mut self, channel_id: &str, sequence: u64) -> (r: Result<
        RequestState,
        ContractError,
    >)
        ensures
            match r {
                Ok(s) => callback_fault(
                    old(self)@,
                    channel_id@,
                    resolve_fault(old(self)@, sequence, OutcomeView::Timeout),
                ).is_none() && final(self)@ == resolved(old(self)@, sequence, OutcomeView::Timeout)
                    && s == RequestState::TimedOut,
                Err(e) => callback_fault(
                    old(self)@,
                    channel_id@,
                    resolve_fault(old(self)@, sequence, OutcomeView::Timeout),
                ) == Some(e@) && final(self)@ == old(self)@,
            },
    {
        match self.channels.check_open(channel_id) {
            Ok(_) => {},
            Err(e) => {
                return Err(e);
            },
        }
        self.on_timeout(sequence)
    }
}

} // verus!
