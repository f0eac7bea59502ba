//! The calls that the meta-staking contract takes, each checked against its
//! sender before it reaches the ledger.
use crate::decimal::Decimal;
use crate::error::{ContractError, ErrorView};
use crate::ledger::{
    delegate_fault, delegated, fresh_allocation, lemma_step_sound, register_fault,
    registered_with, remove_fault, removed, undelegate_fault, undelegated, withdrawn, LedgerOp,
    LedgerView, MetaStaking, Settlement,
};
use crate::sums::{amount_in, lemma_sum_empty};
use crate::table::lists;
use vstd::prelude::*;

verus! {

/// The denomination of the pool's tokens.
pub const NATIVE_DENOM: &'static str = "ujuno";

/// Why a privileged call is refused, if it is: for a sender that does not
/// administer the ledger, or else for what the ledger itself objects.
pub open spec fn sudo_fault(l: LedgerView, sender: Seq<char>, inner: Option<ErrorView>) -> Option<
    ErrorView,
> {
    if sender != l.admin {
        Some(ErrorView::Unauthorized)
    } else {
        inner
    }
}

/// A registration by the administrator, of a consumer that is not
/// registered and with funds that the pool still has, is accepted. The new
/// record holds the funds, no delegation and no reward, so its delegations
/// sum to zero; every other record is as before, and the ledger stays sound.
pub proof fn lemma_registration(l: LedgerView, sender: Seq<char>, consumer: Seq<char>, funds: nat)
    requires
        l.sound(),
        sender == l.admin,
        !l.registered(consumer),
        funds <= l.unallocated,
    ensures
        sudo_fault(l, sender, register_fault(l, consumer, funds)).is_none(),
        registered_with(l, consumer, funds).registered(consumer),
        registered_with(l, consumer, funds).consumers[consumer] == fresh_allocation(funds),
        fresh_allocation(funds).available_funds == funds,
        fresh_allocation(funds).staked() == 0,
        fresh_allocation(funds).pending() == 0,
        forall|c: Seq<char>|
            c != consumer ==> registered_with(l, consumer, funds).registered(c) == l.registered(c)
                && (l.registered(c) ==> #[trigger] registered_with(l, consumer, funds).consumers[c]
                == l.consumers[c]),
        registered_with(l, consumer, funds).unallocated == l.unallocated - funds,
        registered_with(l, consumer, funds).sound(),
{
    lemma_sum_empty::<Seq<char>>();
    lemma_step_sound(l, LedgerOp::Register { consumer, funds });
}

/// Any other sender than the administrator is refused, and the ledger stays
/// as it is.
pub proof fn lemma_registration_unauthorized(
    l: LedgerView,
    sender: Seq<char>,
    consumer: Seq<char>,
    funds: nat,
)
    requires
        sender != l.admin,
    ensures
        sudo_fault(l, sender, register_fault(l, consumer, funds)) == Some(ErrorView::Unauthorized),
{
}

/// Registers a consumer with funds earmarked for it. Only the ledger's
/// administrator may do so.
pub fn add_consumer(
    staking: &mut MetaStaking,
    sender: &str,
    consumer_addr: &str,
    funds_available: u128,
) -> (r: Result<(), ContractError>)
    ensures
        match r {
            Ok(_) => sudo_fault(
                old(staking)@,
                sender@,
                register_fault(old(staking)@, consumer_addr@, funds_available as nat),
            ).is_none() && final(staking)@ == registered_with(
                old(staking)@,
                consumer_addr@,
                funds_available as nat,
            ),
            Err(e) => sudo_fault(
                old(staking)@,
                sender@,
                register_fault(old(staking)@, consumer_addr@, funds_available as nat),
            ) == Some(e@) && final(staking)@ == old(staking)@,
        },
{
    if !staking.is_admin(sender) {
        return Err(ContractError::Unauthorized {  });
    }
    staking.register_consumer(consumer_addr, funds_available)
}

/// Removes a consumer. Only the ledger's administrator may do so.
pub fn remove_consumer(staking: &mut MetaStaking, sender: &str, consumer_addr: &str) -> (r: Result<
    Settlement,
    ContractError,
>)
    ensures
        match r {
            Ok(s) => sudo_fault(
                old(staking)@,
                sender@,
                remove_fault(old(staking)@, consumer_addr@),
            ).is_none() && final(staking)@ == removed(old(staking)@, consumer_addr@) && s.released
                == old(staking)@.consumers[consumer_addr@].available_funds && lists(
                old(staking)@.consumers[consumer_addr@].delegations,
                s.undelegated@,
            ) && s.rewards.atomics == old(staking)@.consumers[consumer_addr@].pending(),
            Err(e) => sudo_fault(
                old(staking)@,
                sender@,
                remove_fault(old(staking)@, consumer_addr@),
            ) == Some(e@) && final(staking)@ == old(staking)@,
        },
{
    if !staking.is_admin(sender) {
        return Err(ContractError::Unauthorized {  });
    }
    staking.remove_consumer(consumer_addr)
}

/// Delegates `amount` of the sender's earmarked funds to a validator. The
/// sender is the consumer.
pub fn delegate(staking: &mut MetaStaking, sender: &str, validator: &str, amount: u128) -> (r:
    Result<(), ContractError>)
    ensures
        match r {
            Ok(_) => delegate_fault(old(staking)@, sender@, amount as nat).is_none()
                && final(staking)@ == delegated(old(staking)@, sender@, validator@, amount as nat),
            Err(e) => delegate_fault(old(staking)@, sender@, amount as nat) == Some(e@)
                && final(staking)@ == old(staking)@,
        },
{
    staking.delegate(sender, validator, amount)
}

/// Takes `amount` back from what the sender has delegated to a validator.
/// The sender is the consumer.
pub fn undelegate(staking: &mut MetaStaking, sender: &str, validator: &str, amount: u128) -> (r:
    Result<(), ContractError>)
    ensures
        match r {
            Ok(_) => undelegate_fault(old(staking)@, sender@, validator@, amount as nat).is_none()
                && final(staking)@ == undelegated(
                old(staking)@,
                sender@,
                validator@,
                amount as nat,
            ),
            Err(e) => undelegate_fault(old(staking)@, sender@, validator@, amount as nat) == Some(
                e@,
            ) && final(staking)@ == old(staking)@,
        },
{
    staking.undelegate(sender, validator, amount)
}

/// Hands out the reward that waits for the sender from one validator, and
/// clears it. The sender is the consumer.
pub fn withdraw_rewards(staking: &mut MetaStaking, sender: &str, validator: &str) -> (r: Result<
    Decimal,
    ContractError,
>)
    ensures
        match r {
            Ok(d) => remove_fault(old(staking)@, sender@).is_none() && d.atomics == amount_in(
                old(staking)@.consumers[sender@].rewards,
                validator@,
            ) && final(staking)@ == withdrawn(old(staking)@, sender@, validator@),
            Err(e) => remove_fault(old(staking)@, sender@) == Some(e@) && final(staking)@ == old(staking)@,
        },
{
    staking.withdraw_reward(sender, validator)
}

} // verus!
