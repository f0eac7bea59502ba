//! The meta-staking ledger: a pool of native stake, parts of which are
//! earmarked for registered consumers and delegated to validators on their
//! behalf.
use crate::decimal::{floor_of_product, lemma_share_bounded, Decimal, DECIMAL_FRACTIONAL};
use crate::error::{ContractError, ErrorView};
use crate::registry::Registry;
use crate::sums::{
    amount_in, credited, debited, lemma_credited, lemma_debited, lemma_sum_bounds,
    lemma_sum_empty, lemma_sum_insert, lemma_sum_remove, positive, sum_of,
};
use crate::table::{lists, AmountTable, Holding};
use vstd::prelude::*;

verus! {

/// What the ledger holds for one consumer.
pub struct AllocationView {
    /// The funds earmarked for the consumer.
    pub available_funds: nat,
    /// What is delegated on its behalf, by validator.
    pub delegations: Map<Seq<char>, nat>,
    /// The rewards that wait for it, by validator, in atomic units.
    pub rewards: Map<Seq<char>, nat>,
}

/// The ledger: who administers it, what part of the pool is earmarked for
/// nobody, and the allocation of each registered consumer.
pub struct LedgerView {
    pub admin: Seq<char>,
    pub unallocated: nat,
    pub consumers: Map<Seq<char>, AllocationView>,
}

impl AllocationView {
    /// The sum of the consumer's delegations.
    pub open spec fn staked(self) -> nat {
        sum_of(self.delegations)
    }

    /// The sum of the rewards that wait for the consumer, in atomic units.
    pub open spec fn pending(self) -> nat {
        sum_of(self.rewards)
    }

    /// What of the earmarked funds is not delegated.
    pub open spec fn remaining(self) -> nat {
        (self.available_funds - self.staked()) as nat
    }

    /// The allocation is sound: its tables are finite and hold no zero
    /// amount, and the delegations sum to no more than the earmarked funds.
    pub open spec fn sound(self) -> bool {
        &&& self.delegations.dom().finite()
        &&& self.rewards.dom().finite()
        &&& positive(self.delegations)
        &&& positive(self.rewards)
        &&& self.staked() <= self.available_funds
        &&& self.pending() <= u128::MAX
    }
}

impl LedgerView {
    /// Whether the consumer is registered.
    pub open spec fn registered(self, consumer: Seq<char>) -> bool {
        self.consumers.dom().contains(consumer)
    }

    /// Every allocation is sound.
    pub open spec fn sound(self) -> bool {
        forall|c: Seq<char>| self.registered(c) ==> (#[trigger] self.consumers[c]).sound()
    }

    /// The ledger with one allocation written.
    pub open spec fn with(self, consumer: Seq<char>, a: AllocationView) -> LedgerView {
        LedgerView { consumers: self.consumers.insert(consumer, a), ..self }
    }
}

/// The allocation of a consumer that was just registered.
pub open spec fn fresh_allocation(funds: nat) -> AllocationView {
    AllocationView { available_funds: funds, delegations: Map::empty(), rewards: Map::empty() }
}

/// Why a registration is refused, if it is.
pub open spec fn register_fault(l: LedgerView, consumer: Seq<char>, funds: nat) -> Option<
    ErrorView,
> {
    if l.registered(consumer) {
        Some(ErrorView::ConsumerAlreadyExists)
    } else if funds > l.unallocated {
        Some(ErrorView::NotEnoughFunds)
    } else {
        None
    }
}

/// The ledger after a registration.
pub open spec fn registered_with(l: LedgerView, consumer: Seq<char>, funds: nat) -> LedgerView {
    LedgerView {
        unallocated: (l.unallocated - funds) as nat,
        consumers: l.consumers.insert(consumer, fresh_allocation(funds)),
        ..l
    }
}

/// Why a removal is refused, if it is.
pub open spec fn remove_fault(l: LedgerView, consumer: Seq<char>) -> Option<ErrorView> {
    if !l.registered(consumer) {
        Some(ErrorView::NoConsumer)
    } else {
        None
    }
}

/// The ledger after a removal: the consumer is gone and its earmarked funds
/// are earmarked for nobody.
pub open spec fn removed(l: LedgerView, consumer: Seq<char>) -> LedgerView {
    LedgerView {
        unallocated: l.unallocated + l.consumers[consumer].available_funds,
        consumers: l.consumers.remove(consumer),
        ..l
    }
}

/// Why a delegation is refused, if it is.
pub open spec fn delegate_fault(l: LedgerView, consumer: Seq<char>, amount: nat) -> Option<
    ErrorView,
> {
    if !l.registered(consumer) {
        Some(ErrorView::NoConsumer)
    } else if amount > l.consumers[consumer].remaining() {
        Some(ErrorView::NotEnoughFunds)
    } else {
        None
    }
}

/// The ledger after a delegation.
pub open spec fn delegated(
    l: LedgerView,
    consumer: Seq<char>,
    validator: Seq<char>,
    amount: nat,
) -> LedgerView {
    let a = l.consumers[consumer];
    l.with(consumer, AllocationView { delegations: credited(a.delegations, validator, amount), ..a })
}

/// Why an undelegation is refused, if it is.
pub open spec fn undelegate_fault(
    l: LedgerView,
    consumer: Seq<char>,
    validator: Seq<char>,
    amount: nat,
) -> Option<ErrorView> {
    if !l.registered(consumer) {
        Some(ErrorView::NoConsumer)
    } else if amount > amount_in(l.consumers[consumer].delegations, validator) {
        Some(ErrorView::InsufficientDelegation)
    } else {
        None
    }
}

/// The ledger after an undelegation.
pub open spec fn undelegated(
    l: LedgerView,
    consumer: Seq<char>,
    validator: Seq<char>,
    amount: nat,
) -> LedgerView {
    let a = l.consumers[consumer];
    l.with(consumer, AllocationView { delegations: debited(a.delegations, validator, amount), ..a })
}

/// The text of the error for a slash of more than the whole.
pub open spec fn slash_range_text() -> Seq<char> {
    "slash percentage exceeds one"@
}

/// Why a slash is refused, if it is.
pub open spec fn slash_fault(l: LedgerView, consumer: Seq<char>, percentage: nat) -> Option<
    ErrorView,
> {
    if !l.registered(consumer) {
        Some(ErrorView::NoConsumer)
    } else if percentage > DECIMAL_FRACTIONAL {
        Some(ErrorView::CustomError(slash_range_text()))
    } else {
        None
    }
}

/// What a slash takes: the share `percentage` of the delegation, rounded
/// down.
pub open spec fn slash_cut(
    l: LedgerView,
    consumer: Seq<char>,
    validator: Seq<char>,
    percentage: nat,
) -> nat {
    floor_of_product(amount_in(l.consumers[consumer].delegations, validator), percentage)
}

/// The ledger after a slash: what is taken leaves both the delegation and
/// the earmarked funds.
pub open spec fn slashed(
    l: LedgerView,
    consumer: Seq<char>,
    validator: Seq<char>,
    percentage: nat,
) -> LedgerView {
    let a = l.consumers[consumer];
    let s = slash_cut(l, consumer, validator, percentage);
    l.with(
        consumer,
        AllocationView {
            available_funds: (a.available_funds - s) as nat,
            delegations: debited(a.delegations, validator, s),
            ..a
        },
    )
}

/// Why a reward is not taken in, if it is not.
pub open spec fn accrue_fault(l: LedgerView, consumer: Seq<char>, reward: nat) -> Option<
    ErrorView,
> {
    if !l.registered(consumer) {
        Some(ErrorView::NoConsumer)
    } else if l.consumers[consumer].pending() + reward > u128::MAX {
        Some(ErrorView::Std)
    } else {
        None
    }
}

/// The ledger after a reward was taken in.
pub open spec fn accrued(
    l: LedgerView,
    consumer: Seq<char>,
    validator: Seq<char>,
    reward: nat,
) -> LedgerView {
    let a = l.consumers[consumer];
    l.with(consumer, AllocationView { rewards: credited(a.rewards, validator, reward), ..a })
}

/// The ledger after the reward of one validator was withdrawn.
pub open spec fn withdrawn(l: LedgerView, consumer: Seq<char>, validator: Seq<char>) -> LedgerView {
    let a = l.consumers[consumer];
    l.with(consumer, AllocationView { rewards: a.rewards.remove(validator), ..a })
}

/// One operation on the ledger.
pub enum LedgerOp {
    Register { consumer: Seq<char>, funds: nat },
    Remove { consumer: Seq<char> },
    Delegate { consumer: Seq<char>, validator: Seq<char>, amount: nat },
    Undelegate { consumer: Seq<char>, validator: Seq<char>, amount: nat },
    Slash { consumer: Seq<char>, validator: Seq<char>, percentage: nat },
    Accrue { consumer: Seq<char>, validator: Seq<char>, reward: nat },
    Withdraw { consumer: Seq<char>, validator: Seq<char> },
}

/// Why an operation is refused, if it is.
pub open spec fn op_fault(l: LedgerView, op: LedgerOp) -> Option<ErrorView> {
    match op {
        LedgerOp::Register { consumer, funds } => register_fault(l, consumer, funds),
        LedgerOp::Remove { consumer } => remove_fault(l, consumer),
        LedgerOp::Delegate { consumer, validator, amount } => delegate_fault(l, consumer, amount),
        LedgerOp::Undelegate { consumer, validator, amount } => undelegate_fault(
            l,
            consumer,
            validator,
            amount,
        ),
        LedgerOp::Slash { consumer, validator, percentage } => slash_fault(l, consumer, percentage),
        LedgerOp::Accrue { consumer, validator, reward } => accrue_fault(l, consumer, reward),
        LedgerOp::Withdraw { consumer, validator } => remove_fault(l, consumer),
    }
}

/// The ledger after an operation: changed as the operation says where it is
/// accepted, unchanged where it is refused.
pub open spec fn step(l: LedgerView, op: LedgerOp) -> LedgerView {
    if op_fault(l, op).is_some() {
        l
    } else {
        match op {
            LedgerOp::Register { consumer, funds } => registered_with(l, consumer, funds),
            LedgerOp::Remove { consumer } => removed(l, consumer),
            LedgerOp::Delegate { consumer, validator, amount } => delegated(
                l,
                consumer,
                validator,
                amount,
            ),
            LedgerOp::Undelegate { consumer, validator, amount } => undelegated(
                l,
                consumer,
                validator,
                amount,
            ),
            LedgerOp::Slash { consumer, validator, percentage } => slashed(
                l,
                consumer,
                validator,
                percentage,
            ),
            LedgerOp::Accrue { consumer, validator, reward } => accrued(
                l,
                consumer,
                validator,
                reward,
            ),
            LedgerOp::Withdraw { consumer, validator } => withdrawn(l, consumer, validator),
        }
    }
}

/// The ledger after a sequence of operations.
pub open spec fn run(l: LedgerView, ops: Seq<LedgerOp>) -> LedgerView
    decreases ops.len(),
{
    if ops.len() == 0 {
        l
    } else {
        step(run(l, ops.drop_last()), ops.last())
    }
}

/// Every operation keeps a sound ledger sound: whatever is registered,
/// delegated, undelegated, slashed or removed, each consumer's delegations
/// sum to no more than its earmarked funds.
pub proof fn lemma_step_sound(l: LedgerView, op: LedgerOp)
    requires
        l.sound(),
    ensures
        step(l, op).sound(),
{
    if op_fault(l, op).is_none() {
        let n = step(l, op);
        match op {
            LedgerOp::Register { consumer, funds } => {
                lemma_sum_empty::<Seq<char>>();
                assert(fresh_allocation(funds).sound());
                assert forall|c: Seq<char>| n.registered(c) implies (#[trigger] n.consumers[c]).sound() by {
                    if c != consumer {
                        assert(l.consumers[c].sound());
                    }
                }
            },
            LedgerOp::Remove { consumer } => {
                assert forall|c: Seq<char>| n.registered(c) implies (#[trigger] n.consumers[c]).sound() by {
                    assert(l.consumers[c].sound());
                }
            },
            LedgerOp::Delegate { consumer, validator, amount } => {
                let a = l.consumers[consumer];
                assert(a.sound());
                lemma_credited(a.delegations, validator, amount);
                assert forall|c: Seq<char>| n.registered(c) implies (#[trigger] n.consumers[c]).sound() by {
                    if c != consumer {
                        assert(l.consumers[c].sound());
                    }
                }
            },
            LedgerOp::Undelegate { consumer, validator, amount } => {
                let a = l.consumers[consumer];
                assert(a.sound());
                lemma_debited(a.delegations, validator, amount);
                assert forall|c: Seq<char>| n.registered(c) implies (#[trigger] n.consumers[c]).sound() by {
                    if c != consumer {
                        assert(l.consumers[c].sound());
                    }
                }
            },
            LedgerOp::Slash { consumer, validator, percentage } => {
                let a = l.consumers[consumer];
                assert(a.sound());
                let s = slash_cut(l, consumer, validator, percentage);
                lemma_share_bounded(amount_in(a.delegations, validator), percentage);
                lemma_sum_bounds(a.delegations, validator);
                lemma_debited(a.delegations, validator, s);
                assert forall|c: Seq<char>| n.registered(c) implies (#[trigger] n.consumers[c]).sound() by {
                    if c != consumer {
                        assert(l.consumers[c].sound());
                    }
                }
            },
            LedgerOp::Accrue { consumer, validator, reward } => {
                let a = l.consumers[consumer];
                assert(a.sound());
                lemma_credited(a.rewards, validator, reward);
                assert forall|c: Seq<char>| n.registered(c) implies (#[trigger] n.consumers[c]).sound() by {
                    if c != consumer {
                        assert(l.consumers[c].sound());
                    }
                }
            },
            LedgerOp::Withdraw { consumer, validator } => {
                let a = l.consumers[consumer];
                assert(a.sound());
                lemma_debited(a.rewards, validator, amount_in(a.rewards, validator));
                assert(a.rewards.remove(validator) =~= debited(
                    a.rewards,
                    validator,
                    amount_in(a.rewards, validator),
                ));
                assert forall|c: Seq<char>| n.registered(c) implies (#[trigger] n.consumers[c]).sound() by {
                    if c != consumer {
                        assert(l.consumers[c].sound());
                    }
                }
            },
        }
    }
}

/// Ledger conservation: after any sequence of operations on a sound ledger,
/// the delegations of every registered consumer sum to no more than the
/// funds earmarked for it.
pub proof fn lemma_conservation(l: LedgerView, ops: Seq<LedgerOp>)
    requires
        l.sound(),
    ensures
        run(l, ops).sound(),
        forall|c: Seq<char>|
            run(l, ops).registered(c) ==> (#[trigger] run(l, ops).consumers[c]).staked() <= run(
                l,
                ops,
            ).consumers[c].available_funds,
    decreases ops.len(),
{
    if ops.len() > 0 {
        lemma_conservation(l, ops.drop_last());
        lemma_step_sound(run(l, ops.drop_last()), ops.last());
    }
    assert forall|c: Seq<char>| run(l, ops).registered(c) implies (#[trigger] run(
        l,
        ops,
    ).consumers[c]).staked() <= run(l, ops).consumers[c].available_funds by {
        assert(run(l, ops).consumers[c].sound());
    }
}

/// A delegation that is undone leaves the ledger as it was.
pub proof fn lemma_delegate_undone(
    l: LedgerView,
    consumer: Seq<char>,
    validator: Seq<char>,
    amount: nat,
)
    requires
        l.sound(),
        delegate_fault(l, consumer, amount).is_none(),
    ensures
        undelegate_fault(delegated(l, consumer, validator, amount), consumer, validator, amount).is_none(),
        undelegated(delegated(l, consumer, validator, amount), consumer, validator, amount) == l,
{
    let a = l.consumers[consumer];
    assert(a.sound());
    let d = delegated(l, consumer, validator, amount);
    lemma_credited(a.delegations, validator, amount);
    crate::sums::lemma_credit_then_debit(a.delegations, validator, amount);
    let u = undelegated(d, consumer, validator, amount);
    assert(u.consumers =~= l.consumers);
}

/// An undelegation that is undone leaves the ledger as it was.
pub proof fn lemma_undelegate_undone(
    l: LedgerView,
    consumer: Seq<char>,
    validator: Seq<char>,
    amount: nat,
)
    requires
        l.sound(),
        undelegate_fault(l, consumer, validator, amount).is_none(),
    ensures
        delegate_fault(undelegated(l, consumer, validator, amount), consumer, amount).is_none(),
        delegated(undelegated(l, consumer, validator, amount), consumer, validator, amount) == l,
{
    let a = l.consumers[consumer];
    assert(a.sound());
    lemma_debited(a.delegations, validator, amount);
    crate::sums::lemma_debit_then_credit(a.delegations, validator, amount);
    let u = undelegated(l, consumer, validator, amount);
    let d = delegated(u, consumer, validator, amount);
    assert(d.consumers =~= l.consumers);
}


struct ConsumerAllocation {
    available_funds: u128,
    delegations: AmountTable<String>,
    rewards: AmountTable<String>,
}

impl View for ConsumerAllocation {
    type V = AllocationView;

    closed spec fn view(&self) -> AllocationView {
        AllocationView {
            available_funds: self.available_funds as nat,
            delegations: self.delegations@,
            rewards: self.rewards@,
        }
    }
}

spec fn views(m: Map<Seq<char>, ConsumerAllocation>) -> Map<Seq<char>, AllocationView> {
    Map::new(|k: Seq<char>| m.dom().contains(k), |k: Seq<char>| m[k]@)
}

spec fn grants(m: Map<Seq<char>, ConsumerAllocation>) -> Map<Seq<char>, nat> {
    Map::new(|k: Seq<char>| m.dom().contains(k), |k: Seq<char>| m[k].available_funds as nat)
}

/// The rewards that wait for a consumer.
#[derive(Clone, Copy, Debug, PartialEq, Eq)]
pub struct ConsumerRewards {
    pub pending: Decimal,
}

/// What the ledger tells of one consumer.
#[derive(Clone, Copy, Debug, PartialEq, Eq)]
pub struct ConsumerInfo {
    pub available_funds: u128,
    pub total_staked: u128,
    pub rewards: ConsumerRewards,
}

/// What a removed consumer leaves behind: the funds that were earmarked for
/// it, the delegations that were made on its behalf, and the rewards that
/// waited for it.
#[derive(Debug, PartialEq, Eq)]
pub struct Settlement {
    pub released: u128,
    pub undelegated: Vec<Holding<String>>,
    pub rewards: Decimal,
}

/// The meta-staking ledger.
pub struct MetaStaking {
    admin: String,
    unallocated: u128,
    granted: u128,
    consumers: Registry<String, ConsumerAllocation>,
}

impl View for MetaStaking {
    type V = LedgerView;

    closed spec fn view(&self) -> LedgerView {
        LedgerView {
            admin: self.admin@,
            unallocated: self.unallocated as nat,
            consumers: views(self.consumers@),
        }
    }
}

impl MetaStaking {
    #[verifier::type_invariant]
    spec fn well_formed(self) -> bool {
        &&& self.consumers@.dom().finite()
        &&& forall|c: Seq<char>|
            self.consumers@.dom().contains(c) ==> (#[trigger] self.consumers@[c])@.sound()
        &&& self.granted == sum_of(grants(self.consumers@))
        &&& self.unallocated + self.granted <= u128::MAX
    }

    spec fn headroom(&self) -> int {
        u128::MAX - self.unallocated - self.granted
    }

    fn hollow() -> (s: Self)
        ensures
            s.consumers@ == Map::<Seq<char>, ConsumerAllocation>::empty(),
    {
        let consumers: Registry<String, ConsumerAllocation> = Registry::new();
        proof {
            assert(grants(consumers@) =~= Map::<Seq<char>, nat>::empty());
            lemma_sum_empty::<Seq<char>>();
        }
        MetaStaking { admin: String::new(), unallocated: 0, granted: 0, consumers }
    }

    /// A ledger over a pool of `pool` tokens, none of them earmarked, which
    /// `admin` administers.
    pub fn new(admin: &str, pool: u128) -> (s: Self)
        ensures
            s@ == (LedgerView { admin: admin@, unallocated: pool as nat, consumers: Map::empty() }),
    {
        let consumers: Registry<String, ConsumerAllocation> = Registry::new();
        proof {
            assert(grants(consumers@) =~= Map::<Seq<char>, nat>::empty());
            assert(views(consumers@) =~= Map::<Seq<char>, AllocationView>::empty());
            lemma_sum_empty::<Seq<char>>();
        }
        MetaStaking { admin: admin.to_owned(), unallocated: pool, granted: 0, consumers }
    }

    /// What holds of every ledger: it is sound, so the delegations of each
    /// consumer sum to no more than the funds earmarked for it.
    pub fn bounds(&self)
        ensures
            self@.sound(),
    {
        proof {
            use_type_invariant(self);
        }
    }

    fn checkout(&mut self, key: &String) -> (r: Option<ConsumerAllocation>)
        ensures
            old(self).headroom() >= 0,
            match r {
                Some(a) => old(self)@.registered(key@) && a@ == old(self)@.consumers[key@]
                    && a@.sound() && final(self)@ == (LedgerView {
                    consumers: old(self)@.consumers.remove(key@),
                    ..old(self)@
                }) && final(self).headroom() == old(self).headroom() + a.available_funds,
                None => !old(self)@.registered(key@) && final(self)@ == old(self)@
                    && final(self).headroom() == old(self).headroom(),
            },
    {
        proof {
            use_type_invariant(&*self);
        }
        if !self.consumers.contains(key) {
            return None;
        }
        let mut taken = MetaStaking::hollow();
        std::mem::swap(self, &mut taken);
        let MetaStaking { admin, unallocated, granted, consumers } = taken;
        let mut consumers = consumers;
        let ghost before = consumers@;
        let found = consumers.remove(key);
        consumers.bounds();
        proof {
            assert(grants(before).dom() =~= before.dom());
            assert(grants(consumers@) =~= grants(before).remove(key@));
            lemma_sum_remove(grants(before), key@);
            assert(views(consumers@) =~= views(before).remove(key@));
        }
        match found {
            Some(a) => {
                *self = MetaStaking {
                    admin,
                    unallocated,
                    granted: granted - a.available_funds,
                    consumers,
                };
                Some(a)
            },
            None => {
                *self = MetaStaking { admin, unallocated, granted, consumers };
                None
            },
        }
    }

    fn checkin(&mut self, key: String, alloc: ConsumerAllocation)
        requires
            !old(self)@.registered(key@),
            alloc@.sound(),
            alloc.available_funds <= old(self).headroom(),
        ensures
            final(self)@ == old(self)@.with(key@, alloc@),
            final(self).headroom() == old(self).headroom() - alloc.available_funds,
    {
        proof {
            use_type_invariant(&*self);
        }
        let mut taken = MetaStaking::hollow();
        std::mem::swap(self, &mut taken);
        let MetaStaking { admin, unallocated, granted, consumers } = taken;
        let mut consumers = consumers;
        let ghost before = consumers@;
        let ghost k = key@;
        let funds = alloc.available_funds;
        consumers.insert(key, alloc);
        consumers.bounds();
        proof {
            assert(grants(before).dom() =~= before.dom());
            assert(grants(consumers@) =~= grants(before).insert(k, funds as nat));
            lemma_sum_insert(grants(before), k, funds as nat);
            assert(views(consumers@) =~= views(before).insert(k, alloc@));
        }
        *self = MetaStaking { admin, unallocated, granted: granted + funds, consumers };
    }

    fn set_unallocated(&mut self, value: u128)
        requires
            value - old(self)@.unallocated <= old(self).headroom(),
        ensures
            final(self)@ == (LedgerView { unallocated: value as nat, ..old(self)@ }),
            final(self).headroom() == old(self).headroom() - (value - old(self)@.unallocated),
    {
        proof {
            use_type_invariant(&*self);
        }
        self.unallocated = value;
    }

    /// The part of the pool that is earmarked for nobody.
    pub fn unallocated(&self) -> (u: u128)
        ensures
            u == self@.unallocated,
    {
        self.unallocated
    }

    /// Whether `sender` administers the ledger.
    pub fn is_admin(&self, sender: &str) -> (r: bool)
        ensures
            r == (sender@ == self@.admin),
    {
        self.admin == sender.to_owned()
    }

    /// Whether the consumer is registered.
    pub fn is_registered(&self, consumer: &str) -> (r: bool)
        ensures
            r == self@.registered(consumer@),
    {
        let key = consumer.to_owned();
        self.consumers.contains(&key)
    }

    /// Registers a consumer and earmarks `funds` of the pool for it.
    pub fn register_consumer(&mut self, consumer: &str, funds: u128) -> (r: Result<
        (),
        ContractError,
    >)
        ensures
            match r {
                Ok(_) => register_fault(old(self)@, consumer@, funds as nat).is_none()
                    && final(self)@ == registered_with(old(self)@, consumer@, funds as nat),
                Err(e) => register_fault(old(self)@, consumer@, funds as nat) == Some(e@)
                    && final(self)@ == old(self)@,
            },
    {
        proof {
            use_type_invariant(&*self);
        }
        let key = consumer.to_owned();
        if self.consumers.contains(&key) {
            return Err(ContractError::ConsumerAlreadyExists {  });
        }
        if funds > self.unallocated {
            return Err(ContractError::NotEnoughFunds {  });
        }
        let rest = self.unallocated - funds;
        self.set_unallocated(rest);
        let alloc = ConsumerAllocation {
            available_funds: funds,
            delegations: AmountTable::new(),
            rewards: AmountTable::new(),
        };
        proof {
            lemma_sum_empty::<Seq<char>>();
            assert(alloc@ == fresh_allocation(funds as nat));
        }
        self.checkin(key, alloc);
        Ok(())
    }

    /// Removes a consumer, whatever it still holds. Its delegations and its
    /// rewards go with it and are handed out, and the funds that were
    /// earmarked for it are earmarked for nobody.
    pub fn remove_consumer(&mut self, consumer: &str) -> (r: Result<Settlement, ContractError>)
        ensures
            match r {
                Ok(s) => remove_fault(old(self)@, consumer@).is_none() && final(self)@ == removed(
                    old(self)@,
                    consumer@,
                ) && s.released == old(self)@.consumers[consumer@].available_funds && lists(
                    old(self)@.consumers[consumer@].delegations,
                    s.undelegated@,
                ) && s.rewards.atomics == old(self)@.consumers[consumer@].pending(),
                Err(e) => remove_fault(old(self)@, consumer@) == Some(e@) && final(self)@ == old(self)@,
            },
    {
        let key = consumer.to_owned();
        let alloc = match self.checkout(&key) {
            Some(a) => a,
            None => {
                return Err(ContractError::NoConsumer {  });
            },
        };
        let back = self.unallocated + alloc.available_funds;
        self.set_unallocated(back);
        let undelegated = alloc.delegations.holdings();
        let pending = alloc.rewards.total();
        Ok(Settlement { released: alloc.available_funds, undelegated, rewards: Decimal::raw(pending) })
    }

    /// Delegates `amount` of a consumer's earmarked funds to a validator.
    pub fn delegate(&mut self, consumer: &str, validator: &str, amount: u128) -> (r: Result<
        (),
        ContractError,
    >)
        ensures
            match r {
                Ok(_) => delegate_fault(old(self)@, consumer@, amount as nat).is_none()
                    && final(self)@ == delegated(old(self)@, consumer@, validator@, amount as nat),
                Err(e) => delegate_fault(old(self)@, consumer@, amount as nat) == Some(e@)
                    && final(self)@ == old(self)@,
            },
    {
        let key = consumer.to_owned();
        let mut alloc = match self.checkout(&key) {
            Some(a) => a,
            None => {
                return Err(ContractError::NoConsumer {  });
            },
        };
        let staked = alloc.delegations.total();
        if amount > alloc.available_funds - staked {
            self.checkin(key, alloc);
            assert(self@.consumers =~= old(self)@.consumers);
            return Err(ContractError::NotEnoughFunds {  });
        }
        let target = validator.to_owned();
        let ghost held = alloc.delegations@;
        let _ = alloc.delegations.credit(&target, amount);
        proof {
            lemma_credited(held, validator@, amount as nat);
        }
        self.checkin(key, alloc);
        assert(self@.consumers =~= delegated(
            old(self)@,
            consumer@,
            validator@,
            amount as nat,
        ).consumers);
        Ok(())
    }

    /// Takes `amount` back from what is delegated to a validator on a
    /// consumer's behalf; it returns to the consumer's earmarked funds.
    pub fn undelegate(&mut self, consumer: &str, validator: &str, amount: u128) -> (r: Result<
        (),
        ContractError,
    >)
        ensures
            match r {
                Ok(_) => undelegate_fault(old(self)@, consumer@, validator@, amount as nat).is_none()
                    && final(self)@ == undelegated(
                    old(self)@,
                    consumer@,
                    validator@,
                    amount as nat,
                ),
                Err(e) => undelegate_fault(old(self)@, consumer@, validator@, amount as nat)
                    == Some(e@) && final(self)@ == old(self)@,
            },
    {
        let key = consumer.to_owned();
        let mut alloc = match self.checkout(&key) {
            Some(a) => a,
            None => {
                return Err(ContractError::NoConsumer {  });
            },
        };
        let target = validator.to_owned();
        let ghost held = alloc.delegations@;
        let done = alloc.delegations.debit(&target, amount);
        if !done {
            self.checkin(key, alloc);
            assert(self@.consumers =~= old(self)@.consumers);
            return Err(ContractError::InsufficientDelegation {  });
        }
        proof {
            lemma_debited(held, validator@, amount as nat);
        }
        self.checkin(key, alloc);
        assert(self@.consumers =~= undelegated(
            old(self)@,
            consumer@,
            validator@,
            amount as nat,
        ).consumers);
        Ok(())
    }

    /// Slashes what a consumer has delegated to a validator by the share
    /// `percentage`, rounded down, and hands out the amount taken. It leaves
    /// the delegation and the consumer's earmarked funds alike.
    pub fn slash(&mut self, consumer: &str, validator: &str, percentage: Decimal) -> (r: Result<
        u128,
        ContractError,
    >)
        ensures
            match r {
                Ok(s) => slash_fault(old(self)@, consumer@, percentage.atomics as nat).is_none()
                    && s == slash_cut(
                    old(self)@,
                    consumer@,
                    validator@,
                    percentage.atomics as nat,
                ) && final(self)@ == slashed(
                    old(self)@,
                    consumer@,
                    validator@,
                    percentage.atomics as nat,
                ),
                Err(e) => slash_fault(old(self)@, consumer@, percentage.atomics as nat) == Some(e@)
                    && final(self)@ == old(self)@,
            },
    {
        let key = consumer.to_owned();
        let mut alloc = match self.checkout(&key) {
            Some(a) => a,
            None => {
                return Err(ContractError::NoConsumer {  });
            },
        };
        if !percentage.is_fraction() {
            self.checkin(key, alloc);
            assert(self@.consumers =~= old(self)@.consumers);
            return Err(ContractError::CustomError { val: "slash percentage exceeds one".to_owned() });
        }
        let target = validator.to_owned();
        let ghost held = alloc.delegations@;
        let amount = alloc.delegations.get(&target);
        let taken = percentage.share_of(amount);
        proof {
            lemma_sum_bounds(held, validator@);
            lemma_debited(held, validator@, taken as nat);
        }
        let _ = alloc.delegations.debit(&target, taken);
        alloc.available_funds = alloc.available_funds - taken;
        self.checkin(key, alloc);
        assert(self@.consumers =~= slashed(
            old(self)@,
            consumer@,
            validator@,
            percentage.atomics as nat,
        ).consumers);
        Ok(taken)
    }

    /// Takes in a reward that a validator paid for a consumer. It waits in
    /// the ledger until it is withdrawn.
    pub fn accrue_reward(&mut self, consumer: &str, validator: &str, reward: Decimal) -> (r: Result<
        (),
        ContractError,
    >)
        ensures
            match r {
                Ok(_) => accrue_fault(old(self)@, consumer@, reward.atomics as nat).is_none()
                    && final(self)@ == accrued(
                    old(self)@,
                    consumer@,
                    validator@,
                    reward.atomics as nat,
                ),
                Err(e) => accrue_fault(old(self)@, consumer@, reward.atomics as nat) == Some(e@)
                    && final(self)@ == old(self)@,
            },
    {
        let key = consumer.to_owned();
        let mut alloc = match self.checkout(&key) {
            Some(a) => a,
            None => {
                return Err(ContractError::NoConsumer {  });
            },
        };
        let pending = Decimal::raw(alloc.rewards.total());
        match pending.checked_add(reward) {
            Ok(_) => {},
            Err(e) => {
                self.checkin(key, alloc);
                assert(self@.consumers =~= old(self)@.consumers);
                return Err(ContractError::Std(e));
            },
        }
        let target = validator.to_owned();
        let ghost held = alloc.rewards@;
        let _ = alloc.rewards.credit(&target, reward.atomics());
        proof {
            lemma_credited(held, validator@, reward.atomics as nat);
        }
        self.checkin(key, alloc);
        assert(self@.consumers =~= accrued(
            old(self)@,
            consumer@,
            validator@,
            reward.atomics as nat,
        ).consumers);
        Ok(())
    }

    /// Hands out the reward that waits for a consumer from one validator,
    /// and clears it.
    pub fn withdraw_reward(&mut self, consumer: &str, validator: &str) -> (r: Result<
        Decimal,
        ContractError,
    >)
        ensures
            match r {
                Ok(d) => remove_fault(old(self)@, consumer@).is_none() && d.atomics == amount_in(
                    old(self)@.consumers[consumer@].rewards,
                    validator@,
                ) && final(self)@ == withdrawn(old(self)@, consumer@, validator@),
                Err(e) => remove_fault(old(self)@, consumer@) == Some(e@) && final(self)@ == old(self)@,
            },
    {
        let key = consumer.to_owned();
        let mut alloc = match self.checkout(&key) {
            Some(a) => a,
            None => {
                return Err(ContractError::NoConsumer {  });
            },
        };
        let target = validator.to_owned();
        let ghost held = alloc.rewards@;
        let reward = alloc.rewards.take(&target);
        proof {
            lemma_debited(held, validator@, reward as nat);
            assert(held.remove(validator@) =~= debited(held, validator@, reward as nat));
        }
        self.checkin(key, alloc);
        assert(self@.consumers =~= withdrawn(old(self)@, consumer@, validator@).consumers);
        Ok(Decimal::raw(reward))
    }

    /// What the ledger holds for a consumer.
    pub fn query_consumer(&self, consumer: &str) -> (r: Result<ConsumerInfo, ContractError>)
        ensures
            match r {
                Ok(info) => self@.registered(consumer@) && info.available_funds
                    == self@.consumers[consumer@].available_funds && info.total_staked
                    == self@.consumers[consumer@].staked() && info.rewards.pending.atomics
                    == self@.consumers[consumer@].pending() && info.total_staked
                    <= info.available_funds,
                Err(e) => !self@.registered(consumer@) && e@ == ErrorView::NoConsumer,
            },
    {
        proof {
            use_type_invariant(self);
        }
        let key = consumer.to_owned();
        match self.consumers.get(&key) {
            Some(a) => {
                assert(a@.sound());
                Ok(
                    ConsumerInfo {
                        available_funds: a.available_funds,
                        total_staked: a.delegations.total(),
                        rewards: ConsumerRewards { pending: Decimal::raw(a.rewards.total()) },
                    },
                )
            },
            None => Err(ContractError::NoConsumer {  }),
        }
    }

    /// What is delegated to a validator on a consumer's behalf; zero for a
    /// consumer that is not registered.
    pub fn delegation(&self, consumer: &str, validator: &str) -> (a: u128)
        ensures
            a == if self@.registered(consumer@) {
                amount_in(self@.consumers[consumer@].delegations, validator@)
            } else {
                0
            },
    {
        let key = consumer.to_owned();
        match self.consumers.get(&key) {
            Some(alloc) => {
                let target = validator.to_owned();
                alloc.delegations.get(&target)
            },
            None => 0,
        }
    }
}

} // verus!
