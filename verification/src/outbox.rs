//! The requests that were sent and wait for their answer, by sequence.
use crate::registry::Registry;
use crate::table::TableKey;
use vstd::prelude::*;

verus! {

/// What a request asks for.
#[derive(Clone, Copy, Debug, PartialEq, Eq, Structural)]
pub enum RequestKind {
    Stake,
    Unstake,
    ListValidators,
}

/// Where a request stands. All but `Dispatched` are final.
#[derive(Clone, Copy, Debug, PartialEq, Eq, Structural)]
pub enum RequestState {
    Dispatched,
    Committed,
    Reverted,
    TimedOut,
}

/// A request that was sent.
#[derive(Clone, Debug, PartialEq, Eq)]
pub struct OutboundRequest {
    pub sequence: u64,
    pub kind: RequestKind,
    pub delegator_key: String,
    pub validator: String,
    pub amount: Option<u128>,
}

pub struct RequestView {
    pub sequence: u64,
    pub kind: RequestKind,
    pub delegator_key: Seq<char>,
    pub validator: Seq<char>,
    pub amount: Option<u128>,
}

impl View for OutboundRequest {
    type V = RequestView;

    open spec fn view(&self) -> RequestView {
        RequestView {
            sequence: self.sequence,
            kind: self.kind,
            delegator_key: self.delegator_key@,
            validator: self.validator@,
            amount: self.amount,
        }
    }
}

impl RequestView {
    /// The amount that the request moves; zero for one that names none.
    pub open spec fn owed(self) -> nat {
        match self.amount {
            Some(a) => a as nat,
            None => 0,
        }
    }
}

impl TableKey for u64 {
    fn same(&self, other: &Self) -> (r: bool) {
        *self == *other
    }

    fn duplicate(&self) -> (r: Self) {
        *self
    }
}

/// The requests that wait for their answer, and the sequence that the next
/// one will get.
pub struct OutboxView {
    pub pending: Map<u64, RequestView>,
    pub next_sequence: u64,
}

impl OutboxView {
    /// Every request that waits is held under its own sequence, and that
    /// sequence was handed out before.
    pub open spec fn sound(self) -> bool {
        forall|s: u64| #[trigger]
            self.pending.dom().contains(s) ==> s < self.next_sequence && self.pending[s].sequence
                == s
    }

    /// Whether no further sequence can be handed out.
    pub open spec fn full(self) -> bool {
        self.next_sequence == u64::MAX
    }

    /// Whether a request of the given kind, for the given delegator,
    /// validator and amount, waits under `sequence`.
    pub open spec fn waits_as(
        self,
        sequence: u64,
        kind: RequestKind,
        delegator_key: Seq<char>,
        validator: Seq<char>,
        amount: Option<u128>,
    ) -> bool {
        &&& self.pending.dom().contains(sequence)
        &&& self.pending[sequence].kind == kind
        &&& self.pending[sequence].delegator_key == delegator_key
        &&& self.pending[sequence].validator == validator
        &&& self.pending[sequence].amount == amount
    }

    /// Whether `sequence` is the lowest under which such a request waits.
    pub open spec fn is_first_waiting(
        self,
        sequence: u64,
        kind: RequestKind,
        delegator_key: Seq<char>,
        validator: Seq<char>,
        amount: Option<u128>,
    ) -> bool {
        &&& self.waits_as(sequence, kind, delegator_key, validator, amount)
        &&& forall|t: u64| #[trigger]
            self.waits_as(t, kind, delegator_key, validator, amount) ==> sequence <= t
    }

    /// The lowest sequence under which such a request waits; none where no
    /// such request waits.
    pub open spec fn first_waiting(
        self,
        kind: RequestKind,
        delegator_key: Seq<char>,
        validator: Seq<char>,
        amount: Option<u128>,
    ) -> Option<u64> {
        if exists|s: u64| self.is_first_waiting(s, kind, delegator_key, validator, amount) {
            Some(choose|s: u64| self.is_first_waiting(s, kind, delegator_key, validator, amount))
        } else {
            None
        }
    }

    /// The outbox after one more request was sent.
    pub open spec fn recorded(
        self,
        kind: RequestKind,
        delegator_key: Seq<char>,
        validator: Seq<char>,
        amount: Option<u128>,
    ) -> OutboxView {
        OutboxView {
            pending: self.pending.insert(
                self.next_sequence,
                RequestView { sequence: self.next_sequence, kind, delegator_key, validator, amount },
            ),
            next_sequence: (self.next_sequence + 1) as u64,
        }
    }

    /// The outbox after the request under `sequence` got its answer.
    pub open spec fn resolved(self, sequence: u64) -> OutboxView {
        OutboxView { pending: self.pending.remove(sequence), ..self }
    }
}

/// The lowest sequence under which a request waits is the one that
/// `first_waiting` gives.
pub proof fn lemma_first_waiting(
    o: OutboxView,
    sequence: u64,
    kind: RequestKind,
    delegator_key: Seq<char>,
    validator: Seq<char>,
    amount: Option<u128>,
)
    requires
        o.is_first_waiting(sequence, kind, delegator_key, validator, amount),
    ensures
        o.first_waiting(kind, delegator_key, validator, amount) == Some(sequence),
{
    let c = choose|s: u64| o.is_first_waiting(s, kind, delegator_key, validator, amount);
    assert(o.waits_as(c, kind, delegator_key, validator, amount));
    assert(o.waits_as(sequence, kind, delegator_key, validator, amount));
    assert(c <= sequence && sequence <= c);
}

/// Where no such request waits, `first_waiting` gives none.
pub proof fn lemma_none_waiting(
    o: OutboxView,
    kind: RequestKind,
    delegator_key: Seq<char>,
    validator: Seq<char>,
    amount: Option<u128>,
)
    requires
        forall|t: u64| !#[trigger] o.waits_as(t, kind, delegator_key, validator, amount),
    ensures
        o.first_waiting(kind, delegator_key, validator, amount).is_none(),
{
    assert forall|s: u64| !o.is_first_waiting(s, kind, delegator_key, validator, amount) by {
        assert(!o.waits_as(s, kind, delegator_key, validator, amount));
    }
}

spec fn request_views(m: Map<u64, OutboundRequest>) -> Map<u64, RequestView> {
    Map::new(|s: u64| m.dom().contains(s), |s: u64| m[s]@)
}

/// Records each request under the sequence it was sent with. Sequences start
/// at one, rise by one and are never handed out twice.
pub struct Outbox {
    pending: Registry<u64, OutboundRequest>,
    next_sequence: u64,
}

impl View for Outbox {
    type V = OutboxView;

    closed spec fn view(&self) -> OutboxView {
        OutboxView { pending: request_views(self.pending@), next_sequence: self.next_sequence }
    }
}

impl Outbox {
    #[verifier::type_invariant]
    spec fn well_formed(self) -> bool {
        forall|s: u64| #[trigger]
            self.pending@.dom().contains(s) ==> s < self.next_sequence && self.pending@[s].sequence
                == s
    }

    /// An outbox in which nothing waits.
    pub fn new() -> (o: Self)
        ensures
            o@ == (OutboxView { pending: Map::empty(), next_sequence: 1 }),
    {
        let o = Outbox { pending: Registry::new(), next_sequence: 1 };
        assert(o@.pending =~= Map::<u64, RequestView>::empty());
        o
    }

    /// What holds of every outbox.
    pub fn bounds(&self)
        ensures
            self@.sound(),
    {
        proof {
            use_type_invariant(self);
        }
    }

    /// Whether no further sequence can be handed out.
    pub fn is_full(&self) -> (f: bool)
        ensures
            f == self@.full(),
    {
        self.next_sequence == u64::MAX
    }

    /// The sequence that the next request will get.
    pub fn next_sequence(&self) -> (s: u64)
        ensures
            s == self@.next_sequence,
    {
        self.next_sequence
    }

    /// Records a request under the next sequence and hands that sequence
    /// out; `None`, with nothing recorded, where the sequences are used up.
    pub fn record(
        &mut self,
        kind: RequestKind,
        delegator_key: &str,
        validator: &str,
        amount: Option<u128>,
    ) -> (r: Option<u64>)
        ensures
            match r {
                Some(s) => !old(self)@.full() && s == old(self)@.next_sequence && final(self)@
                    == old(self)@.recorded(kind, delegator_key@, validator@, amount),
                None => old(self)@.full() && final(self)@ == old(self)@,
            },
    {
        proof {
            use_type_invariant(&*self);
        }
        if self.next_sequence == u64::MAX {
            return None;
        }
        let mut taken = Outbox { pending: Registry::new(), next_sequence: 0 };
        std::mem::swap(self, &mut taken);
        let Outbox { pending, next_sequence } = taken;
        let mut pending = pending;
        let ghost before = pending@;
        let request = OutboundRequest {
            sequence: next_sequence,
            kind,
            delegator_key: delegator_key.to_owned(),
            validator: validator.to_owned(),
            amount,
        };
        let ghost view = request@;
        pending.insert(next_sequence, request);
        proof {
            assert(request_views(pending@) =~= request_views(before).insert(next_sequence, view));
        }
        *self = Outbox { pending, next_sequence: next_sequence + 1 };
        Some(next_sequence)
    }

    /// The request that waits under `sequence`, if there is one.
    pub fn peek(&self, sequence: u64) -> (r: Option<OutboundRequest>)
        ensures
            match r {
                Some(q) => self@.pending.dom().contains(sequence) && q@ == self@.pending[sequence],
                None => !self@.pending.dom().contains(sequence),
            },
    {
        match self.pending.get(&sequence) {
            Some(q) => Some(
                OutboundRequest {
                    sequence: q.sequence,
                    kind: q.kind,
                    delegator_key: q.delegator_key.clone(),
                    validator: q.validator.clone(),
                    amount: q.amount,
                },
            ),
            None => None,
        }
    }

    /// The lowest sequence under which a request of the given kind, for the
    /// given delegator, validator and amount, waits.
    pub fn find_waiting(
        &self,
        kind: RequestKind,
        delegator_key: &str,
        validator: &str,
        amount: Option<u128>,
    ) -> (r: Option<u64>)
        ensures
            r == self@.first_waiting(kind, delegator_key@, validator@, amount),
            r matches Some(s) ==> self@.is_first_waiting(
                s,
                kind,
                delegator_key@,
                validator@,
                amount,
            ),
            r.is_none() ==> forall|t: u64|
                !#[trigger] self@.waits_as(t, kind, delegator_key@, validator@, amount),
    {
        let keys = self.pending.keys();
        let delegator_owned = delegator_key.to_owned();
        let validator_owned = validator.to_owned();
        let mut best: Option<u64> = None;
        let mut i: usize = 0;
        while i < keys.len()
            invariant
                i <= keys@.len(),
                delegator_owned@ == delegator_key@,
                validator_owned@ == validator@,
                forall|j: int| 0 <= j < keys@.len() ==> self.pending@.dom().contains(
                    #[trigger] keys@[j],
                ),
                best matches Some(b) ==> self@.waits_as(
                    b,
                    kind,
                    delegator_key@,
                    validator@,
                    amount,
                ),
                forall|j: int|
                    0 <= j < i && self@.waits_as(
                        #[trigger] keys@[j],
                        kind,
                        delegator_key@,
                        validator@,
                        amount,
                    ) ==> best.is_some() && best.unwrap() <= keys@[j],
            decreases keys@.len() - i,
        {
            let s = keys[i];
            match self.pending.get(&s) {
                Some(q) => {
                    let same_amount = match (q.amount, amount) {
                        (Some(a), Some(b)) => a == b,
                        (None, None) => true,
                        _ => false,
                    };
                    if q.kind == kind && q.delegator_key == delegator_owned && q.validator
                        == validator_owned && same_amount {
                        best = match best {
                            Some(b) => if s < b {
                                Some(s)
                            } else {
                                Some(b)
                            },
                            None => Some(s),
                        };
                    }
                },
                None => {},
            }
            i = i + 1;
        }
        proof {
            assert forall|t: u64| #[trigger]
                self@.waits_as(t, kind, delegator_key@, validator@, amount) implies best.is_some()
                && best.unwrap() <= t by {
                assert(self.pending@.dom().contains(t));
                let j = choose|j: int| 0 <= j < keys@.len() && keys@[j]@ == t;
                assert(keys@[j] == t);
            }
            if best.is_some() {
                let b = best.unwrap();
                assert(self@.is_first_waiting(b, kind, delegator_key@, validator@, amount));
                let c = choose|s: u64|
                    self@.is_first_waiting(s, kind, delegator_key@, validator@, amount);
                assert(self@.waits_as(c, kind, delegator_key@, validator@, amount));
                assert(c <= b && b <= c);
            } else {
                assert forall|s: u64| !self@.is_first_waiting(
                    s,
                    kind,
                    delegator_key@,
                    validator@,
                    amount,
                ) by {
                    if self@.waits_as(s, kind, delegator_key@, validator@, amount) {
                    }
                }
            }
        }
        best
    }

    /// Takes the request under `sequence` out of the outbox, if there is
    /// one: it has got its answer.
    pub fn resolve(&mut self, sequence: u64) -> (r: Option<OutboundRequest>)
        ensures
            match r {
                Some(q) => old(self)@.pending.dom().contains(sequence) && q@
                    == old(self)@.pending[sequence],
                None => !old(self)@.pending.dom().contains(sequence),
            },
            final(self)@ == old(self)@.resolved(sequence),
    {
        proof {
            use_type_invariant(&*self);
        }
        let mut taken = Outbox { pending: Registry::new(), next_sequence: 0 };
        std::mem::swap(self, &mut taken);
        let Outbox { pending, next_sequence } = taken;
        let mut pending = pending;
        let ghost before = pending@;
        let found = pending.remove(&sequence);
        proof {
            assert(request_views(pending@) =~= request_views(before).remove(sequence));
        }
        *self = Outbox { pending, next_sequence };
        found
    }
}

} // verus!
