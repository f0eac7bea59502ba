//! The messages that cross the channel, and their acknowledgements.
use crate::validators::texts;
use vstd::prelude::*;

verus! {

/// What the provider asks of the consumer.
#[derive(Clone, Debug, PartialEq, Eq)]
pub enum ProviderMsg {
    Stake { key: String, amount: u128, validator: String },
    Unstake { key: String, amount: u128, validator: String },
    ListValidators {  },
}

/// What the consumer tells the provider.
#[derive(Clone, Debug, PartialEq, Eq)]
pub enum ConsumerMsg {
    UpdateValidators { added: Vec<String>, removed: Vec<String> },
}

/// What a successful acknowledgement carries: nothing, or the full list of
/// the validators that are active.
#[derive(Clone, Debug, PartialEq, Eq)]
pub enum AckPayload {
    Empty,
    Validators(Vec<String>),
}

/// The answer to a packet: success with a payload, or an error with its
/// text.
#[derive(Clone, Debug, PartialEq, Eq)]
pub enum Ack {
    Result(AckPayload),
    Error(String),
}

/// How a request ends for the one that sent it: with an acknowledgement, or
/// with no answer within the packet's lifetime.
#[derive(Clone, Debug, PartialEq, Eq)]
pub enum Outcome {
    Ack(Ack),
    Timeout,
}

/// A packet from the provider as it is handed to the transport.
#[derive(Clone, Debug, PartialEq, Eq)]
pub struct ProviderPacket {
    pub channel_id: String,
    pub sequence: u64,
    pub data: ProviderMsg,
    /// The seconds after which the transport gives the packet up.
    pub lifetime: u64,
}

/// A packet from the consumer as it is handed to the transport.
#[derive(Clone, Debug, PartialEq, Eq)]
pub struct ConsumerPacket {
    pub channel_id: String,
    pub data: ConsumerMsg,
    /// The seconds after which the transport gives the packet up.
    pub lifetime: u64,
}

pub enum ProviderMsgView {
    Stake { key: Seq<char>, amount: nat, validator: Seq<char> },
    Unstake { key: Seq<char>, amount: nat, validator: Seq<char> },
    ListValidators,
}

pub enum ConsumerMsgView {
    UpdateValidators { added: Seq<Seq<char>>, removed: Seq<Seq<char>> },
}

pub enum AckPayloadView {
    Empty,
    Validators(Seq<Seq<char>>),
}

pub enum AckView {
    Result(AckPayloadView),
    Error(Seq<char>),
}

pub enum OutcomeView {
    Ack(AckView),
    Timeout,
}

pub struct ProviderPacketView {
    pub channel_id: Seq<char>,
    pub sequence: u64,
    pub data: ProviderMsgView,
    pub lifetime: u64,
}

pub struct ConsumerPacketView {
    pub channel_id: Seq<char>,
    pub data: ConsumerMsgView,
    pub lifetime: u64,
}

impl View for ProviderMsg {
    type V = ProviderMsgView;

    open spec fn view(&self) -> ProviderMsgView {
        match self {
            ProviderMsg::Stake { key, amount, validator } => ProviderMsgView::Stake {
                key: key@,
                amount: *amount as nat,
                validator: validator@,
            },
            ProviderMsg::Unstake { key, amount, validator } => ProviderMsgView::Unstake {
                key: key@,
                amount: *amount as nat,
                validator: validator@,
            },
            ProviderMsg::ListValidators {  } => ProviderMsgView::ListValidators,
        }
    }
}

impl View for ConsumerMsg {
    type V = ConsumerMsgView;

    open spec fn view(&self) -> ConsumerMsgView {
        match self {
            ConsumerMsg::UpdateValidators { added, removed } => ConsumerMsgView::UpdateValidators {
                added: texts(added@),
                removed: texts(removed@),
            },
        }
    }
}

impl View for AckPayload {
    type V = AckPayloadView;

    open spec fn view(&self) -> AckPayloadView {
        match self {
            AckPayload::Empty => AckPayloadView::Empty,
            AckPayload::Validators(list) => AckPayloadView::Validators(texts(list@)),
        }
    }
}

impl View for Ack {
    type V = AckView;

    open spec fn view(&self) -> AckView {
        match self {
            Ack::Result(p) => AckView::Result(p@),
            Ack::Error(text) => AckView::Error(text@),
        }
    }
}

impl View for Outcome {
    type V = OutcomeView;

    open spec fn view(&self) -> OutcomeView {
        match self {
            Outcome::Ack(a) => OutcomeView::Ack(a@),
            Outcome::Timeout => OutcomeView::Timeout,
        }
    }
}

impl View for ProviderPacket {
    type V = ProviderPacketView;

    open spec fn view(&self) -> ProviderPacketView {
        ProviderPacketView {
            channel_id: self.channel_id@,
            sequence: self.sequence,
            data: self.data@,
            lifetime: self.lifetime,
        }
    }
}

impl View for ConsumerPacket {
    type V = ConsumerPacketView;

    open spec fn view(&self) -> ConsumerPacketView {
        ConsumerPacketView { channel_id: self.channel_id@, data: self.data@, lifetime: self.lifetime }
    }
}

impl OutcomeView {
    /// Whether the request was accepted by the other side.
    pub open spec fn succeeded(self) -> bool {
        self matches OutcomeView::Ack(AckView::Result(_))
    }
}

} // verus!
