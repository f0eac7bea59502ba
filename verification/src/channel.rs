//! The single channel that binds a contract to its counterparty, and the
//! handshake that opens it.
use crate::error::{ContractError, ErrorView, MeshSecurityError};
use vstd::prelude::*;

verus! {

/// The protocol's version string.
pub open spec fn app_version() -> Seq<char> {
    "mesh-security-v0.1"@
}

/// The protocol's version string.
pub fn ibc_app_version() -> (v: &'static str)
    ensures
        v@ == app_version(),
{
    "mesh-security-v0.1"
}

/// Where a channel stands in its life.
#[derive(Clone, Copy, Debug, PartialEq, Eq, Structural)]
pub enum ChannelState {
    Uninitialized,
    Open,
    Closed,
}

/// Whether packets on a channel keep their order.
#[derive(Clone, Copy, Debug, PartialEq, Eq, Structural)]
pub enum IbcOrder {
    Unordered,
    Ordered,
}

/// One end of a channel.
#[derive(Clone, Debug, PartialEq, Eq)]
pub struct IbcEndpoint {
    pub port_id: String,
    pub channel_id: String,
}

/// The parameters of a channel, as a handshake step presents them.
#[derive(Clone, Debug, PartialEq, Eq)]
pub struct IbcChannel {
    pub endpoint: IbcEndpoint,
    pub counterparty_endpoint: IbcEndpoint,
    pub order: IbcOrder,
    pub version: String,
    pub connection_id: String,
}

/// The channel a contract is bound to.
#[derive(Clone, Debug, PartialEq, Eq)]
pub struct Channel {
    pub channel_id: String,
    pub connection_id: String,
    pub port_id: String,
    pub negotiated_version: String,
    pub state: ChannelState,
}

pub struct EndpointView {
    pub port_id: Seq<char>,
    pub channel_id: Seq<char>,
}

pub struct IbcChannelView {
    pub endpoint: EndpointView,
    pub counterparty_endpoint: EndpointView,
    pub order: IbcOrder,
    pub version: Seq<char>,
    pub connection_id: Seq<char>,
}

pub struct ChannelView {
    pub channel_id: Seq<char>,
    pub connection_id: Seq<char>,
    pub port_id: Seq<char>,
    pub negotiated_version: Seq<char>,
    pub state: ChannelState,
}

/// A contract's binding: the counterparty it awaits and the channel it has.
pub struct BindingView {
    pub connection: Seq<char>,
    pub port: Option<Seq<char>>,
    pub channel: ChannelView,
}

impl View for IbcEndpoint {
    type V = EndpointView;

    open spec fn view(&self) -> EndpointView {
        EndpointView { port_id: self.port_id@, channel_id: self.channel_id@ }
    }
}

impl View for IbcChannel {
    type V = IbcChannelView;

    open spec fn view(&self) -> IbcChannelView {
        IbcChannelView {
            endpoint: self.endpoint@,
            counterparty_endpoint: self.counterparty_endpoint@,
            order: self.order,
            version: self.version@,
            connection_id: self.connection_id@,
        }
    }
}

impl View for Channel {
    type V = ChannelView;

    open spec fn view(&self) -> ChannelView {
        ChannelView {
            channel_id: self.channel_id@,
            connection_id: self.connection_id@,
            port_id: self.port_id@,
            negotiated_version: self.negotiated_version@,
            state: self.state,
        }
    }
}

/// The channel of a contract that has none yet.
pub open spec fn no_channel() -> ChannelView {
    ChannelView {
        channel_id: Seq::empty(),
        connection_id: Seq::empty(),
        port_id: Seq::empty(),
        negotiated_version: Seq::empty(),
        state: ChannelState::Uninitialized,
    }
}

/// Why a handshake step with the given parameters is refused, if it is:
/// first for a channel that exists, then for the wrong connection, the wrong
/// port, the wrong order and the wrong version.
pub open spec fn handshake_fault(b: BindingView, p: IbcChannelView) -> Option<ErrorView> {
    if b.channel.state != ChannelState::Uninitialized {
        Some(ErrorView::ChannelExists(b.channel.channel_id))
    } else if p.connection_id != b.connection {
        Some(ErrorView::WrongConnection(b.connection))
    } else if b.port.is_some() && p.counterparty_endpoint.port_id != b.port.unwrap() {
        Some(ErrorView::WrongPort(b.port.unwrap()))
    } else if p.order != IbcOrder::Unordered {
        Some(ErrorView::MeshSecurity(MeshSecurityError::InvalidChannelOrder))
    } else if p.version != app_version() {
        Some(ErrorView::MeshSecurity(MeshSecurityError::InvalidChannelVersion))
    } else {
        None
    }
}

/// Why an attempt to open is refused, if it is.
pub open spec fn open_fault(
    b: BindingView,
    p: IbcChannelView,
    counterparty_version: Option<Seq<char>>,
) -> Option<ErrorView> {
    if handshake_fault(b, p).is_some() {
        handshake_fault(b, p)
    } else if counterparty_version.is_some() && counterparty_version.unwrap() != app_version() {
        Some(ErrorView::MeshSecurity(MeshSecurityError::InvalidChannelVersion))
    } else {
        None
    }
}

/// Why an attempt to connect is refused, if it is.
pub open spec fn connect_fault(
    b: BindingView,
    p: IbcChannelView,
    counterparty_version: Option<Seq<char>>,
) -> Option<ErrorView> {
    open_fault(b, p, counterparty_version)
}

/// The text of a string that may be absent.
pub open spec fn text_of(s: Option<&str>) -> Option<Seq<char>> {
    match s {
        Some(c) => Some(c@),
        None => None,
    }
}

/// The binding after a connect that was not refused.
pub open spec fn connected(b: BindingView, p: IbcChannelView) -> BindingView {
    BindingView {
        channel: ChannelView {
            channel_id: p.endpoint.channel_id,
            connection_id: p.connection_id,
            port_id: p.counterparty_endpoint.port_id,
            negotiated_version: app_version(),
            state: ChannelState::Open,
        },
        ..b
    }
}

/// Whether `channel_id` names the channel that is open.
pub open spec fn is_open_on(b: BindingView, channel_id: Seq<char>) -> bool {
    b.channel.state == ChannelState::Open && b.channel.channel_id == channel_id
}

/// The binding after its channel was closed.
pub open spec fn closed(b: BindingView) -> BindingView {
    BindingView { channel: ChannelView { state: ChannelState::Closed, ..b.channel }, ..b }
}

/// Owns the one channel of a contract and checks every handshake step
/// against the counterparty that the contract awaits.
pub struct ChannelManager {
    connection: String,
    port: Option<String>,
    channel: Channel,
}

impl View for ChannelManager {
    type V = BindingView;

    closed spec fn view(&self) -> BindingView {
        BindingView {
            connection: self.connection@,
            port: match self.port {
                Some(p) => Some(p@),
                None => None,
            },
            channel: self.channel@,
        }
    }
}

impl ChannelManager {
    /// A manager without a channel, which awaits the given connection and,
    /// where one is given, the given counterparty port.
    pub fn new(connection_id: &str, port_id: Option<String>) -> (m: Self)
        ensures
            m@.connection == connection_id@,
            m@.port == match port_id {
                Some(p) => Some(p@),
                None => None,
            },
            m@.channel == no_channel(),
    {
        ChannelManager {
            connection: connection_id.to_owned(),
            port: port_id,
            channel: Channel {
                channel_id: String::new(),
                connection_id: String::new(),
                port_id: String::new(),
                negotiated_version: String::new(),
                state: ChannelState::Uninitialized,
            },
        }
    }

    /// Where the channel stands.
    pub fn state(&self) -> (s: ChannelState)
        ensures
            s == self@.channel.state,
    {
        self.channel.state
    }

    /// The channel as it is recorded.
    pub fn channel(&self) -> (c: Channel)
        ensures
            c@ == self@.channel,
    {
        Channel {
            channel_id: self.channel.channel_id.clone(),
            connection_id: self.channel.connection_id.clone(),
            port_id: self.channel.port_id.clone(),
            negotiated_version: self.channel.negotiated_version.clone(),
            state: self.channel.state,
        }
    }

    fn check_handshake(&self, params: &IbcChannel) -> (r: Result<(), ContractError>)
        ensures
            match r {
                Ok(_) => handshake_fault(self@, params@).is_none(),
                Err(e) => handshake_fault(self@, params@) == Some(e@),
            },
    {
        if self.channel.state != ChannelState::Uninitialized {
            return Err(ContractError::ChannelExists(self.channel.channel_id.clone()));
        }
        if params.connection_id != self.connection {
            return Err(ContractError::WrongConnection(self.connection.clone()));
        }
        match &self.port {
            Some(port) => {
                if params.counterparty_endpoint.port_id != *port {
                    return Err(ContractError::WrongPort(port.clone()));
                }
            },
            None => {},
        }
        if params.order != IbcOrder::Unordered {
            return Err(ContractError::MeshSecurity(MeshSecurityError::InvalidChannelOrder));
        }
        if params.version != ibc_app_version().to_owned() {
            return Err(ContractError::MeshSecurity(MeshSecurityError::InvalidChannelVersion));
        }
        Ok(())
    }

    /// Checks an attempt to open a channel. Where it is accepted the result
    /// is the version that the contract speaks. Nothing is recorded yet.
    pub fn open(&self, params: &IbcChannel, counterparty_version: Option<&str>) -> (r: Result<
        Option<String>,
        ContractError,
    >)
        ensures
            match r {
                Ok(v) => open_fault(self@, params@, text_of(counterparty_version)).is_none()
                    && v.is_some() && v.unwrap()@ == app_version(),
                Err(e) => open_fault(self@, params@, text_of(counterparty_version)) == Some(e@),
            },
    {
        match self.check_handshake(params) {
            Ok(_) => {},
            Err(e) => {
                return Err(e);
            },
        }
        match counterparty_version {
            Some(c) => {
                if c.to_owned() != ibc_app_version().to_owned() {
                    return Err(
                        ContractError::MeshSecurity(MeshSecurityError::InvalidChannelVersion),
                    );
                }
            },
            None => {},
        }
        Ok(Some(ibc_app_version().to_owned()))
    }

    /// Completes the handshake: where the attempt is accepted the channel is
    /// recorded as open, and where it is refused nothing changes.
    pub fn connect(&mut self, params: &IbcChannel, counterparty_version: Option<&str>) -> (r:
        Result<(), ContractError>)
        ensures
            match r {
                Ok(_) => connect_fault(old(self)@, params@, text_of(counterparty_version)).is_none()
                    && final(self)@ == connected(old(self)@, params@),
                Err(e) => connect_fault(old(self)@, params@, text_of(counterparty_version))
                    == Some(e@) && final(self)@ == old(self)@,
            },
    {
        match self.open(params, counterparty_version) {
            Ok(_) => {},
            Err(e) => {
                return Err(e);
            },
        }
        self.channel = Channel {
            channel_id: params.endpoint.channel_id.clone(),
            connection_id: params.connection_id.clone(),
            port_id: params.counterparty_endpoint.port_id.clone(),
            negotiated_version: ibc_app_version().to_owned(),
            state: ChannelState::Open,
        };
        Ok(())
    }

    /// Tells whether `channel_id` names the open channel, and refuses it
    /// with `UnknownChannel` where it does not.
    pub fn check_open(&self, channel_id: &str) -> (r: Result<(), ContractError>)
        ensures
            match r {
                Ok(_) => is_open_on(self@, channel_id@),
                Err(e) => !is_open_on(self@, channel_id@) && e@ == ErrorView::UnknownChannel(
                    channel_id@,
                ),
            },
    {
        if self.channel.state == ChannelState::Open && self.channel.channel_id
            == channel_id.to_owned() {
            Ok(())
        } else {
            Err(ContractError::UnknownChannel(channel_id.to_owned()))
        }
    }

    /// Closes the open channel. A channel that is not the open one is
    /// refused with `UnknownChannel`, and nothing changes.
    pub fn close(&mut self, params: &IbcChannel) -> (r: Result<(), ContractError>)
        ensures
            match r {
                Ok(_) => is_open_on(old(self)@, params@.endpoint.channel_id) && final(self)@
                    == closed(old(self)@),
                Err(e) => !is_open_on(old(self)@, params@.endpoint.channel_id) && e@
                    == ErrorView::UnknownChannel(params@.endpoint.channel_id) && final(self)@
                    == old(self)@,
            },
    {
        match self.check_open(params.endpoint.channel_id.as_str()) {
            Ok(_) => {},
            Err(e) => {
                return Err(e);
            },
        }
        self.channel.state = ChannelState::Closed;
        Ok(())
    }
}

/// One step in the life of a channel, as the transport asks for it: an
/// attempt to open, an attempt to connect, or a close.
pub enum Attempt {
    Open(IbcChannelView, Option<Seq<char>>),
    Connect(IbcChannelView, Option<Seq<char>>),
    Close(IbcChannelView),
}

/// Why a step is refused in a given binding, if it is.
pub open spec fn attempt_fault(b: BindingView, a: Attempt) -> Option<ErrorView> {
    match a {
        Attempt::Open(p, v) => open_fault(b, p, v),
        Attempt::Connect(p, v) => connect_fault(b, p, v),
        Attempt::Close(p) => if is_open_on(b, p.endpoint.channel_id) {
            None
        } else {
            Some(ErrorView::UnknownChannel(p.endpoint.channel_id))
        },
    }
}

/// The binding after a step: changed where a connect or a close is
/// accepted, and as it was otherwise.
pub open spec fn after_attempt(b: BindingView, a: Attempt) -> BindingView {
    if attempt_fault(b, a).is_some() {
        b
    } else {
        match a {
            Attempt::Open(_, _) => b,
            Attempt::Connect(p, _) => connected(b, p),
            Attempt::Close(_) => closed(b),
        }
    }
}

/// The binding after a sequence of steps.
pub open spec fn after_attempts(b: BindingView, attempts: Seq<Attempt>) -> BindingView
    decreases attempts.len(),
{
    if attempts.len() == 0 {
        b
    } else {
        after_attempt(after_attempts(b, attempts.drop_last()), attempts.last())
    }
}

/// Whether the step at position `i` of a sequence binds the channel.
pub open spec fn binds_at(b: BindingView, attempts: Seq<Attempt>, i: int) -> bool {
    attempts[i] is Connect && attempt_fault(after_attempts(b, attempts.take(i)), attempts[i]).is_none()
}

/// Once a channel exists, no sequence of steps replaces it: it stays the
/// same channel, open or closed.
pub proof fn lemma_bound_stays(b: BindingView, attempts: Seq<Attempt>)
    requires
        b.channel.state != ChannelState::Uninitialized,
    ensures
        after_attempts(b, attempts).channel.state != ChannelState::Uninitialized,
        after_attempts(b, attempts).channel.channel_id == b.channel.channel_id,
        after_attempts(b, attempts).channel.connection_id == b.channel.connection_id,
        after_attempts(b, attempts).channel.port_id == b.channel.port_id,
    decreases attempts.len(),
{
    if attempts.len() > 0 {
        lemma_bound_stays(b, attempts.drop_last());
    }
}

/// Single channel: in any sequence of steps at most one binds the channel,
/// and every attempt to open or to connect after it is refused with
/// `ChannelExists`, naming the channel that was bound. A close in between
/// does not change that.
pub proof fn lemma_single_channel(b: BindingView, attempts: Seq<Attempt>, i: int, j: int)
    requires
        0 <= i < j < attempts.len(),
        binds_at(b, attempts, i),
    ensures
        !binds_at(b, attempts, j),
        after_attempts(b, attempts.take(j)).channel.state != ChannelState::Uninitialized,
        !(attempts[j] is Close) ==> attempt_fault(
            after_attempts(b, attempts.take(j)),
            attempts[j],
        ) == Some(
            ErrorView::ChannelExists(after_attempts(b, attempts.take(i + 1)).channel.channel_id),
        ),
{
    let upto = attempts.take(i + 1);
    assert(upto.drop_last() =~= attempts.take(i));
    assert(upto.last() == attempts[i]);
    let bound = after_attempts(b, upto);
    assert(bound.channel.state == ChannelState::Open);
    lemma_after_split(b, attempts.take(j), i + 1);
    assert(attempts.take(j).take(i + 1) =~= upto);
    lemma_bound_stays(bound, attempts.take(j).skip(i + 1));
}

/// Running a sequence of attempts is running its first part and then the
/// rest.
pub proof fn lemma_after_split(b: BindingView, attempts: Seq<Attempt>, k: int)
    requires
        0 <= k <= attempts.len(),
    ensures
        after_attempts(b, attempts) == after_attempts(
            after_attempts(b, attempts.take(k)),
            attempts.skip(k),
        ),
    decreases attempts.len(),
{
    if k == attempts.len() {
        assert(attempts.take(k) =~= attempts);
        assert(attempts.skip(k) =~= Seq::<Attempt>::empty());
    } else {
        lemma_after_split(b, attempts.drop_last(), k);
        assert(attempts.drop_last().take(k) =~= attempts.take(k));
        assert(attempts.skip(k).drop_last() =~= attempts.drop_last().skip(k));
        assert(attempts.skip(k).last() == attempts.last());
    }
}

/// A binding that awaits no port refuses no handshake for its port, whatever
/// port the counterparty has.
pub proof fn lemma_no_port_awaited(b: BindingView, p: IbcChannelView, version: Option<Seq<char>>)
    requires
        b.port.is_none(),
    ensures
        !(open_fault(b, p, version) matches Some(ErrorView::WrongPort(_))),
        !(connect_fault(b, p, version) matches Some(ErrorView::WrongPort(_))),
{
}

/// A binding that awaits a port refuses a connect from any other port with
/// `WrongPort`, as long as no channel exists and the connection is right.
pub proof fn lemma_wrong_port(b: BindingView, p: IbcChannelView, version: Option<Seq<char>>)
    requires
        b.channel.state == ChannelState::Uninitialized,
        p.connection_id == b.connection,
        b.port.is_some(),
        p.counterparty_endpoint.port_id != b.port.unwrap(),
    ensures
        connect_fault(b, p, version) == Some(ErrorView::WrongPort(b.port.unwrap())),
        after_attempt(b, Attempt::Connect(p, version)) == b,
{
}

/// A connect that names another connection than the awaited one is refused
/// with `WrongConnection` as long as no channel exists.
pub proof fn lemma_wrong_connection(b: BindingView, p: IbcChannelView, version: Option<Seq<char>>)
    requires
        b.channel.state == ChannelState::Uninitialized,
        p.connection_id != b.connection,
    ensures
        connect_fault(b, p, version) == Some(ErrorView::WrongConnection(b.connection)),
        after_attempt(b, Attempt::Connect(p, version)) == b,
{
}

} // verus!
