//! The errors that the contracts report.
use vstd::prelude::*;
use vstd::string::*;

verus! {

/// `cosmwasm_std::StdError`, carried through as it is: nothing inside it is
/// read here.
#[verifier::external_type_specification]
#[verifier::external_body]
pub struct ExStdError(cosmwasm_std::StdError);

/// A handshake parameter that the protocol does not accept.
#[derive(Clone, Copy, Debug, PartialEq, Eq, Structural)]
pub enum MeshSecurityError {
    /// The channel is not unordered.
    InvalidChannelOrder,
    /// A version string is not the protocol's.
    InvalidChannelVersion,
}

/// Every way in which an operation of the contracts can fail.
#[derive(Debug, PartialEq)]
pub enum ContractError {
    Std(cosmwasm_std::StdError),
    MeshSecurity(MeshSecurityError),
    Unauthorized {},
    ProviderAddrParsing {},
    /// A channel is already bound; holds its identifier.
    ChannelExists(String),
    /// Holds the connection that the contract awaits.
    WrongConnection(String),
    /// Holds the port that the contract awaits.
    WrongPort(String),
    /// Holds the channel that was named but is not the open one.
    UnknownChannel(String),
    CustomError { val: String },
    AckFailed {},
    RewardsFailed {},
    UpdateValidatorsFailed {},
    ConsumerAlreadyExists {},
    NotEnoughFunds {},
    NoConsumer {},
    /// More was to be taken from a delegation than it holds.
    InsufficientDelegation {},
    /// Holds the validator that is not known.
    UnknownValidator(String),
}

/// A [`ContractError`] with its texts as sequences of characters. The
/// standard error inside `Std` is not modelled.
pub enum ErrorView {
    Std,
    MeshSecurity(MeshSecurityError),
    Unauthorized,
    ProviderAddrParsing,
    ChannelExists(Seq<char>),
    WrongConnection(Seq<char>),
    WrongPort(Seq<char>),
    UnknownChannel(Seq<char>),
    CustomError(Seq<char>),
    AckFailed,
    RewardsFailed,
    UpdateValidatorsFailed,
    ConsumerAlreadyExists,
    NotEnoughFunds,
    NoConsumer,
    InsufficientDelegation,
    UnknownValidator(Seq<char>),
}

impl View for ContractError {
    type V = ErrorView;

    open spec fn view(&self) -> ErrorView {
        match self {
            ContractError::Std(_) => ErrorView::Std,
            ContractError::MeshSecurity(e) => ErrorView::MeshSecurity(*e),
            ContractError::Unauthorized {  } => ErrorView::Unauthorized,
            ContractError::ProviderAddrParsing {  } => ErrorView::ProviderAddrParsing,
            ContractError::ChannelExists(id) => ErrorView::ChannelExists(id@),
            ContractError::WrongConnection(id) => ErrorView::WrongConnection(id@),
            ContractError::WrongPort(id) => ErrorView::WrongPort(id@),
            ContractError::UnknownChannel(id) => ErrorView::UnknownChannel(id@),
            ContractError::CustomError { val } => ErrorView::CustomError(val@),
            ContractError::AckFailed {  } => ErrorView::AckFailed,
            ContractError::RewardsFailed {  } => ErrorView::RewardsFailed,
            ContractError::UpdateValidatorsFailed {  } => ErrorView::UpdateValidatorsFailed,
            ContractError::ConsumerAlreadyExists {  } => ErrorView::ConsumerAlreadyExists,
            ContractError::NotEnoughFunds {  } => ErrorView::NotEnoughFunds,
            ContractError::NoConsumer {  } => ErrorView::NoConsumer,
            ContractError::InsufficientDelegation {  } => ErrorView::InsufficientDelegation,
            ContractError::UnknownValidator(id) => ErrorView::UnknownValidator(id@),
        }
    }
}

impl From<cosmwasm_std::StdError> for ContractError {
    fn from(e: cosmwasm_std::StdError) -> (r: ContractError) {
        ContractError::Std(e)
    }
}

impl vstd::std_specs::convert::FromSpecImpl<cosmwasm_std::StdError> for ContractError {
    open spec fn obeys_from_spec() -> bool {
        true
    }

    open spec fn from_spec(e: cosmwasm_std::StdError) -> ContractError {
        ContractError::Std(e)
    }
}

impl From<MeshSecurityError> for ContractError {
    fn from(e: MeshSecurityError) -> (r: ContractError) {
        ContractError::MeshSecurity(e)
    }
}

impl vstd::std_specs::convert::FromSpecImpl<MeshSecurityError> for ContractError {
    open spec fn obeys_from_spec() -> bool {
        true
    }

    open spec fn from_spec(e: MeshSecurityError) -> ContractError {
        ContractError::MeshSecurity(e)
    }
}

/// How `format!("{:?}", ..)` writes a string: in quotes, with escapes.
pub uninterp spec fn debug_text(text: Seq<char>) -> Seq<char>;

/// `<str as Debug>::fmt` through `format!`: the result is the debug form of
/// the argument, which depends on the argument alone.
#[verifier::external_body]
fn quoted(text: &str) -> (r: String)
    ensures
        r@ == debug_text(text@),
{
    format!("{:?}", text)
}

/// `<StdError as Display>::fmt` through `to_string`. Nothing is claimed of
/// the text.
#[verifier::external_body]
fn std_error_text(e: &cosmwasm_std::StdError) -> (r: String) {
    e.to_string()
}

/// `cosmwasm_std::StdError::not_found`: the error for a thing of the given
/// kind that is not there. Nothing is claimed of the value.
#[verifier::external_body]
pub(crate) fn not_found(kind: &str) -> (e: cosmwasm_std::StdError) {
    cosmwasm_std::StdError::not_found(kind)
}

fn join(head: &str, tail: &str) -> (r: String)
    ensures
        r@ == head@ + tail@,
{
    head.to_owned().concat(tail)
}

fn join3(head: &str, mid: &str, tail: &str) -> (r: String)
    ensures
        r@ == head@ + mid@ + tail@,
{
    head.to_owned().concat(mid).concat(tail)
}

impl MeshSecurityError {
    /// The text of the error.
    pub open spec fn text(self) -> Seq<char> {
        match self {
            MeshSecurityError::InvalidChannelOrder => "Only supports unordered channels"@,
            MeshSecurityError::InvalidChannelVersion =>
                "Counterparty version must be 'mesh-security-v0.1'"@,
        }
    }

    /// The text of the error, as a string.
    pub fn message(&self) -> (r: String)
        ensures
            r@ == self.text(),
    {
        match self {
            MeshSecurityError::InvalidChannelOrder => "Only supports unordered channels".to_owned(),
            MeshSecurityError::InvalidChannelVersion =>
                "Counterparty version must be 'mesh-security-v0.1'".to_owned(),
        }
    }
}

impl ErrorView {
    /// The text of the error. For `Std` it is the text of the standard
    /// error, which is left open here.
    pub open spec fn text(self) -> Seq<char> {
        match self {
            ErrorView::Std => Seq::empty(),
            ErrorView::MeshSecurity(e) => e.text(),
            ErrorView::Unauthorized => "Unauthorized"@,
            ErrorView::ProviderAddrParsing => "Couldn't parse provider from port_id"@,
            ErrorView::ChannelExists(id) => "Contract already has a bound channel: "@ + id,
            ErrorView::WrongConnection(id) =>
                "Unauthorized counterparty chain, awaiting connection '"@ + id + "'"@,
            ErrorView::WrongPort(id) => "Unauthorized counterparty port, awaiting port '"@ + id
                + "'"@,
            ErrorView::UnknownChannel(id) => "Refuse to respond on unregistered channel '"@ + id
                + "'"@,
            ErrorView::CustomError(val) => "Custom Error val: "@ + debug_text(val),
            ErrorView::AckFailed => "Acknowledgement failed"@,
            ErrorView::RewardsFailed => "Rewards acknowledgement failed"@,
            ErrorView::UpdateValidatorsFailed => "Update validators acknowledgement failed"@,
            ErrorView::ConsumerAlreadyExists => "Consumer already exists"@,
            ErrorView::NotEnoughFunds => "Not enough funds"@,
            ErrorView::NoConsumer => "Consumer does not exist"@,
            ErrorView::InsufficientDelegation => "Insufficient delegation"@,
            ErrorView::UnknownValidator(id) => "Unknown validator '"@ + id + "'"@,
        }
    }
}

impl ContractError {
    /// The text of the error, as a string.
    pub fn message(&self) -> (r: String)
        ensures
            !(self is Std) ==> r@ == self@.text(),
    {
        match self {
            ContractError::Std(e) => std_error_text(e),
            ContractError::MeshSecurity(e) => e.message(),
            ContractError::Unauthorized {  } => "Unauthorized".to_owned(),
            ContractError::ProviderAddrParsing {  } => "Couldn't parse provider from port_id".to_owned(),
            ContractError::ChannelExists(id) => join(
                "Contract already has a bound channel: ",
                id.as_str(),
            ),
            ContractError::WrongConnection(id) => join3(
                "Unauthorized counterparty chain, awaiting connection '",
                id.as_str(),
                "'",
            ),
            ContractError::WrongPort(id) => join3(
                "Unauthorized counterparty port, awaiting port '",
                id.as_str(),
                "'",
            ),
            ContractError::UnknownChannel(id) => join3(
                "Refuse to respond on unregistered channel '",
                id.as_str(),
                "'",
            ),
            ContractError::CustomError { val } => {
                let q = quoted(val.as_str());
                join("Custom Error val: ", q.as_str())
            },
            ContractError::AckFailed {  } => "Acknowledgement failed".to_owned(),
            ContractError::RewardsFailed {  } => "Rewards acknowledgement failed".to_owned(),
            ContractError::UpdateValidatorsFailed {  } =>
                "Update validators acknowledgement failed".to_owned(),
            ContractError::ConsumerAlreadyExists {  } => "Consumer already exists".to_owned(),
            ContractError::NotEnoughFunds {  } => "Not enough funds".to_owned(),
            ContractError::NoConsumer {  } => "Consumer does not exist".to_owned(),
            ContractError::InsufficientDelegation {  } => "Insufficient delegation".to_owned(),
            ContractError::UnknownValidator(id) => join3("Unknown validator '", id.as_str(), "'"),
        }
    }
}

} // verus!
