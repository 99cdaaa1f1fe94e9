//! The closed set of failures that a request to the messaging service can
//! end in, with a fixed description for each.

use vstd::prelude::*;
use vstd::string::*;

verus! {

/// The error that `url` reports when an endpoint cannot be parsed.
#[verifier::external_type_specification]
#[verifier::external_body]
pub struct ExUrlParseError(url::ParseError);

/// The error that `hyper` reports when a request could not be carried out.
#[verifier::external_type_specification]
#[verifier::external_body]
pub struct ExHyperError(hyper::Error);

/// Why a request against the service failed.
#[derive(Debug)]
pub enum AzureRequestError {
    /// The service answered 400.
    BadRequest,
    /// The service answered 401.
    AuthorizationFailure,
    /// The service answered 403.
    ResourceFailure,
    /// The service answered 410.
    ResourceNotFound,
    /// The service answered 500.
    InternalError,
    /// The service answered with any other status.
    UnknownError,
    /// The endpoint could not be parsed as a URL.
    InvalidEndpoint(url::ParseError),
    /// The transport failed to carry out the request.
    HyperError(hyper::Error),
    /// The message exists only on this side and was never sent to the service.
    LocalMessage,
    /// A receive timed out with nothing available.
    EmptyBus,
    /// The message body was not serialized in a form that can be read back.
    NonSerializedBody,
}

/// Equality by kind alone. A variant that carries a lower-level cause is
/// equal to nothing, itself included: the cause is diagnostic detail, and
/// two failures of that kind are not taken to be the same failure.
pub open spec fn same_error(a: AzureRequestError, b: AzureRequestError) -> bool {
    match (a, b) {
        (AzureRequestError::BadRequest, AzureRequestError::BadRequest) => true,
        (AzureRequestError::AuthorizationFailure, AzureRequestError::AuthorizationFailure) => true,
        (AzureRequestError::ResourceFailure, AzureRequestError::ResourceFailure) => true,
        (AzureRequestError::ResourceNotFound, AzureRequestError::ResourceNotFound) => true,
        (AzureRequestError::InternalError, AzureRequestError::InternalError) => true,
        (AzureRequestError::UnknownError, AzureRequestError::UnknownError) => true,
        (AzureRequestError::LocalMessage, AzureRequestError::LocalMessage) => true,
        (AzureRequestError::EmptyBus, AzureRequestError::EmptyBus) => true,
        (AzureRequestError::NonSerializedBody, AzureRequestError::NonSerializedBody) => true,
        _ => false,
    }
}

/// Two transport failures are never equal, whatever their causes, nor are
/// two unparsable endpoints; two bad requests always are.
pub proof fn lemma_equality_ignores_causes(
    a: hyper::Error,
    b: hyper::Error,
    p: url::ParseError,
    q: url::ParseError,
)
    ensures
        !same_error(AzureRequestError::HyperError(a), AzureRequestError::HyperError(b)),
        !same_error(AzureRequestError::InvalidEndpoint(p), AzureRequestError::InvalidEndpoint(q)),
        same_error(AzureRequestError::BadRequest, AzureRequestError::BadRequest),
{
}

impl PartialEq for AzureRequestError {
    fn eq(&self, other: &Self) -> (r: bool)
        ensures
            r == same_error(*self, *other),
    {
        match (self, other) {
            (AzureRequestError::BadRequest, AzureRequestError::BadRequest) => true,
            (AzureRequestError::AuthorizationFailure, AzureRequestError::AuthorizationFailure) => true,
            (AzureRequestError::ResourceFailure, AzureRequestError::ResourceFailure) => true,
            (AzureRequestError::ResourceNotFound, AzureRequestError::ResourceNotFound) => true,
            (AzureRequestError::InternalError, AzureRequestError::InternalError) => true,
            (AzureRequestError::UnknownError, AzureRequestError::UnknownError) => true,
            (AzureRequestError::LocalMessage, AzureRequestError::LocalMessage) => true,
            (AzureRequestError::EmptyBus, AzureRequestError::EmptyBus) => true,
            (AzureRequestError::NonSerializedBody, AzureRequestError::NonSerializedBody) => true,
            _ => false,
        }
    }
}

impl vstd::std_specs::cmp::PartialEqSpecImpl for AzureRequestError {
    open spec fn obeys_eq_spec() -> bool {
        true
    }

    open spec fn eq_spec(&self, other: &AzureRequestError) -> bool {
        same_error(*self, *other)
    }
}

/// The fixed description of each kind of error.
pub open spec fn description_of(e: AzureRequestError) -> Seq<char> {
    match e {
        AzureRequestError::BadRequest => "Remote returned code 400."@,
        AzureRequestError::AuthorizationFailure => "Remote returned 401. Check your connection string."@,
        AzureRequestError::ResourceFailure => "Message failed to send. The message may be too large or the queue is full."@,
        AzureRequestError::ResourceNotFound => "The requested queue does not exist or could not be found."@,
        AzureRequestError::InternalError => "Remote returned 500 - Internal server error"@,
        AzureRequestError::UnknownError => "Something unexpected happened"@,
        AzureRequestError::InvalidEndpoint(_) => "The provided URL could not be parsed"@,
        AzureRequestError::HyperError(_) => "Hyper had an issue making a web request"@,
        AzureRequestError::LocalMessage => "The message doesn't exist on the server. This happens when you try and delete/lock a message you created locally."@,
        AzureRequestError::EmptyBus => "Service Bus Queue/Subscription didn't have any messages before receive timed out."@,
        AzureRequestError::NonSerializedBody => "Parsing the body failed. This happens if the message sender doesn't serialize the message. Call message.get_body_raw() to extract the body."@,
    }
}

/// The error kind for a status code that the service answered with.
pub open spec fn status_error(status: u16) -> AzureRequestError {
    if status == 400 {
        AzureRequestError::BadRequest
    } else if status == 401 {
        AzureRequestError::AuthorizationFailure
    } else if status == 403 {
        AzureRequestError::ResourceFailure
    } else if status == 410 {
        AzureRequestError::ResourceNotFound
    } else if status == 500 {
        AzureRequestError::InternalError
    } else {
        AzureRequestError::UnknownError
    }
}

/// Maps a status code that the service answered with to its error kind.
pub fn classify(status: u16) -> (r: AzureRequestError)
    ensures
        r == status_error(status),
{
    match status {
        400 => AzureRequestError::BadRequest,
        401 => AzureRequestError::AuthorizationFailure,
        403 => AzureRequestError::ResourceFailure,
        410 => AzureRequestError::ResourceNotFound,
        500 => AzureRequestError::InternalError,
        _ => AzureRequestError::UnknownError,
    }
}

impl AzureRequestError {
    /// The fixed description of this kind of error.
    pub fn description(&self) -> (r: &'static str)
        ensures
            r@ == description_of(*self),
    {
        match self {
            AzureRequestError::BadRequest => "Remote returned code 400.",
            AzureRequestError::AuthorizationFailure => "Remote returned 401. Check your connection string.",
            AzureRequestError::ResourceFailure => "Message failed to send. The message may be too large or the queue is full.",
            AzureRequestError::ResourceNotFound => "The requested queue does not exist or could not be found.",
            AzureRequestError::InternalError => "Remote returned 500 - Internal server error",
            AzureRequestError::UnknownError => "Something unexpected happened",
            AzureRequestError::InvalidEndpoint(_) => "The provided URL could not be parsed",
            AzureRequestError::HyperError(_) => "Hyper had an issue making a web request",
            AzureRequestError::LocalMessage => "The message doesn't exist on the server. This happens when you try and delete/lock a message you created locally.",
            AzureRequestError::EmptyBus => "Service Bus Queue/Subscription didn't have any messages before receive timed out.",
            AzureRequestError::NonSerializedBody => "Parsing the body failed. This happens if the message sender doesn't serialize the message. Call message.get_body_raw() to extract the body.",
        }
    }

    /// The text shown for this error: a fixed prefix, then its description.
    pub fn to_string(&self) -> (r: String)
        ensures
            r@ == "Azure request error: "@ + description_of(*self),
    {
        let prefix = String::from_str("Azure request error: ");
        prefix.concat(self.description())
    }
}

impl From<url::ParseError> for AzureRequestError {
    fn from(err: url::ParseError) -> (r: AzureRequestError)
        ensures
            r == AzureRequestError::InvalidEndpoint(err),
    {
        AzureRequestError::InvalidEndpoint(err)
    }
}

impl vstd::std_specs::convert::FromSpecImpl<url::ParseError> for AzureRequestError {
    open spec fn obeys_from_spec() -> bool {
        true
    }

    open spec fn from_spec(v: url::ParseError) -> AzureRequestError {
        AzureRequestError::InvalidEndpoint(v)
    }
}

impl From<hyper::Error> for AzureRequestError {
    fn from(err: hyper::Error) -> (r: AzureRequestError)
        ensures
            r == AzureRequestError::HyperError(err),
    {
        AzureRequestError::HyperError(err)
    }
}

impl vstd::std_specs::convert::FromSpecImpl<hyper::Error> for AzureRequestError {
    open spec fn obeys_from_spec() -> bool {
        true
    }

    open spec fn from_spec(v: hyper::Error) -> AzureRequestError {
        AzureRequestError::HyperError(v)
    }
}

} // verus!
