//! The error vocabulary and service interface of request-handling front ends.
use vstd::prelude::*;

verus! {

/// A service that takes requests and publishes on topics.
pub trait APITrait {
    /// Sets the service up.
    fn initialize(&self) -> Result<(), String>;

    /// Handles one request, giving the reply.
    fn handle_request(&self, request: &str) -> Result<String, String>;

    /// Sends a reply.
    fn send_response(&self, response: &str) -> Result<(), String>;

    /// Subscribes to a topic.
    fn subscribe(&self, topic: &str) -> Result<(), String>;

    /// Cancels a subscription.
    fn unsubscribe(&self, topic: &str) -> Result<(), String>;

    /// Shuts the service down.
    fn shutdown(&self) -> Result<(), String>;
}

/// An error with a status code and a message.
pub trait APIErrorTrait {
    /// The status code.
    fn error_code(&self) -> u16;

    /// The message.
    fn error_message(&self) -> String;
}

/// Errors of a request-handling service, each with its detail.
#[derive(Debug)]
pub enum GenericAPIError {
    BadRequest(String),
    Unauthorized(String),
    Forbidden(String),
    NotFound(String),
    InternalError(String),
    Timeout(String),
    ServiceUnavailable(String),
}

impl GenericAPIError {
    /// The HTTP status of the error.
    pub open spec fn spec_code(&self) -> u16 {
        match self {
            GenericAPIError::BadRequest(_) => 400,
            GenericAPIError::Unauthorized(_) => 401,
            GenericAPIError::Forbidden(_) => 403,
            GenericAPIError::NotFound(_) => 404,
            GenericAPIError::InternalError(_) => 500,
            GenericAPIError::Timeout(_) => 504,
            GenericAPIError::ServiceUnavailable(_) => 503,
        }
    }

    /// The error's description, then `": "`, then its detail.
    pub open spec fn spec_message(&self) -> Seq<char> {
        match self {
            GenericAPIError::BadRequest(m) => "Bad Request: "@ + m@,
            GenericAPIError::Unauthorized(m) => "Unauthorized: "@ + m@,
            GenericAPIError::Forbidden(m) => "Forbidden: "@ + m@,
            GenericAPIError::NotFound(m) => "Not Found: "@ + m@,
            GenericAPIError::InternalError(m) => "Internal Server Error: "@ + m@,
            GenericAPIError::Timeout(m) => "Timeout: "@ + m@,
            GenericAPIError::ServiceUnavailable(m) => "Service Unavailable: "@ + m@,
        }
    }

    /// The HTTP status of the error.
    pub fn code(&self) -> (r: u16)
        ensures
            r == self.spec_code(),
    {
        match self {
            GenericAPIError::BadRequest(_) => 400,
            GenericAPIError::Unauthorized(_) => 401,
            GenericAPIError::Forbidden(_) => 403,
            GenericAPIError::NotFound(_) => 404,
            GenericAPIError::InternalError(_) => 500,
            GenericAPIError::Timeout(_) => 504,
            GenericAPIError::ServiceUnavailable(_) => 503,
        }
    }

    /// The error's description, then `": "`, then its detail.
    pub fn message(&self) -> (r: String)
        ensures
            r@ == self.spec_message(),
    {
        let (prefix, detail) = match self {
            GenericAPIError::BadRequest(m) => ("Bad Request: ", m),
            GenericAPIError::Unauthorized(m) => ("Unauthorized: ", m),
            GenericAPIError::Forbidden(m) => ("Forbidden: ", m),
            GenericAPIError::NotFound(m) => ("Not Found: ", m),
            GenericAPIError::InternalError(m) => ("Internal Server Error: ", m),
            GenericAPIError::Timeout(m) => ("Timeout: ", m),
            GenericAPIError::ServiceUnavailable(m) => ("Service Unavailable: ", m),
        };
        let mut r = String::from_str(prefix);
        r.append(detail.as_str());
        r
    }
}

impl APIErrorTrait for GenericAPIError {
    fn error_code(&self) -> u16 {
        self.code()
    }

    fn error_message(&self) -> String {
        self.message()
    }
}

} // verus!
