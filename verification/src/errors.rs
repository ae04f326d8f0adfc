//! Error kinds surfaced by the cores, with their HTTP status codes and
//! response messages. Turning these into actual HTTP responses is the
//! adapters' business; the mapping itself is exact and verified.

use vstd::prelude::*;

verus! {

/// Errors surfaced by the orchestrator's request path.
#[derive(Debug)]
pub enum AppError {
    /// The pool is empty.
    NoWorkersAvailable,
    /// No worker fits the request, even after relaxation.
    InsufficientResources(String),
    /// A registered route reached the fallback handler.
    RouteNotFound(String),
    /// The request payload could not be converted for the wire.
    SerializationError(String),
    /// A worker's reply could not be converted back.
    DeserializationError(String),
    /// Socket, framing or decode failure while driving a worker.
    WorkerCommunicationError(String),
    /// The worker replied with something other than a task result.
    UnexpectedResponse,
    /// The fallback application is not configured.
    AsgiNotConfigured,
    /// The fallback application is configured inconsistently.
    AsgiConfigError(String),
    /// Forwarding to the fallback application failed.
    ProxyError(String),
}

impl AppError {
    /// The HTTP status code this error maps to.
    pub open spec fn spec_status_code(&self) -> u16 {
        match self {
            AppError::NoWorkersAvailable => 503,
            AppError::InsufficientResources(_) => 503,
            AppError::RouteNotFound(_) => 404,
            AppError::SerializationError(_) => 400,
            AppError::DeserializationError(_) => 500,
            AppError::WorkerCommunicationError(_) => 500,
            AppError::UnexpectedResponse => 500,
            AppError::AsgiNotConfigured => 500,
            AppError::AsgiConfigError(_) => 500,
            AppError::ProxyError(_) => 502,
        }
    }

    /// The message body this error maps to.
    pub open spec fn spec_message(&self) -> Seq<char> {
        match self {
            AppError::NoWorkersAvailable => "No workers available"@,
            AppError::InsufficientResources(d) => "Insufficient resources: "@ + d@,
            AppError::RouteNotFound(d) => "Route not found: "@ + d@,
            AppError::SerializationError(d) => "Serialization error: "@ + d@,
            AppError::DeserializationError(d) => "Deserialization error: "@ + d@,
            AppError::WorkerCommunicationError(d) => "Worker communication error: "@ + d@,
            AppError::UnexpectedResponse => "Unexpected response from worker"@,
            AppError::AsgiNotConfigured => "ASGI app not configured"@,
            AppError::AsgiConfigError(d) => "ASGI configuration error: "@ + d@,
            AppError::ProxyError(d) => "Proxy error: "@ + d@,
        }
    }

    /// The status code and message of the HTTP response this error becomes.
    pub fn status_and_message(&self) -> (r: (u16, String))
        ensures
            r.0 == self.spec_status_code(),
            r.1@ == self.spec_message(),
    {
        match self {
            AppError::NoWorkersAvailable => (503, String::from_str("No workers available")),
            AppError::InsufficientResources(d) => (
                503,
                String::from_str("Insufficient resources: ").concat(d.as_str()),
            ),
            AppError::RouteNotFound(d) => (
                404,
                String::from_str("Route not found: ").concat(d.as_str()),
            ),
            AppError::SerializationError(d) => (
                400,
                String::from_str("Serialization error: ").concat(d.as_str()),
            ),
            AppError::DeserializationError(d) => (
                500,
                String::from_str("Deserialization error: ").concat(d.as_str()),
            ),
            AppError::WorkerCommunicationError(d) => (
                500,
                String::from_str("Worker communication error: ").concat(d.as_str()),
            ),
            AppError::UnexpectedResponse => (
                500,
                String::from_str("Unexpected response from worker"),
            ),
            AppError::AsgiNotConfigured => (500, String::from_str("ASGI app not configured")),
            AppError::AsgiConfigError(d) => (
                500,
                String::from_str("ASGI configuration error: ").concat(d.as_str()),
            ),
            AppError::ProxyError(d) => (
                502,
                String::from_str("Proxy error: ").concat(d.as_str()),
            ),
        }
    }
}

/// Errors surfaced by the gateway's proxy path.
#[derive(Debug)]
pub enum ProxyError {
    /// The incoming request body could not be read.
    BodyReadError(String),
    /// The backend could not be reached or failed mid-stream.
    BackendError(String),
    /// The outgoing response could not be assembled.
    ResponseBuildError(String),
}

impl ProxyError {
    /// The HTTP status code this error maps to.
    pub open spec fn spec_status_code(&self) -> u16 {
        match self {
            ProxyError::BodyReadError(_) => 400,
            ProxyError::BackendError(_) => 502,
            ProxyError::ResponseBuildError(_) => 500,
        }
    }

    /// The message body this error maps to.
    pub open spec fn spec_message(&self) -> Seq<char> {
        match self {
            ProxyError::BodyReadError(d) => "Failed to read request body: "@ + d@,
            ProxyError::BackendError(d) => "Backend error: "@ + d@,
            ProxyError::ResponseBuildError(d) => "Failed to build response: "@ + d@,
        }
    }

    /// The status code and message of the HTTP response this error becomes.
    pub fn status_and_message(&self) -> (r: (u16, String))
        ensures
            r.0 == self.spec_status_code(),
            r.1@ == self.spec_message(),
    {
        match self {
            ProxyError::BodyReadError(d) => (
                400,
                String::from_str("Failed to read request body: ").concat(d.as_str()),
            ),
            ProxyError::BackendError(d) => (
                502,
                String::from_str("Backend error: ").concat(d.as_str()),
            ),
            ProxyError::ResponseBuildError(d) => (
                500,
                String::from_str("Failed to build response: ").concat(d.as_str()),
            ),
        }
    }
}

} // verus!
