use vstd::prelude::*;

use vstd::string::*;

use crate::types::LightId;

verus! {

/// What can go wrong at the provider and audio-node boundaries.
#[derive(Clone, Debug)]
pub enum ProviderError {
    /// The transport failed.
    Network(String),
    /// A response was malformed.
    Protocol(String),
    /// The backend confirms that the light does not exist.
    NotFound(LightId),
    /// A call ran past its time limit.
    Timeout(String),
    /// No provider is registered under the name used for routing.
    NotConfigured(String),
    /// A backend-level fault during discovery.
    DiscoveryFailed(String),
    /// A brightness write was refused or lost.
    SetBrightnessFailed(String),
    /// The audio subsystem could not be reached.
    PipeWireConnection(String),
    /// The audio node does not exist.
    NodeNotFound(String),
}

/// The human-readable text of an error: its kind, then its detail.
pub open spec fn error_message(e: ProviderError) -> Seq<char> {
    match e {
        ProviderError::Network(m) => "Network error: "@ + m@,
        ProviderError::Protocol(m) => "Protocol error: "@ + m@,
        ProviderError::NotFound(id) => "Light not found: "@ + id.0@,
        ProviderError::Timeout(m) => "Timeout: "@ + m@,
        ProviderError::NotConfigured(m) => "Provider not configured: "@ + m@,
        ProviderError::DiscoveryFailed(m) => "Discovery failed: "@ + m@,
        ProviderError::SetBrightnessFailed(m) => "Set brightness failed: "@ + m@,
        ProviderError::PipeWireConnection(m) => "Failed to connect to PipeWire: "@ + m@,
        ProviderError::NodeNotFound(m) => "PipeWire node not found: "@ + m@,
    }
}

impl ProviderError {
    /// The human-readable text of this error.
    pub fn message(&self) -> (r: String)
        ensures
            r@ == error_message(*self),
    {
        match self {
            ProviderError::Network(m) => String::from_str("Network error: ").concat(m.as_str()),
            ProviderError::Protocol(m) => String::from_str("Protocol error: ").concat(m.as_str()),
            ProviderError::NotFound(id) => String::from_str("Light not found: ").concat(
                id.0.as_str(),
            ),
            ProviderError::Timeout(m) => String::from_str("Timeout: ").concat(m.as_str()),
            ProviderError::NotConfigured(m) => String::from_str("Provider not configured: ").concat(
                m.as_str(),
            ),
            ProviderError::DiscoveryFailed(m) => String::from_str("Discovery failed: ").concat(
                m.as_str(),
            ),
            ProviderError::SetBrightnessFailed(m) => String::from_str(
                "Set brightness failed: ",
            ).concat(m.as_str()),
            ProviderError::PipeWireConnection(m) => String::from_str(
                "Failed to connect to PipeWire: ",
            ).concat(m.as_str()),
            ProviderError::NodeNotFound(m) => String::from_str("PipeWire node not found: ").concat(
                m.as_str(),
            ),
        }
    }

    /// Whether the error is a time-out, which backoff treats as "slow" rather than "malformed".
    pub fn is_timeout(&self) -> (r: bool)
        ensures
            r == (*self is Timeout),
    {
        match self {
            ProviderError::Timeout(_) => true,
            _ => false,
        }
    }
}

} // verus!
