use vstd::prelude::*;

use vstd::string::*;

use crate::error::ProviderError;
use crate::registry::Provider;
use crate::types::{Brightness, Light, LightId, LightState};

verus! {

/// The networked backend that speaks the UDP-broadcast lighting protocol.
///
/// The wire protocol itself is not implemented: discovery reports two fixed lights and
/// writes succeed without effect.
#[derive(Clone, Debug)]
pub struct LifxProvider {
    pub discovery_timeout_ms: u64,
    pub broadcast_address: String,
    pub port: u16,
}

/// The identity of a light of this backend: its label under the backend's namespace.
pub open spec fn lifx_id(label: Seq<char>) -> Seq<char> {
    "lifx:"@ + label
}

impl LifxProvider {
    pub fn new(discovery_timeout_ms: u64, broadcast_address: String, port: u16) -> (r: LifxProvider)
        ensures
            r.discovery_timeout_ms == discovery_timeout_ms,
            r.broadcast_address == broadcast_address,
            r.port == port,
    {
        LifxProvider { discovery_timeout_ms, broadcast_address, port }
    }

    /// Five seconds of discovery on the limited broadcast address and the protocol's port.
    pub fn default_config() -> (r: LifxProvider)
        ensures
            r.discovery_timeout_ms == 5000,
            r.broadcast_address@ == "255.255.255.255"@,
            r.port == 56700,
    {
        LifxProvider {
            discovery_timeout_ms: 5000,
            broadcast_address: String::from_str("255.255.255.255"),
            port: 56700,
        }
    }

    /// A light of this backend with the given label, brightness and power.
    pub fn light(label: &str, brightness: Brightness, power: bool) -> (r: Light)
        ensures
            r.provider@ == "lifx"@,
            r.state.id.0@ == lifx_id(label@),
            r.state.label@ == label@,
            r.state.brightness == brightness,
            r.state.power == power,
    {
        let id = LightId(String::from_str("lifx:").concat(label));
        Light::new(String::from_str("lifx"), LightState::new(id, String::from_str(label), brightness, power))
    }
}

impl Default for LifxProvider {
    fn default() -> (r: LifxProvider)
        ensures
            r.discovery_timeout_ms == 5000,
            r.broadcast_address@ == "255.255.255.255"@,
            r.port == 56700,
    {
        LifxProvider::default_config()
    }
}

impl Provider for LifxProvider {
    open spec fn spec_name(&self) -> Option<Seq<char>> {
        Some("lifx"@)
    }

    fn name(&self) -> (r: String) {
        String::from_str("lifx")
    }

    fn discover(&self) -> Result<Vec<Light>, ProviderError> {
        let mut lights: Vec<Light> = Vec::new();
        lights.push(LifxProvider::light("Stub Light 1", Brightness::new(750000), true));
        lights.push(LifxProvider::light("Stub Light 2", Brightness::new(500000), true));
        Ok(lights)
    }

    fn get_state(&self, id: &LightId) -> Result<LightState, ProviderError> {
        Ok(
            LightState::new(
                id.duplicate(),
                String::from_str("LIFX Light"),
                Brightness::new(500000),
                true,
            ),
        )
    }

    fn set_brightness(&self, id: &LightId, brightness: Brightness) -> Result<(), ProviderError> {
        Ok(())
    }

    fn health_check(&self) -> Result<(), ProviderError> {
        Ok(())
    }
}

} // verus!
