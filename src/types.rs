use vstd::prelude::*;

use vstd::string::*;

use crate::fixed::{clamp_unit, SCALE};

verus! {

/// A provider-namespaced identity of a light, compared by value.
#[derive(Clone, Debug, Eq, Hash)]
pub struct LightId(pub String);

impl PartialEq for LightId {
    fn eq(&self, other: &LightId) -> (r: bool) {
        self.0 == other.0
    }
}

impl vstd::std_specs::cmp::PartialEqSpecImpl for LightId {
    open spec fn obeys_eq_spec() -> bool {
        true
    }

    open spec fn eq_spec(&self, other: &LightId) -> bool {
        self.0@ == other.0@
    }
}

impl LightId {
    /// A copy of this identity with the same text.
    pub fn duplicate(&self) -> (r: LightId)
        ensures
            r.0@ == self.0@,
    {
        LightId(self.0.clone())
    }
}

/// A brightness level in `[0, 1]`, held in millionths.
#[derive(Clone, Copy, Debug)]
pub struct Brightness {
    millionths: u32,
}

impl Brightness {
    /// The level in millionths of full brightness.
    pub closed spec fn raw(self) -> int {
        self.millionths as int
    }

    /// The level in millionths of full brightness, always in `[0, SCALE]`.
    pub open spec fn spec_value(self) -> nat {
        clamp_unit(self.raw())
    }

    #[verifier::type_invariant]
    spec fn inv(self) -> bool {
        self.millionths <= SCALE
    }

    /// Builds a level from millionths, clamping into `[0, SCALE]`.
    pub fn new(value: i64) -> (r: Brightness)
        ensures
            r.spec_value() == clamp_unit(value as int),
    {
        Brightness { millionths: crate::fixed::clamp_to_unit(value) }
    }

    /// The level in millionths.
    pub fn value(&self) -> (r: u32)
        ensures
            r == self.spec_value(),
    {
        proof {
            use_type_invariant(self);
        }
        self.millionths
    }

    /// The level on the device-native 16-bit scale, truncated.
    pub fn as_u16(&self) -> (r: u16)
        ensures
            r == self.spec_value() * 65535 / (SCALE as nat),
    {
        proof {
            use_type_invariant(self);
        }
        (self.millionths as u64 * 65535 / SCALE as u64) as u16
    }

    /// The level as a whole percentage, truncated.
    pub fn as_percent(&self) -> (r: u8)
        ensures
            r == self.spec_value() * 100 / (SCALE as nat),
    {
        proof {
            use_type_invariant(self);
        }
        (self.millionths as u64 * 100 / SCALE as u64) as u8
    }
}

impl Default for Brightness {
    fn default() -> (r: Brightness)
        ensures
            r.spec_value() == 0,
    {
        Brightness { millionths: 0 }
    }
}

/// A snapshot of one light: identity, label, brightness and power.
#[derive(Clone, Debug)]
pub struct LightState {
    pub id: LightId,
    pub label: String,
    pub brightness: Brightness,
    pub power: bool,
}

impl LightState {
    pub fn new(id: LightId, label: String, brightness: Brightness, power: bool) -> (r: LightState)
        ensures
            r.id == id,
            r.label == label,
            r.brightness == brightness,
            r.power == power,
    {
        LightState { id, label, brightness, power }
    }
}

/// A discovered light: its latest known state and the name of the provider that owns it.
#[derive(Clone, Debug)]
pub struct Light {
    pub provider: String,
    pub state: LightState,
}

impl Light {
    pub fn new(provider: String, state: LightState) -> (r: Light)
        ensures
            r.provider == provider,
            r.state == state,
    {
        Light { provider, state }
    }

    /// A copy of this light with the same identity, label, brightness and power.
    pub fn clone_light(&self) -> (r: Light)
        ensures
            r == *self,
    {
        Light {
            provider: self.provider.clone(),
            state: LightState {
                id: LightId(self.state.id.0.clone()),
                label: self.state.label.clone(),
                brightness: self.state.brightness,
                power: self.state.power,
            },
        }
    }

    pub fn id(&self) -> (r: &LightId)
        ensures
            *r == self.state.id,
    {
        &self.state.id
    }

    pub fn label(&self) -> (r: &String)
        ensures
            *r == self.state.label,
    {
        &self.state.label
    }

    pub fn provider_name(&self) -> (r: &String)
        ensures
            *r == self.provider,
    {
        &self.provider
    }

    pub fn state(&self) -> (r: &LightState)
        ensures
            *r == self.state,
    {
        &self.state
    }
}

} // verus!
