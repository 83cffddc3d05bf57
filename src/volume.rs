use vstd::prelude::*;

use vstd::string::*;

use crate::fixed::{clamp_unit, SCALE};

verus! {

/// An audio node's volume in millionths, with an independent mute flag.
#[derive(Clone, Copy, Debug)]
pub struct Volume {
    value: u32,
    muted: bool,
}

impl Volume {
    pub closed spec fn raw(self) -> int {
        self.value as int
    }

    /// The volume in millionths, always in `[0, SCALE]`.
    pub open spec fn spec_value(self) -> nat {
        clamp_unit(self.raw())
    }

    pub closed spec fn spec_muted(self) -> bool {
        self.muted
    }

    #[verifier::type_invariant]
    spec fn inv(self) -> bool {
        self.value <= SCALE
    }

    /// An unmuted volume, clamped into `[0, SCALE]`.
    pub fn new(value: i64) -> (r: Volume)
        ensures
            r.spec_value() == clamp_unit(value as int),
            !r.spec_muted(),
    {
        Volume { value: crate::fixed::clamp_to_unit(value), muted: false }
    }

    /// A muted volume that keeps its level, clamped into `[0, SCALE]`.
    pub fn muted(value: i64) -> (r: Volume)
        ensures
            r.spec_value() == clamp_unit(value as int),
            r.spec_muted(),
    {
        Volume { value: crate::fixed::clamp_to_unit(value), muted: true }
    }

    pub fn is_muted(&self) -> (r: bool)
        ensures
            r == self.spec_muted(),
    {
        self.muted
    }

    /// The level in millionths; muting leaves it as it was.
    pub fn value(&self) -> (r: u32)
        ensures
            r == self.spec_value(),
    {
        proof {
            use_type_invariant(self);
        }
        self.value
    }
}

/// An externally caused change on an audio node: its level in millionths and its mute flag.
#[derive(Clone, Debug)]
pub struct VolumeEvent {
    pub node_name: String,
    pub volume: u32,
    pub muted: bool,
}

/// The audio nodes whose volume changes are watched.
#[derive(Clone, Debug)]
pub struct VolumeMonitor {
    pub node_names: Vec<String>,
}

impl VolumeMonitor {
    pub fn new(node_names: Vec<String>) -> (r: VolumeMonitor)
        ensures
            r.node_names == node_names,
    {
        VolumeMonitor { node_names }
    }

    /// Whether events of the named node are watched.
    pub fn watches(&self, node: &str) -> (r: bool)
        ensures
            r == exists|i: int|
                0 <= i < self.node_names@.len() && #[trigger] self.node_names@[i]@ == node@,
    {
        let key = String::from_str(node);
        let mut i: usize = 0;
        while i < self.node_names.len()
            invariant
                i <= self.node_names@.len(),
                key@ == node@,
                forall|j: int| 0 <= j < i ==> #[trigger] self.node_names@[j]@ != node@,
            decreases self.node_names@.len() - i,
        {
            if self.node_names[i] == key {
                return true;
            }
            i = i + 1;
        }
        false
    }
}

/// The handle through which the volume of one audio node is read and written.
#[derive(Clone, Debug)]
pub struct VolumeController {
    pub node_name: String,
}

impl VolumeController {
    pub fn new(node_name: String) -> (r: VolumeController)
        ensures
            r.node_name == node_name,
    {
        VolumeController { node_name }
    }
}

} // verus!
