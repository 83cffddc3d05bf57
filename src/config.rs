use vstd::prelude::*;

use vstd::string::*;

use crate::curves::CurveConfig;
use crate::sync::MuteAction;

verus! {

/// Where the audio subsystem's drop-in files go and how generated nodes are tagged.
#[derive(Clone, Debug)]
pub struct PipewireConfig {
    /// A directory for drop-in files; absent means the audio subsystem's own.
    pub config_dir: Option<String>,
    /// The namespace that marks generated nodes and files.
    pub node_prefix: String,
}

/// The curve used where a light names none, and named curves with parameters.
#[derive(Clone, Debug)]
pub struct CurvesConfig {
    pub default: String,
    pub custom: Vec<(String, CurveConfig)>,
}

/// Connection parameters of the networked lighting backend.
#[derive(Clone, Debug)]
pub struct LifxConfig {
    pub discovery_timeout_ms: u64,
    pub broadcast_address: String,
    pub port: u16,
}

/// Per-light overrides; each absent field falls back to its default.
#[derive(Clone, Debug)]
pub struct LightConfig {
    /// The lowest brightness written, in millionths.
    pub min_brightness: Option<u32>,
    /// The highest brightness written, in millionths.
    pub max_brightness: Option<u32>,
    pub curve: Option<String>,
    /// `"off"` switches the light off on mute; anything else leaves it.
    pub mute_action: Option<String>,
    pub enabled: Option<bool>,
}

/// The overrides of each light, by light label.
#[derive(Clone, Debug)]
pub struct LightsConfig {
    pub lights: Vec<(String, LightConfig)>,
}

/// Everything the core reads from configuration.
#[derive(Clone, Debug)]
pub struct Config {
    pub pipewire: PipewireConfig,
    pub curves: CurvesConfig,
    pub lifx: LifxConfig,
    pub lights: LightsConfig,
}

pub fn default_config_dir() -> (r: Option<String>)
    ensures
        r is None,
{
    None
}

pub fn default_node_prefix() -> (r: String)
    ensures
        r@ == "lightwire"@,
{
    String::from_str("lightwire")
}

pub fn default_curve() -> (r: String)
    ensures
        r@ == "perceptual"@,
{
    String::from_str("perceptual")
}

pub fn default_discovery_timeout() -> (r: u64)
    ensures
        r == 5000,
{
    5000
}

pub fn default_broadcast_address() -> (r: String)
    ensures
        r@ == "255.255.255.255"@,
{
    String::from_str("255.255.255.255")
}

pub fn default_port() -> (r: u16)
    ensures
        r == 56700,
{
    56700
}

impl Default for PipewireConfig {
    fn default() -> (r: PipewireConfig)
        ensures
            r.config_dir is None,
            r.node_prefix@ == "lightwire"@,
    {
        PipewireConfig { config_dir: default_config_dir(), node_prefix: default_node_prefix() }
    }
}

impl Default for CurvesConfig {
    fn default() -> (r: CurvesConfig)
        ensures
            r.default@ == "perceptual"@,
            r.custom@.len() == 0,
            r.wf(),
    {
        CurvesConfig { default: default_curve(), custom: Vec::new() }
    }
}

impl Default for LifxConfig {
    fn default() -> (r: LifxConfig)
        ensures
            r.discovery_timeout_ms == 5000,
            r.broadcast_address@ == "255.255.255.255"@,
            r.port == 56700,
    {
        LifxConfig {
            discovery_timeout_ms: default_discovery_timeout(),
            broadcast_address: default_broadcast_address(),
            port: default_port(),
        }
    }
}

impl Default for LightsConfig {
    fn default() -> (r: LightsConfig)
        ensures
            r.lights@.len() == 0,
            r.wf(),
    {
        LightsConfig { lights: Vec::new() }
    }
}

impl Default for Config {
    fn default() -> (r: Config)
        ensures
            r.pipewire.config_dir is None,
            r.pipewire.node_prefix@ == "lightwire"@,
            r.curves.default@ == "perceptual"@,
            r.curves.custom@.len() == 0,
            r.lifx.discovery_timeout_ms == 5000,
            r.lifx.broadcast_address@ == "255.255.255.255"@,
            r.lifx.port == 56700,
            r.lights.lights@.len() == 0,
    {
        Config {
            pipewire: PipewireConfig::default(),
            curves: CurvesConfig::default(),
            lifx: LifxConfig::default(),
            lights: LightsConfig::default(),
        }
    }
}

/// The brightness written for `b` under optional lower and upper limits: raised to the lower
/// one, then lowered to the upper one.
pub open spec fn limited(b: nat, min: Option<u32>, max: Option<u32>) -> nat {
    let raised = match min {
        Some(lo) => if b < lo {
            lo as nat
        } else {
            b
        },
        None => b,
    };
    match max {
        Some(hi) => if raised > hi {
            hi as nat
        } else {
            raised
        },
        None => raised,
    }
}

/// Applies optional lower and upper brightness limits.
pub fn limit_brightness(brightness: u32, min: Option<u32>, max: Option<u32>) -> (r: u32)
    ensures
        r == limited(brightness as nat, min, max),
{
    let raised = match min {
        Some(lo) => if brightness < lo {
            lo
        } else {
            brightness
        },
        None => brightness,
    };
    match max {
        Some(hi) => if raised > hi {
            hi
        } else {
            raised
        },
        None => raised,
    }
}

impl LightConfig {
    /// Applies the light's brightness limits.
    pub fn limit(&self, brightness: u32) -> (r: u32)
        ensures
            r == limited(brightness as nat, self.min_brightness, self.max_brightness),
    {
        limit_brightness(brightness, self.min_brightness, self.max_brightness)
    }

    /// Whether the light is synchronised; it is unless disabled.
    pub fn is_enabled(&self) -> (r: bool)
        ensures
            r == match self.enabled {
                Some(e) => e,
                None => true,
            },
    {
        match self.enabled {
            Some(e) => e,
            None => true,
        }
    }

    /// What muting does to this light: `"off"` switches it off, anything else is ignored.
    pub fn mute_action(&self) -> (r: MuteAction)
        ensures
            r == mute_action_of(*self),
    {
        match &self.mute_action {
            Some(a) => if *a == String::from_str("off") {
                MuteAction::LightOff
            } else {
                MuteAction::Ignore
            },
            None => MuteAction::Ignore,
        }
    }
}

/// What muting does to a light with the given overrides.
pub open spec fn mute_action_of(c: LightConfig) -> MuteAction {
    if c.mute_action matches Some(a) && a@ == "off"@ {
        MuteAction::LightOff
    } else {
        MuteAction::Ignore
    }
}

/// Whether a light with the given overrides is synchronised.
pub open spec fn enabled_of(c: LightConfig) -> bool {
    match c.enabled {
        Some(e) => e,
        None => true,
    }
}

/// The curve for a light that may name one: its own if it resolves, else the default if that
/// resolves, else the perceptual curve.
pub open spec fn curve_choice(
    custom: Seq<(String, CurveConfig)>,
    default: Seq<char>,
    light: Option<Seq<char>>,
) -> CurveConfig {
    let fallback = match resolved_curve(custom, default) {
        Some(c) => c,
        None => CurveConfig::Perceptual,
    };
    match light {
        Some(n) => match resolved_curve(custom, n) {
            Some(c) => c,
            None => fallback,
        },
        None => fallback,
    }
}

/// The overrides registered for the light of the given label, the first match.
pub open spec fn light_named(lights: Seq<(String, LightConfig)>, label: Seq<char>) -> Option<
    LightConfig,
>
    decreases lights.len(),
{
    if lights.len() == 0 {
        None
    } else if lights[0].0@ == label {
        Some(lights[0].1)
    } else {
        light_named(lights.drop_first(), label)
    }
}

/// Keys are unique, so the first match is the only one.
pub open spec fn unique_keys<T>(entries: Seq<(String, T)>) -> bool {
    forall|i: int, j: int|
        0 <= i < j < entries.len() ==> #[trigger] entries[i].0@ != #[trigger] entries[j].0@
}

impl LightsConfig {
    /// Every light appears at most once.
    pub open spec fn wf(&self) -> bool {
        unique_keys(self.lights@)
    }

    /// The overrides of the light with the given label, if any.
    pub fn get(&self, label: &str) -> (r: Option<&LightConfig>)
        ensures
            match r {
                Some(c) => light_named(self.lights@, label@) == Some(*c),
                None => light_named(self.lights@, label@) is None,
            },
    {
        let key = String::from_str(label);
        assert(self.lights@.subrange(0, self.lights@.len() as int) =~= self.lights@);
        let mut i: usize = 0;
        while i < self.lights.len()
            invariant
                i <= self.lights@.len(),
                key@ == label@,
                light_named(self.lights@, label@) == light_named(
                    self.lights@.subrange(i as int, self.lights@.len() as int),
                    label@,
                ),
            decreases self.lights@.len() - i,
        {
            let ghost rest = self.lights@.subrange(i as int, self.lights@.len() as int);
            assert(rest.drop_first() =~= self.lights@.subrange(
                i as int + 1,
                self.lights@.len() as int,
            ));
            if self.lights[i].0 == key {
                return Some(&self.lights[i].1);
            }
            i = i + 1;
        }
        None
    }
}

/// The configuration registered under `name` among the custom curves, the first match.
pub open spec fn custom_named(custom: Seq<(String, CurveConfig)>, name: Seq<char>) -> Option<
    CurveConfig,
>
    decreases custom.len(),
{
    if custom.len() == 0 {
        None
    } else if custom[0].0@ == name {
        Some(custom[0].1)
    } else {
        custom_named(custom.drop_first(), name)
    }
}

/// What a curve name resolves to: a custom curve of that name first, then a built-in one.
pub open spec fn resolved_curve(custom: Seq<(String, CurveConfig)>, name: Seq<char>) -> Option<
    CurveConfig,
> {
    match custom_named(custom, name) {
        Some(c) => Some(c),
        None => crate::curves::config_named(name),
    }
}

impl CurvesConfig {
    /// Every custom curve name appears at most once.
    pub open spec fn wf(&self) -> bool {
        unique_keys(self.custom@)
    }

    /// Resolves a curve name: a custom curve of that name first, then a built-in one.
    pub fn resolve(&self, name: &str) -> (r: Option<CurveConfig>)
        ensures
            r == resolved_curve(self.custom@, name@),
    {
        let key = String::from_str(name);
        assert(self.custom@.subrange(0, self.custom@.len() as int) =~= self.custom@);
        let mut i: usize = 0;
        while i < self.custom.len()
            invariant
                i <= self.custom@.len(),
                key@ == name@,
                custom_named(self.custom@, name@) == custom_named(
                    self.custom@.subrange(i as int, self.custom@.len() as int),
                    name@,
                ),
            decreases self.custom@.len() - i,
        {
            let ghost rest = self.custom@.subrange(i as int, self.custom@.len() as int);
            assert(rest.drop_first() =~= self.custom@.subrange(
                i as int + 1,
                self.custom@.len() as int,
            ));
            if self.custom[i].0 == key {
                return Some(self.custom[i].1);
            }
            i = i + 1;
        }
        CurveConfig::named(name)
    }

    /// The curve for a light that may name one: its own if it resolves, else the default if
    /// that resolves, else the perceptual curve.
    pub fn curve_for(&self, light: Option<&String>) -> (r: CurveConfig)
        ensures
            r == curve_choice(
                self.custom@,
                self.default@,
                match light {
                    Some(n) => Some(n@),
                    None => None,
                },
            ),
    {
        if let Some(n) = light {
            if let Some(c) = self.resolve(n.as_str()) {
                return c;
            }
        }
        match self.resolve(self.default.as_str()) {
            Some(c) => c,
            None => CurveConfig::Perceptual,
        }
    }
}

} // verus!
