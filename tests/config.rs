use lightwire::config::{
    default_broadcast_address, default_config_dir, default_curve, default_discovery_timeout,
    default_node_prefix, default_port, Config, CurvesConfig, LightConfig,
};
use lightwire::curves::CurveConfig;
use lightwire::sync::MuteAction;

#[test]
fn defaults_are_documented_values() {
    assert_eq!(default_config_dir(), None);
    assert_eq!(default_node_prefix(), "lightwire");
    assert_eq!(default_curve(), "perceptual");
    assert_eq!(default_discovery_timeout(), 5000);
    assert_eq!(default_broadcast_address(), "255.255.255.255");
    assert_eq!(default_port(), 56700);
    let c = Config::default();
    assert_eq!(c.curves.default, "perceptual");
    assert_eq!(c.lifx.discovery_timeout_ms, 5000);
    assert_eq!(c.pipewire.node_prefix, "lightwire");
}

#[test]
fn curve_resolution_prefers_custom_then_builtin() {
    let mut curves = CurvesConfig::default();
    curves.custom.push(("soft".to_string(), CurveConfig::Gamma { gamma: Some(1500) }));
    assert_eq!(curves.resolve("soft"), Some(CurveConfig::Gamma { gamma: Some(1500) }));
    assert_eq!(curves.resolve("linear"), Some(CurveConfig::Linear));
    assert_eq!(curves.resolve("unknown"), None);
    assert_eq!(curves.curve_for(Some(&"soft".to_string())), CurveConfig::Gamma { gamma: Some(1500) });
    assert_eq!(curves.curve_for(Some(&"unknown".to_string())), CurveConfig::Perceptual);
    assert_eq!(curves.curve_for(None), CurveConfig::Perceptual);
}

#[test]
fn light_overrides_apply() {
    let light = LightConfig {
        min_brightness: Some(100_000),
        max_brightness: Some(900_000),
        curve: None,
        mute_action: Some("off".to_string()),
        enabled: None,
    };
    assert_eq!(light.limit(50_000), 100_000);
    assert_eq!(light.limit(950_000), 900_000);
    assert_eq!(light.limit(500_000), 500_000);
    assert!(light.is_enabled());
    assert_eq!(light.mute_action(), MuteAction::LightOff);
    let other = LightConfig { min_brightness: None, max_brightness: None, curve: None, mute_action: None, enabled: Some(false) };
    assert!(!other.is_enabled());
    assert_eq!(other.mute_action(), MuteAction::Ignore);
    assert_eq!(other.limit(123), 123);
}
