use lightwire::error::ProviderError;
use lightwire::types::{Brightness, LightId, LightState};
use lightwire::volume::{Volume, VolumeController};
use std::collections::HashSet;

#[test]
fn test_light_id_equality() {
    let id1 = LightId("test-id".to_string());
    let id2 = LightId("test-id".to_string());
    let id3 = LightId("other-id".to_string());

    assert_eq!(id1, id2);
    assert_ne!(id1, id3);
}

#[test]
fn test_light_id_hash() {
    let id1 = LightId("test-id".to_string());
    let id2 = LightId("test-id".to_string());
    let id3 = LightId("other-id".to_string());

    let mut set = HashSet::new();
    set.insert(id1.clone());
    assert!(set.contains(&id2));
    assert!(!set.contains(&id3));
}

#[test]
fn test_brightness_new_clamps() {
    assert_eq!(Brightness::new(1_500_000).value(), 1_000_000);
    assert_eq!(Brightness::new(-500_000).value(), 0);
    assert_eq!(Brightness::new(500_000).value(), 500_000);
}

#[test]
fn test_brightness_conversions() {
    let b = Brightness::new(500_000);

    assert_eq!(b.value(), 500_000);
    assert_eq!(b.as_u16(), 32767);
    assert_eq!(b.as_percent(), 50);
}

#[test]
fn test_brightness_default() {
    let b = Brightness::default();
    assert_eq!(b.value(), 0);
}

#[test]
fn test_light_state_new() {
    let id = LightId("test-id".to_string());
    let state = LightState::new(id.clone(), "Test Light".to_string(), Brightness::new(750_000), true);

    assert_eq!(state.id, id);
    assert_eq!(state.label, "Test Light");
    assert_eq!(state.brightness.value(), 750_000);
    assert!(state.power);
}

#[test]
fn brightness_full_scale_conversions() {
    let b = Brightness::new(1_000_000);
    assert_eq!(b.as_u16(), 65535);
    assert_eq!(b.as_percent(), 100);
    let low = Brightness::new(9_999);
    assert_eq!(low.as_percent(), 0);
    assert_eq!(low.as_u16(), 655);
}

#[test]
fn volume_mute_keeps_level() {
    let v = Volume::muted(400_000);
    assert!(v.is_muted());
    assert_eq!(v.value(), 400_000);
    let u = Volume::new(2_000_000);
    assert!(!u.is_muted());
    assert_eq!(u.value(), 1_000_000);
    assert_eq!(Volume::new(-1).value(), 0);
}

#[test]
fn volume_controller_keeps_node() {
    let c = VolumeController::new("lightwire-lifx-Desk".to_string());
    assert_eq!(c.node_name, "lightwire-lifx-Desk");
}

#[test]
fn error_messages_name_their_kind() {
    let e = ProviderError::NotConfigured("Provider 'x' not found".to_string());
    assert_eq!(e.message(), "Provider not configured: Provider 'x' not found");
    let t = ProviderError::Timeout("discovery".to_string());
    assert!(t.is_timeout());
    assert!(!e.is_timeout());
    let n = ProviderError::NotFound(LightId("lifx:Desk".to_string()));
    assert_eq!(n.message(), "Light not found: lifx:Desk");
}
