use lightwire::error::ProviderError;
use lightwire::lifx::LifxProvider;
use lightwire::registry::{merge_discovered, Provider, ProviderRegistry};
use lightwire::types::{Brightness, Light, LightId, LightState};

#[derive(Debug)]
struct MockProvider {
    name: &'static str,
    fails: bool,
}

fn mock(name: &'static str) -> MockProvider {
    MockProvider { name, fails: false }
}

fn mock_light(provider: &str, id: &str, label: &str, brightness: i64) -> Light {
    Light::new(
        provider.to_string(),
        LightState::new(LightId(id.to_string()), label.to_string(), Brightness::new(brightness), true),
    )
}

impl Provider for MockProvider {
    fn name(&self) -> String {
        self.name.to_string()
    }

    fn discover(&self) -> Result<Vec<Light>, ProviderError> {
        if self.fails {
            return Err(ProviderError::DiscoveryFailed("unreachable".to_string()));
        }
        Ok(vec![
            mock_light(self.name, "id1", "Light 1", 500_000),
            mock_light(self.name, "id2", "Light 2", 750_000),
        ])
    }

    fn get_state(&self, id: &LightId) -> Result<LightState, ProviderError> {
        if self.fails {
            return Err(ProviderError::NotFound(id.clone()));
        }
        Ok(LightState::new(LightId("test".to_string()), "Test".to_string(), Brightness::new(500_000), true))
    }

    fn set_brightness(&self, _id: &LightId, brightness: Brightness) -> Result<(), ProviderError> {
        if self.fails {
            return Err(ProviderError::SetBrightnessFailed(format!("{}", brightness.value())));
        }
        Ok(())
    }

    fn health_check(&self) -> Result<(), ProviderError> {
        Ok(())
    }
}

#[test]
fn test_registry_new() {
    let registry: ProviderRegistry<MockProvider> = ProviderRegistry::new();
    assert!(registry.is_empty());
    assert_eq!(registry.count(), 0);
}

#[test]
fn default_registry_is_empty() {
    let registry: ProviderRegistry<MockProvider> = ProviderRegistry::default();
    assert_eq!(registry.count(), 0);
    assert!(registry.get("lifx").is_none());
}

#[test]
fn test_registry_register() {
    let mut registry = ProviderRegistry::new();
    registry.register(mock("test"));
    assert_eq!(registry.count(), 1);
    assert!(registry.get("test").is_some());
}

#[test]
fn test_registry_register_replace() {
    let mut registry = ProviderRegistry::new();
    registry.register(mock("test"));
    registry.register(MockProvider { name: "test", fails: true });

    assert_eq!(registry.count(), 1);
    assert!(registry.get("test").unwrap().fails);
}

#[test]
fn test_registry_provider_names() {
    let mut registry = ProviderRegistry::new();
    registry.register(mock("lifx"));
    registry.register(mock("hue"));

    let names = registry.provider_names();
    assert_eq!(names.len(), 2);
    assert!(names.contains(&"lifx".to_string()));
    assert!(names.contains(&"hue".to_string()));
}

#[test]
fn test_registry_discover_all() {
    let mut registry = ProviderRegistry::new();
    registry.register(mock("lifx"));
    registry.register(mock("hue"));

    let lights = registry.discover_all();
    assert_eq!(lights.len(), 4);
    assert_eq!(lights[0].provider, "lifx");
    assert_eq!(lights[0].state.id.0, "id1");
    assert_eq!(lights[1].state.id.0, "id2");
    assert_eq!(lights[2].provider, "hue");
    assert_eq!(lights[2].state.id.0, "id1");
    assert_eq!(lights[3].state.id.0, "id2");
}

#[test]
fn test_registry_get_state() {
    let mut registry = ProviderRegistry::new();
    registry.register(mock("test"));

    let result = registry.get_state("test", &LightId("any".to_string()));
    assert!(result.is_ok());
}

#[test]
fn test_registry_get_state_not_found() {
    let registry: ProviderRegistry<MockProvider> = ProviderRegistry::new();

    let result = registry.get_state("missing", &LightId("any".to_string()));
    assert!(result.is_err());
    match result {
        Err(ProviderError::NotConfigured(m)) => assert_eq!(m, "Provider 'missing' not found"),
        _ => panic!("expected a routing failure"),
    }
}

#[test]
fn test_registry_set_brightness() {
    let mut registry = ProviderRegistry::new();
    registry.register(mock("test"));

    let result = registry.set_brightness("test", &LightId("any".to_string()), Brightness::new(500_000));
    assert!(result.is_ok());
}

#[test]
fn set_brightness_unknown_provider_is_not_configured() {
    let mut registry = ProviderRegistry::new();
    registry.register(mock("test"));
    let result = registry.set_brightness("hue", &LightId("any".to_string()), Brightness::new(1));
    assert!(matches!(result, Err(ProviderError::NotConfigured(_))));
}

#[test]
fn failing_provider_leaves_others_intact() {
    let mut registry = ProviderRegistry::new();
    registry.register(mock("lifx"));
    registry.register(MockProvider { name: "broken", fails: true });
    registry.register(mock("hue"));

    let outcomes = registry.discover_each();
    assert_eq!(outcomes.len(), 3);
    assert!(outcomes[1].is_err());
    let lights = merge_discovered(outcomes);
    assert_eq!(lights.len(), 4);
    assert_eq!(lights[0].provider, "lifx");
    assert_eq!(lights[2].provider, "hue");
}

#[test]
fn zero_lights_is_success() {
    let registry: ProviderRegistry<MockProvider> = ProviderRegistry::new();
    assert!(registry.discover_all().is_empty());
    assert!(merge_discovered(vec![Ok(vec![])]).is_empty());
}

#[test]
fn lifx_stub_discovery() {
    let mut registry = ProviderRegistry::new();
    registry.register(LifxProvider::default_config());
    assert!(registry.get("lifx").is_some());
    let lights = registry.discover_all();
    assert_eq!(lights.len(), 2);
    assert_eq!(lights[0].state.id.0, "lifx:Stub Light 1");
    assert_eq!(lights[0].state.brightness.value(), 750_000);
    assert_eq!(lights[1].label(), "Stub Light 2");
    assert_eq!(lights[1].provider_name(), "lifx");
}

#[test]
fn lifx_provider_settings() {
    let p = LifxProvider::new(1200, "192.168.1.255".to_string(), 56701);
    assert_eq!(p.discovery_timeout_ms, 1200);
    assert_eq!(p.broadcast_address, "192.168.1.255");
    assert_eq!(p.port, 56701);
    let d = LifxProvider::default();
    assert_eq!(d.discovery_timeout_ms, 5000);
    assert_eq!(d.broadcast_address, "255.255.255.255");
    assert_eq!(d.port, 56700);
}

#[test]
fn provider_outcomes_pass_through_unchanged() {
    let mut registry = ProviderRegistry::new();
    registry.register(mock("ok"));
    registry.register(MockProvider { name: "bad", fails: true });
    match registry.get_state("bad", &LightId("lamp".to_string())) {
        Err(ProviderError::NotFound(id)) => assert_eq!(id.0, "lamp"),
        _ => panic!("expected the provider's own error"),
    }
    match registry.set_brightness("bad", &LightId("lamp".to_string()), Brightness::new(250_000)) {
        Err(ProviderError::SetBrightnessFailed(m)) => assert_eq!(m, "250000"),
        _ => panic!("expected the provider's own error"),
    }
    assert_eq!(registry.get_state("ok", &LightId("lamp".to_string())).unwrap().label, "Test");
}
