use lightwire::dropin::{is_generated_filename, DropinConfig};
use lightwire::lifx::LifxProvider;
use lightwire::types::{Brightness, LightId};

fn desk() -> DropinConfig {
    DropinConfig::new(
        "lifx".to_string(),
        "Desk Lamp #2".to_string(),
        LightId("lifx:Desk Lamp #2".to_string()),
        "lightwire".to_string(),
    )
}

#[test]
fn names_are_safe_and_prefixed() {
    let d = desk();
    assert_eq!(d.node_name(), "lightwire-lifx-Desk-Lamp--2");
    assert_eq!(d.filename(), "lightwire-lifx-Desk-Lamp--2.conf");
}

#[test]
fn descriptor_is_reproducible() {
    let text = desk().generate();
    assert_eq!(text, desk().generate());
    assert!(text.starts_with("# lightwire drop-in for Desk Lamp #2\n"));
    assert!(text.contains("node.name = \"lightwire-lifx-Desk-Lamp--2\""));
    assert!(text.contains("node.description = \"Desk Lamp #2\""));
    assert!(text.contains("lightwire.provider = \"lifx\""));
    assert!(text.contains("lightwire.light-id = \"lifx:Desk Lamp #2\""));
}

#[test]
fn cleanup_recognises_only_generated_files() {
    assert!(is_generated_filename(&desk().filename(), "lightwire"));
    assert!(!is_generated_filename("lightwire.conf", "lightwire"));
    assert!(!is_generated_filename("user-sink.conf", "lightwire"));
    assert!(!is_generated_filename("lightwire-lifx-Desk.txt", "lightwire"));
    assert!(is_generated_filename("lightwire-x.conf", "lightwire"));
}

#[test]
fn descriptor_for_discovered_light() {
    let light = LifxProvider::light("Shelf", Brightness::new(1), true);
    let d = DropinConfig::for_light(&light, &"lightwire".to_string());
    assert_eq!(d.filename(), "lightwire-lifx-Shelf.conf");
    assert_eq!(d.id.0, "lifx:Shelf");
}

#[test]
fn one_descriptor_per_discovered_light() {
    let lights = vec![
        LifxProvider::light("Desk", Brightness::new(1), true),
        LifxProvider::light("Shelf", Brightness::new(2), false),
    ];
    let all = DropinConfig::for_lights(&lights, &"lw".to_string());
    assert_eq!(all.len(), 2);
    assert_eq!(all[0].filename(), "lw-lifx-Desk.conf");
    assert_eq!(all[1].filename(), "lw-lifx-Shelf.conf");
}
