use lightwire::config::{Config, LightConfig};
use lightwire::curves::{BuiltinCurve, CurveConfig};
use lightwire::lifx::LifxProvider;
use lightwire::sync::pairing_for_light;
use lightwire::types::Brightness;
use lightwire::curves::{LinearCurve, PerceptualCurve, Curve};
use lightwire::sync::{backoff_ms, MuteAction, Pairing, Phase, Step, Write};
use lightwire::types::LightId;

fn pairing<C: Curve>(curve: C, mute_action: MuteAction, dry_run: bool) -> Pairing<C> {
    let mut p = Pairing::new(
        LightId("lifx:Desk".to_string()),
        "lifx".to_string(),
        "lightwire-lifx-Desk".to_string(),
        curve,
        mute_action,
        dry_run,
    );
    p.start();
    p
}

#[test]
fn idle_pairing_ignores_events() {
    let mut p = Pairing::new(
        LightId("x".to_string()),
        "lifx".to_string(),
        "n".to_string(),
        LinearCurve,
        MuteAction::Ignore,
        false,
    );
    assert_eq!(p.phase(), Phase::Idle);
    assert_eq!(p.on_audio_event(300_000, false), Step::Nothing);
    assert_eq!(p.on_light_state(300_000), Step::Nothing);
}

#[test]
fn audio_change_writes_brightness_once() {
    let mut p = pairing(PerceptualCurve, MuteAction::Ignore, false);
    let step = p.on_audio_event(500_000, false);
    assert_eq!(step, Step::Issue(Write::Brightness(184_186)));
    assert_eq!(p.phase(), Phase::Propagating(lightwire::sync::Direction::ToLight));
    assert_eq!(p.on_write_result(true), None);
    assert_eq!(p.phase(), Phase::Watching);
    // The light now reports what the pairing wrote: an echo, dropped.
    assert_eq!(p.on_light_state(184_186), Step::Nothing);
    assert_eq!(p.on_light_state(184_250), Step::Nothing);
}

#[test]
fn audio_echo_is_dropped() {
    let mut p = pairing(LinearCurve, MuteAction::Ignore, false);
    let step = p.on_light_state(600_000);
    assert_eq!(step, Step::Issue(Write::Volume(600_000)));
    p.on_write_result(true);
    assert_eq!(p.on_audio_event(600_000, false), Step::Nothing);
    assert_eq!(p.on_audio_event(600_100, false), Step::Nothing);
    assert_eq!(p.on_audio_event(600_101, false), Step::Issue(Write::Brightness(600_101)));
}

#[test]
fn light_change_writes_inverse_volume() {
    let mut p = pairing(PerceptualCurve, MuteAction::Ignore, false);
    let step = p.on_light_state(1_000_000);
    assert_eq!(step, Step::Issue(Write::Volume(1_000_000)));
    assert_eq!(p.on_light_state(8_856), Step::Issue(Write::Volume(79_996)));
}

#[test]
fn dry_run_describes_and_issues_nothing() {
    let mut p = pairing(LinearCurve, MuteAction::LightOff, true);
    assert_eq!(p.on_audio_event(250_000, false), Step::Describe(Write::Brightness(250_000)));
    assert_eq!(p.phase(), Phase::Watching);
    assert_eq!(p.on_light_state(400_000), Step::Describe(Write::Volume(400_000)));
    assert_eq!(p.on_audio_event(250_000, true), Step::Describe(Write::LightOff));
}

#[test]
fn mute_turns_light_off_and_unmute_restores_level() {
    let mut p = pairing(LinearCurve, MuteAction::LightOff, false);
    assert_eq!(p.on_audio_event(300_000, false), Step::Issue(Write::Brightness(300_000)));
    p.on_write_result(true);
    assert_eq!(p.on_audio_event(300_000, true), Step::Issue(Write::LightOff));
    p.on_write_result(true);
    assert_eq!(p.on_audio_event(300_000, true), Step::Nothing);
    assert_eq!(p.on_audio_event(300_000, false), Step::Issue(Write::Brightness(300_000)));
}

#[test]
fn mute_ignored_by_policy() {
    let mut p = pairing(LinearCurve, MuteAction::Ignore, false);
    assert_eq!(p.on_audio_event(300_000, true), Step::Nothing);
    assert_eq!(p.on_audio_event(700_000, true), Step::Nothing);
}

#[test]
fn failures_back_off_exponentially() {
    let mut p = pairing(LinearCurve, MuteAction::Ignore, false);
    p.on_audio_event(300_000, false);
    assert_eq!(p.on_write_result(false), Some(500));
    assert_eq!(p.phase(), Phase::Suspect);
    assert_eq!(p.on_read_failed(), 1000);
    assert_eq!(p.on_read_failed(), 2000);
    assert_eq!(p.failures(), 3);
    p.on_backoff_elapsed();
    assert_eq!(p.phase(), Phase::Watching);
    p.on_audio_event(900_000, false);
    assert_eq!(p.on_write_result(true), None);
    assert_eq!(p.failures(), 0);
}

#[test]
fn successful_read_ends_suspect() {
    let mut p = pairing(LinearCurve, MuteAction::Ignore, false);
    p.on_read_failed();
    assert_eq!(p.phase(), Phase::Suspect);
    assert_eq!(p.on_light_state(10_000), Step::Issue(Write::Volume(10_000)));
}

#[test]
fn backoff_is_capped() {
    assert_eq!(backoff_ms(0), 500);
    assert_eq!(backoff_ms(1), 500);
    assert_eq!(backoff_ms(2), 1000);
    assert_eq!(backoff_ms(6), 16000);
    assert_eq!(backoff_ms(7), 30000);
    assert_eq!(backoff_ms(u32::MAX / 4096), 30000);
}

fn loop_of_two(dry_run: bool) -> lightwire::sync::SyncLoop<LinearCurve> {
    let make = |label: &str| {
        Pairing::new(
            LightId(format!("lifx:{}", label)),
            "lifx".to_string(),
            format!("lightwire-lifx-{}", label),
            LinearCurve,
            MuteAction::Ignore,
            dry_run,
        )
    };
    let mut l = lightwire::sync::SyncLoop::new(vec![make("Desk"), make("Shelf")]);
    l.start_all();
    l
}

fn event(node: &str, volume: u32, muted: bool) -> lightwire::volume::VolumeEvent {
    lightwire::volume::VolumeEvent { node_name: node.to_string(), volume, muted }
}

#[test]
fn events_reach_only_their_pairing() {
    let mut l = loop_of_two(false);
    let r = l.on_volume_event(&event("lightwire-lifx-Shelf", 420_000, false));
    assert_eq!(r, Some((1, Step::Issue(Write::Brightness(420_000)))));
    assert_eq!(l.pairings[0].phase(), Phase::Watching);
    assert_eq!(l.on_volume_event(&event("elsewhere", 1, false)), None);
}

#[test]
fn failure_of_one_pairing_leaves_the_other_running() {
    let mut l = loop_of_two(false);
    assert_eq!(l.on_pairing_failure(0), 500);
    assert_eq!(l.pairings[0].phase(), Phase::Suspect);
    assert_eq!(l.pairings[1].phase(), Phase::Watching);
    assert_eq!(l.on_light_reading(1, 300_000), Step::Issue(Write::Volume(300_000)));
}

#[test]
fn dry_run_loop_issues_no_call() {
    let mut l = loop_of_two(true);
    let a = l.on_volume_event(&event("lightwire-lifx-Desk", 100_000, false));
    let b = l.on_light_reading(1, 900_000);
    assert_eq!(a, Some((0, Step::Describe(Write::Brightness(100_000)))));
    assert_eq!(b, Step::Describe(Write::Volume(900_000)));
}

#[test]
fn monitor_watches_named_nodes() {
    let m = lightwire::volume::VolumeMonitor::new(vec!["a".to_string(), "b".to_string()]);
    assert!(m.watches("b"));
    assert!(!m.watches("c"));
}

#[test]
fn limits_are_written_and_recorded() {
    let mut p = pairing(LinearCurve, MuteAction::Ignore, false);
    p.set_limits(Some(100_000), Some(800_000));
    assert_eq!(p.on_audio_event(950_000, false), Step::Issue(Write::Brightness(800_000)));
    p.on_write_result(true);
    // The light reports the clipped level: the pairing's own echo.
    assert_eq!(p.on_light_state(800_000), Step::Nothing);
    assert_eq!(p.on_audio_event(20_000, false), Step::Issue(Write::Brightness(100_000)));
}

#[test]
fn pairings_follow_configuration() {
    let mut config = Config::default();
    config.curves.custom.push(("soft".to_string(), CurveConfig::Gamma { gamma: Some(1500) }));
    config.lights.lights.push((
        "Desk".to_string(),
        LightConfig {
            min_brightness: Some(50_000),
            max_brightness: None,
            curve: Some("soft".to_string()),
            mute_action: Some("off".to_string()),
            enabled: None,
        },
    ));
    config.lights.lights.push((
        "Hall".to_string(),
        LightConfig { min_brightness: None, max_brightness: None, curve: None, mute_action: None, enabled: Some(false) },
    ));
    let desk = LifxProvider::light("Desk", Brightness::new(1), true);
    let hall = LifxProvider::light("Hall", Brightness::new(1), true);
    let shelf = LifxProvider::light("Shelf", Brightness::new(1), true);

    let p = pairing_for_light(&config, &desk, false).unwrap();
    assert_eq!(p.node, "lightwire-lifx-Desk");
    assert!(matches!(p.curve, BuiltinCurve::Gamma(g) if g.gamma == 1500));
    assert_eq!(p.mute_action, MuteAction::LightOff);
    assert_eq!(p.min_brightness, Some(50_000));
    assert!(pairing_for_light(&config, &hall, false).is_none());
    let s = pairing_for_light(&config, &shelf, true).unwrap();
    assert!(matches!(s.curve, BuiltinCurve::Perceptual(_)));
    assert_eq!(s.mute_action, MuteAction::Ignore);
    assert!(s.dry_run);
    assert_eq!(s.phase(), Phase::Idle);
}
