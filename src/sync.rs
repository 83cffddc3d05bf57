use vstd::prelude::*;

use crate::config::{
    curve_choice, enabled_of, light_named, limit_brightness, limited, mute_action_of, Config,
};
use crate::curves::{curve_of, BuiltinCurve};
use crate::dropin::{node_name_of, DropinConfig};
use crate::types::Light;
use crate::curves::{to_fine, to_unit, Curve};
use crate::fixed::{clamp_to_unit, clamp_unit, FINE_PER_UNIT, SCALE};
use crate::types::LightId;
use crate::volume::VolumeEvent;

verus! {

/// How close, in millionths, an observed value must be to the value last written to the same
/// side to count as the echo of that write.
pub const TOLERANCE: u32 = 100;

/// The first delay after a failure, in milliseconds.
pub const BASE_BACKOFF_MS: u64 = 500;

/// The longest delay between retries, in milliseconds.
pub const MAX_BACKOFF_MS: u64 = 30000;

/// The side that a write goes to.
#[derive(Clone, Copy, Debug, PartialEq, Eq, Structural)]
pub enum Direction {
    ToLight,
    ToAudio,
}

/// Where a pairing stands.
#[derive(Clone, Copy, Debug, PartialEq, Eq, Structural)]
pub enum Phase {
    /// Not yet watching either side.
    Idle,
    /// Waiting for events from either side.
    Watching,
    /// A write was issued and its outcome is awaited.
    Propagating(Direction),
    /// A read or write failed; the pairing waits out its backoff.
    Suspect,
}

/// What muting the audio side does to the light.
#[derive(Clone, Copy, Debug, PartialEq, Eq, Structural)]
pub enum MuteAction {
    /// Muting switches the light off.
    LightOff,
    /// Muting leaves the light as it is.
    Ignore,
}

/// A write to one side.
#[derive(Clone, Copy, Debug, PartialEq, Eq, Structural)]
pub enum Write {
    /// Set the light's brightness, in millionths.
    Brightness(u32),
    /// Set the audio node's volume, in millionths.
    Volume(u32),
    /// Switch the light off.
    LightOff,
}

/// What the loop does after an event.
#[derive(Clone, Copy, Debug, PartialEq, Eq, Structural)]
pub enum Step {
    /// Nothing to write.
    Nothing,
    /// Perform the write.
    Issue(Write),
    /// Dry run: describe the write without performing it.
    Describe(Write),
}

/// The echo-suppression and backoff state of a pairing.
pub struct PairingState {
    pub phase: Phase,
    /// The brightness this pairing last wrote to the light.
    pub last_brightness: Option<nat>,
    /// The volume this pairing last wrote to the audio node.
    pub last_volume: Option<nat>,
    /// The audio level last observed, muted or not.
    pub observed_volume: Option<nat>,
    pub muted: bool,
    /// Failures since the last success.
    pub failures: nat,
}

/// Whether two levels are equal within `TOLERANCE`.
pub open spec fn within_tolerance(a: nat, b: nat) -> bool {
    if a >= b {
        a - b <= TOLERANCE
    } else {
        b - a <= TOLERANCE
    }
}

/// Whether an observed level is the echo of the last write to the same side.
pub open spec fn is_echo(last: Option<nat>, observed: nat) -> bool {
    match last {
        Some(w) => within_tolerance(observed, w),
        None => false,
    }
}

/// The delay before the retry that follows the given number of failures: it doubles with each
/// failure from `BASE_BACKOFF_MS` and stops at `MAX_BACKOFF_MS`.
pub open spec fn backoff_delay(failures: nat) -> nat
    decreases failures,
{
    if failures <= 1 {
        BASE_BACKOFF_MS as nat
    } else {
        let d = 2 * backoff_delay((failures - 1) as nat);
        if d > MAX_BACKOFF_MS {
            MAX_BACKOFF_MS as nat
        } else {
            d
        }
    }
}

/// The step and state after deciding on a write: a dry run only describes it; otherwise the
/// value written is recorded before the write is issued.
pub open spec fn emit(s: PairingState, w: Write, dry_run: bool) -> (PairingState, Step) {
    if dry_run {
        (s, Step::Describe(w))
    } else {
        match w {
            Write::Brightness(b) => (
                PairingState {
                    phase: Phase::Propagating(Direction::ToLight),
                    last_brightness: Some(b as nat),
                    ..s
                },
                Step::Issue(w),
            ),
            Write::Volume(v) => (
                PairingState {
                    phase: Phase::Propagating(Direction::ToAudio),
                    last_volume: Some(v as nat),
                    ..s
                },
                Step::Issue(w),
            ),
            Write::LightOff => (
                PairingState { phase: Phase::Propagating(Direction::ToLight), ..s },
                Step::Issue(w),
            ),
        }
    }
}

/// The transition on an audio-side event carrying a level `v` (already clamped) and a mute
/// flag, where `b` is the curve's brightness for `v`.
pub open spec fn audio_transition(
    s: PairingState,
    v: nat,
    muted: bool,
    b: nat,
    mute_action: MuteAction,
    dry_run: bool,
) -> (PairingState, Step) {
    if s.phase == Phase::Idle {
        (s, Step::Nothing)
    } else {
        let seen = PairingState { observed_volume: Some(v), muted: muted, ..s };
        if muted && !s.muted {
            if mute_action == MuteAction::LightOff {
                emit(seen, Write::LightOff, dry_run)
            } else {
                (seen, Step::Nothing)
            }
        } else if !muted && s.muted {
            emit(seen, Write::Brightness(b as u32), dry_run)
        } else if muted {
            (seen, Step::Nothing)
        } else if is_echo(s.last_volume, v) {
            (seen, Step::Nothing)
        } else {
            emit(seen, Write::Brightness(b as u32), dry_run)
        }
    }
}

/// The transition on a light-side reading `b` (already clamped), where `v` is the curve's
/// volume for `b`. A successful reading ends a `Suspect` phase.
pub open spec fn light_transition(s: PairingState, b: nat, v: nat, dry_run: bool) -> (
    PairingState,
    Step,
) {
    if s.phase == Phase::Idle {
        (s, Step::Nothing)
    } else {
        let seen = if s.phase == Phase::Suspect {
            PairingState { phase: Phase::Watching, ..s }
        } else {
            s
        };
        if is_echo(s.last_brightness, b) {
            (seen, Step::Nothing)
        } else {
            emit(seen, Write::Volume(v as u32), dry_run)
        }
    }
}

/// The step a dry run takes in place of `step`: a write is described instead of issued.
pub open spec fn as_described(step: Step) -> Step {
    match step {
        Step::Issue(w) => Step::Describe(w),
        _ => step,
    }
}

/// An audio-side level within tolerance of the volume the pairing itself last wrote is its own
/// echo: without a change of the mute flag (in particular, an unmuted event reaching an
/// unmuted pairing), it is dropped, nothing is written to the light, and the values last
/// written stay as they were. An un-mute event is no echo: it restores the light.
pub proof fn lemma_audio_echo_dropped(
    s: PairingState,
    v: nat,
    muted: bool,
    b: nat,
    mute_action: MuteAction,
    dry_run: bool,
)
    requires
        muted == s.muted,
        is_echo(s.last_volume, v),
    ensures
        audio_transition(s, v, muted, b, mute_action, dry_run).1 == Step::Nothing,
        audio_transition(s, v, muted, b, mute_action, dry_run).0.last_brightness
            == s.last_brightness,
        audio_transition(s, v, muted, b, mute_action, dry_run).0.last_volume == s.last_volume,
        audio_transition(s, v, muted, b, mute_action, dry_run).0.phase == s.phase,
{
}

/// A light-side reading that is not the echo of the pairing's own write issues exactly one
/// write, to the audio side, of the curve's volume `v`, and records `v` as the last volume
/// written before the write goes out.
pub proof fn lemma_light_change_propagates(s: PairingState, b: nat, v: nat)
    requires
        s.phase != Phase::Idle,
        !is_echo(s.last_brightness, b),
        v <= SCALE,
    ensures
        light_transition(s, b, v, false).1 == Step::Issue(Write::Volume(v as u32)),
        light_transition(s, b, v, false).0.last_volume == Some(v),
        light_transition(s, b, v, false).0.last_brightness == s.last_brightness,
        light_transition(s, b, v, false).0.phase == Phase::Propagating(Direction::ToAudio),
{
}

/// A dry run describes exactly the writes that a live run would issue, issues none, and leaves
/// the record of written values untouched.
pub proof fn lemma_dry_run_describes_only(
    s: PairingState,
    v: nat,
    muted: bool,
    b: nat,
    mute_action: MuteAction,
)
    ensures
        audio_transition(s, v, muted, b, mute_action, true).1 == as_described(
            audio_transition(s, v, muted, b, mute_action, false).1,
        ),
        !(audio_transition(s, v, muted, b, mute_action, true).1 is Issue),
        audio_transition(s, v, muted, b, mute_action, true).0.last_brightness == s.last_brightness,
        audio_transition(s, v, muted, b, mute_action, true).0.last_volume == s.last_volume,
        light_transition(s, b, v, true).1 == as_described(light_transition(s, b, v, false).1),
        !(light_transition(s, b, v, true).1 is Issue),
        light_transition(s, b, v, true).0.last_brightness == s.last_brightness,
        light_transition(s, b, v, true).0.last_volume == s.last_volume,
{
}

/// The live association of one light with one audio node under a curve.
pub struct Pairing<C: Curve> {
    pub light: LightId,
    pub provider: String,
    pub node: String,
    pub curve: C,
    pub mute_action: MuteAction,
    /// In a dry run the pairing describes writes and performs none.
    pub dry_run: bool,
    /// The lowest brightness written, in millionths.
    pub min_brightness: Option<u32>,
    /// The highest brightness written, in millionths.
    pub max_brightness: Option<u32>,
    /// Echo-suppression and backoff state, which only the pairing's own methods touch.
    pub tracking: Tracking,
}

/// The values a pairing last wrote and observed, its phase and its failure count.
pub struct Tracking {
    phase: Phase,
    last_brightness: Option<u32>,
    last_volume: Option<u32>,
    observed_volume: Option<u32>,
    muted: bool,
    failures: u32,
}

impl Tracking {
    pub closed spec fn view(&self) -> PairingState {
        PairingState {
            phase: self.phase,
            last_brightness: match self.last_brightness {
                Some(b) => Some(b as nat),
                None => None,
            },
            last_volume: match self.last_volume {
                Some(v) => Some(v as nat),
                None => None,
            },
            observed_volume: match self.observed_volume {
                Some(v) => Some(v as nat),
                None => None,
            },
            muted: self.muted,
            failures: self.failures as nat,
        }
    }
}

impl<C: Curve> Pairing<C> {
    /// The state this pairing alone reads and writes.
    pub open spec fn state(&self) -> PairingState {
        self.tracking.view()
    }

    /// Keeps the fixed parts of a pairing between two moments.
    pub open spec fn same_setup(&self, other: &Pairing<C>) -> bool {
        &&& self.light == other.light
        &&& self.provider == other.provider
        &&& self.node == other.node
        &&& self.curve == other.curve
        &&& self.mute_action == other.mute_action
        &&& self.dry_run == other.dry_run
        &&& self.min_brightness == other.min_brightness
        &&& self.max_brightness == other.max_brightness
    }

    /// The brightness this pairing writes for a volume: the curve's, in millionths, within the
    /// pairing's limits.
    pub open spec fn brightness_for(&self, volume: nat) -> nat {
        limited(to_unit(self.curve.spec_apply(volume as int)), self.min_brightness, self.max_brightness)
    }

    /// A new pairing: idle, with nothing written or observed yet.
    pub fn new(
        light: LightId,
        provider: String,
        node: String,
        curve: C,
        mute_action: MuteAction,
        dry_run: bool,
    ) -> (r: Pairing<C>)
        ensures
            r.light == light,
            r.provider == provider,
            r.node == node,
            r.curve == curve,
            r.mute_action == mute_action,
            r.dry_run == dry_run,
            r.min_brightness is None,
            r.max_brightness is None,
            r.state() == (PairingState {
                phase: Phase::Idle,
                last_brightness: None,
                last_volume: None,
                observed_volume: None,
                muted: false,
                failures: 0,
            }),
    {
        Pairing {
            light,
            provider,
            node,
            curve,
            mute_action,
            dry_run,
            min_brightness: None,
            max_brightness: None,
            tracking: Tracking {
                phase: Phase::Idle,
                last_brightness: None,
                last_volume: None,
                observed_volume: None,
                muted: false,
                failures: 0,
            },
        }
    }

    /// Sets the limits within which brightness is written.
    pub fn set_limits(&mut self, min_brightness: Option<u32>, max_brightness: Option<u32>)
        ensures
            final(self).min_brightness == min_brightness,
            final(self).max_brightness == max_brightness,
            final(self).light == old(self).light,
            final(self).provider == old(self).provider,
            final(self).node == old(self).node,
            final(self).curve == old(self).curve,
            final(self).mute_action == old(self).mute_action,
            final(self).dry_run == old(self).dry_run,
            final(self).state() == old(self).state(),
    {
        self.min_brightness = min_brightness;
        self.max_brightness = max_brightness;
    }

    pub fn phase(&self) -> (r: Phase)
        ensures
            r == self.state().phase,
    {
        self.tracking.phase
    }

    pub fn failures(&self) -> (r: u32)
        ensures
            r == self.state().failures,
    {
        self.tracking.failures
    }

    /// Starts watching both sides.
    pub fn start(&mut self)
        ensures
            final(self).same_setup(old(self)),
            final(self).state() == (PairingState { phase: Phase::Watching, ..old(self).state() }),
    {
        self.tracking.phase = Phase::Watching;
    }

    fn emit_write(&mut self, w: Write) -> (r: Step)
        ensures
            final(self).same_setup(old(self)),
            (final(self).state(), r) == emit(old(self).state(), w, old(self).dry_run),
    {
        if self.dry_run {
            return Step::Describe(w);
        }
        match w {
            Write::Brightness(b) => {
                self.tracking.last_brightness = Some(b);
                self.tracking.phase = Phase::Propagating(Direction::ToLight);
            },
            Write::Volume(v) => {
                self.tracking.last_volume = Some(v);
                self.tracking.phase = Phase::Propagating(Direction::ToAudio);
            },
            Write::LightOff => {
                self.tracking.phase = Phase::Propagating(Direction::ToLight);
            },
        }
        Step::Issue(w)
    }

    /// Handles an audio-side change: a level in millionths (clamped) and a mute flag.
    pub fn on_audio_event(&mut self, volume: u32, muted: bool) -> (r: Step)
        ensures
            final(self).same_setup(old(self)),
            (final(self).state(), r) == audio_transition(
                old(self).state(),
                clamp_unit(volume as int),
                muted,
                old(self).brightness_for(clamp_unit(volume as int)),
                old(self).mute_action,
                old(self).dry_run,
            ),
    {
        if self.tracking.phase == Phase::Idle {
            return Step::Nothing;
        }
        let v = clamp_to_unit(volume as i64);
        let b = limit_brightness(
            (self.curve.apply(v as i64) / FINE_PER_UNIT) as u32,
            self.min_brightness,
            self.max_brightness,
        );
        let was_muted = self.tracking.muted;
        self.tracking.observed_volume = Some(v);
        self.tracking.muted = muted;
        if muted && !was_muted {
            match self.mute_action {
                MuteAction::LightOff => self.emit_write(Write::LightOff),
                MuteAction::Ignore => Step::Nothing,
            }
        } else if !muted && was_muted {
            self.emit_write(Write::Brightness(b))
        } else if muted {
            Step::Nothing
        } else if echoes(self.tracking.last_volume, v) {
            Step::Nothing
        } else {
            self.emit_write(Write::Brightness(b))
        }
    }

    /// Handles a light-side reading of the brightness in millionths (clamped).
    pub fn on_light_state(&mut self, brightness: u32) -> (r: Step)
        ensures
            final(self).same_setup(old(self)),
            (final(self).state(), r) == light_transition(
                old(self).state(),
                clamp_unit(brightness as int),
                old(self).curve.spec_inverse(to_fine(clamp_unit(brightness as int)) as int),
                old(self).dry_run,
            ),
    {
        if self.tracking.phase == Phase::Idle {
            return Step::Nothing;
        }
        let b = clamp_to_unit(brightness as i64);
        let v = self.curve.inverse(b as i64 * FINE_PER_UNIT as i64);
        if self.tracking.phase == Phase::Suspect {
            self.tracking.phase = Phase::Watching;
        }
        if echoes(self.tracking.last_brightness, b) {
            Step::Nothing
        } else {
            self.emit_write(Write::Volume(v))
        }
    }

    /// Records the outcome of the write last issued. A success returns the pairing to
    /// `Watching`; a failure makes it `Suspect` and returns the delay before retrying.
    pub fn on_write_result(&mut self, ok: bool) -> (r: Option<u64>)
        ensures
            final(self).same_setup(old(self)),
            ok ==> r is None && final(self).state() == (PairingState {
                phase: Phase::Watching,
                failures: 0,
                ..old(self).state()
            }),
            !ok ==> r == Some(backoff_delay(final(self).state().failures) as u64) && final(self).state() == (PairingState {
                phase: Phase::Suspect,
                failures: saturating_next(old(self).state().failures),
                ..old(self).state()
            }),
    {
        if ok {
            self.tracking.phase = Phase::Watching;
            self.tracking.failures = 0;
            None
        } else {
            Some(self.on_failure())
        }
    }

    /// Records a failed read of either side: the pairing becomes `Suspect` and the delay before
    /// retrying is returned.
    pub fn on_read_failed(&mut self) -> (r: u64)
        ensures
            final(self).same_setup(old(self)),
            r == backoff_delay(final(self).state().failures),
            final(self).state() == (PairingState {
                phase: Phase::Suspect,
                failures: saturating_next(old(self).state().failures),
                ..old(self).state()
            }),
    {
        self.on_failure()
    }

    fn on_failure(&mut self) -> (r: u64)
        ensures
            final(self).same_setup(old(self)),
            r == backoff_delay(final(self).state().failures),
            final(self).state() == (PairingState {
                phase: Phase::Suspect,
                failures: saturating_next(old(self).state().failures),
                ..old(self).state()
            }),
    {
        if self.tracking.failures < u32::MAX {
            self.tracking.failures = self.tracking.failures + 1;
        }
        self.tracking.phase = Phase::Suspect;
        backoff_ms(self.tracking.failures)
    }

    /// The backoff has run out: a `Suspect` pairing watches again.
    pub fn on_backoff_elapsed(&mut self)
        ensures
            final(self).same_setup(old(self)),
            old(self).state().phase == Phase::Suspect ==> final(self).state() == (PairingState {
                phase: Phase::Watching,
                ..old(self).state()
            }),
            old(self).state().phase != Phase::Suspect ==> final(self).state() == old(self).state(),
    {
        if self.tracking.phase == Phase::Suspect {
            self.tracking.phase = Phase::Watching;
        }
    }
}

/// The pairings of a running loop. Each event goes to one pairing and changes no other, so a
/// failure of one pairing never blocks or fails the rest.
pub struct SyncLoop<C: Curve> {
    pub pairings: Vec<Pairing<C>>,
}

/// Where the first pairing for an audio node stands.
pub open spec fn pairing_for_node<C: Curve>(pairings: Seq<Pairing<C>>, node: Seq<char>) -> Option<
    int,
> {
    if exists|i: int| 0 <= i < pairings.len() && #[trigger] pairings[i].node@ == node {
        Some(
            choose|i: int|
                0 <= i < pairings.len() && #[trigger] pairings[i].node@ == node && forall|j: int|
                    0 <= j < i ==> pairings[j].node@ != node,
        )
    } else {
        None
    }
}

impl<C: Curve> SyncLoop<C> {
    pub fn new(pairings: Vec<Pairing<C>>) -> (r: SyncLoop<C>)
        ensures
            r.pairings@ == pairings@,
    {
        SyncLoop { pairings }
    }

    /// Starts every pairing.
    pub fn start_all(&mut self)
        ensures
            final(self).pairings@.len() == old(self).pairings@.len(),
            forall|i: int|
                0 <= i < final(self).pairings@.len() ==> (#[trigger] final(self).pairings@[i]).same_setup(
                    &old(self).pairings@[i],
                ) && final(self).pairings@[i].state() == (PairingState {
                    phase: Phase::Watching,
                    ..old(self).pairings@[i].state()
                }),
    {
        let n = self.pairings.len();
        let mut i: usize = 0;
        while i < n
            invariant
                n == old(self).pairings@.len(),
                self.pairings@.len() == n,
                i <= n,
                forall|k: int|
                    0 <= k < i ==> (#[trigger] self.pairings@[k]).same_setup(&old(self).pairings@[k])
                        && self.pairings@[k].state() == (PairingState {
                        phase: Phase::Watching,
                        ..old(self).pairings@[k].state()
                    }),
                forall|k: int| i <= k < n ==> #[trigger] self.pairings@[k] == old(self).pairings@[k],
            decreases n - i,
        {
            let mut p = self.pairings.remove(i);
            p.start();
            self.pairings.insert(i, p);
            i = i + 1;
        }
    }

    fn find_node(&self, node: &String) -> (r: Option<usize>)
        ensures
            match r {
                Some(i) => i < self.pairings@.len() && pairing_for_node(self.pairings@, node@)
                    == Some(i as int),
                None => pairing_for_node(self.pairings@, node@) is None,
            },
    {
        let mut i: usize = 0;
        while i < self.pairings.len()
            invariant
                i <= self.pairings@.len(),
                forall|j: int| 0 <= j < i ==> (#[trigger] self.pairings@[j]).node@ != node@,
            decreases self.pairings@.len() - i,
        {
            if self.pairings[i].node == *node {
                proof {
                    let ps = self.pairings@;
                    let k = choose|k: int|
                        0 <= k < ps.len() && #[trigger] ps[k].node@ == node@ && forall|j: int|
                            0 <= j < k ==> ps[j].node@ != node@;
                    assert(ps[i as int].node@ == node@);
                    if k < i {
                        assert(ps[k].node@ != node@);
                    }
                    if k > i {
                        assert(ps[i as int].node@ != node@);
                    }
                }
                return Some(i);
            }
            i = i + 1;
        }
        None
    }

    /// Hands an audio-side event to the pairing of its node. Returns that pairing's place and
    /// step; no other pairing changes. An event for a node no pairing watches changes nothing.
    pub fn on_volume_event(&mut self, event: &VolumeEvent) -> (r: Option<(usize, Step)>)
        ensures
            final(self).pairings@.len() == old(self).pairings@.len(),
            match pairing_for_node(old(self).pairings@, event.node_name@) {
                None => r is None && final(self).pairings@ == old(self).pairings@,
                Some(i) => r matches Some((k, step)) && k == i && ({
                    let before = old(self).pairings@[i];
                    let after = final(self).pairings@[i];
                    &&& after.same_setup(&before)
                    &&& (after.state(), step) == audio_transition(
                        before.state(),
                        clamp_unit(event.volume as int),
                        event.muted,
                        before.brightness_for(clamp_unit(event.volume as int)),
                        before.mute_action,
                        before.dry_run,
                    )
                    &&& final(self).pairings@ == old(self).pairings@.update(i, after)
                }),
            },
    {
        match self.find_node(&event.node_name) {
            None => None,
            Some(i) => {
                let mut p = self.pairings.remove(i);
                let step = p.on_audio_event(event.volume, event.muted);
                self.pairings.insert(i, p);
                assert(self.pairings@ =~= old(self).pairings@.update(i as int, p));
                Some((i, step))
            },
        }
    }

    /// Hands a light-side reading to the pairing at `index`; no other pairing changes.
    pub fn on_light_reading(&mut self, index: usize, brightness: u32) -> (r: Step)
        requires
            index < old(self).pairings@.len(),
        ensures
            ({
                let before = old(self).pairings@[index as int];
                let after = final(self).pairings@[index as int];
                &&& after.same_setup(&before)
                &&& (after.state(), r) == light_transition(
                    before.state(),
                    clamp_unit(brightness as int),
                    before.curve.spec_inverse(to_fine(clamp_unit(brightness as int)) as int),
                    before.dry_run,
                )
                &&& final(self).pairings@ == old(self).pairings@.update(index as int, after)
            }),
    {
        let mut p = self.pairings.remove(index);
        let step = p.on_light_state(brightness);
        self.pairings.insert(index, p);
        assert(self.pairings@ =~= old(self).pairings@.update(index as int, p));
        step
    }

    /// Records a failed read or write of the pairing at `index`: it alone becomes `Suspect`,
    /// and the delay before its retry is returned.
    pub fn on_pairing_failure(&mut self, index: usize) -> (r: u64)
        requires
            index < old(self).pairings@.len(),
        ensures
            ({
                let before = old(self).pairings@[index as int];
                let after = final(self).pairings@[index as int];
                &&& after.same_setup(&before)
                &&& after.state() == (PairingState {
                    phase: Phase::Suspect,
                    failures: saturating_next(before.state().failures),
                    ..before.state()
                })
                &&& r == backoff_delay(after.state().failures)
                &&& final(self).pairings@ == old(self).pairings@.update(index as int, after)
            }),
    {
        let mut p = self.pairings.remove(index);
        let delay = p.on_read_failed();
        self.pairings.insert(index, p);
        assert(self.pairings@ =~= old(self).pairings@.update(index as int, p));
        delay
    }
}

/// The pairing for a discovered light under a configuration, or `None` where the light's
/// overrides disable it. The light's overrides are found by its label; its node is the one its
/// drop-in descriptor declares; its curve, mute policy and brightness limits come from its
/// overrides, with the configuration's defaults where it has none.
pub fn pairing_for_light(config: &Config, light: &Light, dry_run: bool) -> (r: Option<
    Pairing<BuiltinCurve>,
>)
    ensures
        ({
            let own = light_named(config.lights.lights@, light.state.label@);
            &&& r is None <==> (own matches Some(c) && !enabled_of(c))
            &&& r matches Some(p) ==> {
                &&& p.light.0@ == light.state.id.0@
                &&& p.provider@ == light.provider@
                &&& p.node@ == node_name_of(
                    config.pipewire.node_prefix@,
                    light.provider@,
                    light.state.label@,
                )
                &&& p.curve == curve_of(
                    curve_choice(
                        config.curves.custom@,
                        config.curves.default@,
                        match own {
                            Some(c) => match c.curve {
                                Some(n) => Some(n@),
                                None => None,
                            },
                            None => None,
                        },
                    ),
                )
                &&& p.mute_action == match own {
                    Some(c) => mute_action_of(c),
                    None => MuteAction::Ignore,
                }
                &&& p.min_brightness == match own {
                    Some(c) => c.min_brightness,
                    None => None,
                }
                &&& p.max_brightness == match own {
                    Some(c) => c.max_brightness,
                    None => None,
                }
                &&& p.dry_run == dry_run
                &&& p.state() == (PairingState {
                    phase: Phase::Idle,
                    last_brightness: None,
                    last_volume: None,
                    observed_volume: None,
                    muted: false,
                    failures: 0,
                })
            }
        }),
{
    let own = config.lights.get(light.state.label.as_str());
    if let Some(c) = own {
        if !c.is_enabled() {
            return None;
        }
    }
    let curve = match own {
        Some(c) => config.curves.curve_for(c.curve.as_ref()),
        None => config.curves.curve_for(None),
    };
    let mute_action = match own {
        Some(c) => c.mute_action(),
        None => MuteAction::Ignore,
    };
    let node = DropinConfig::for_light(light, &config.pipewire.node_prefix).node_name();
    let mut p = Pairing::new(
        light.state.id.duplicate(),
        light.provider.clone(),
        node,
        curve.into_curve(),
        mute_action,
        dry_run,
    );
    match own {
        Some(c) => p.set_limits(c.min_brightness, c.max_brightness),
        None => {},
    }
    Some(p)
}

/// One more failure, stopping at the largest count held.
pub open spec fn saturating_next(failures: nat) -> nat {
    if failures < u32::MAX {
        failures + 1
    } else {
        failures
    }
}

fn echoes(last: Option<u32>, observed: u32) -> (r: bool)
    ensures
        r == is_echo(
            match last {
                Some(w) => Some(w as nat),
                None => None,
            },
            observed as nat,
        ),
{
    match last {
        Some(w) => {
            if observed >= w {
                observed - w <= TOLERANCE
            } else {
                w - observed <= TOLERANCE
            }
        },
        None => false,
    }
}

/// The delay before the retry that follows `failures` failures, in milliseconds.
pub fn backoff_ms(failures: u32) -> (r: u64)
    ensures
        r == backoff_delay(failures as nat),
        r <= MAX_BACKOFF_MS,
{
    let mut delay: u64 = BASE_BACKOFF_MS;
    let mut i: u32 = 1;
    while i < failures
        invariant
            1 <= i,
            i == 1 || i <= failures,
            delay == backoff_delay(i as nat),
            delay <= MAX_BACKOFF_MS,
        decreases failures - i,
    {
        let doubled = delay * 2;
        delay = if doubled > MAX_BACKOFF_MS {
            MAX_BACKOFF_MS
        } else {
            doubled
        };
        i = i + 1;
    }
    delay
}

} // verus!
