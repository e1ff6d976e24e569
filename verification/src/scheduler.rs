//! The popup scheduler: a phase machine driven once per cadence period.
//! Each tick consults the decision rules and, on a positive decision, builds
//! a [`PopupRequest`] for the host shell to turn into a window. A stop signal
//! moves the machine out of `Running`, and no tick after it ever produces a
//! request.

use vstd::prelude::*;
use vstd::string::StringExecFns;
use crate::config::AppConfig;
use crate::engine;

verus! {

/// Where the scheduler stands in its life: not yet started, ticking,
/// stop accepted but the current cadence not yet drained, or done.
#[derive(Clone, Copy, Debug, PartialEq, Eq, Structural)]
pub enum Phase {
    Idle,
    Running,
    Stopping,
    Stopped,
}

/// One popup to create: a fresh identifier, the drawn opacity, and the fixed
/// window traits of every popup. Built by a tick, consumed immediately by
/// the window-spawning collaborator, never kept.
#[derive(Debug, Clone)]
pub struct PopupRequest {
    pub id: String,
    pub opacity: u8,
    pub transparent: bool,
    pub always_on_top: bool,
    pub focused: bool,
    pub maximizable: bool,
    pub minimizable: bool,
    pub decorations: bool,
    pub skip_taskbar: bool,
    pub resizable: bool,
}

impl PopupRequest {
    /// Every popup is a borderless, always-on-top, focused overlay that the
    /// taskbar skips and that the user cannot resize, minimize or maximize.
    pub open spec fn traits_fixed(self) -> bool {
        &&& self.transparent
        &&& self.always_on_top
        &&& self.focused
        &&& !self.maximizable
        &&& !self.minimizable
        &&& !self.decorations
        &&& self.skip_taskbar
        &&& !self.resizable
    }

    /// A request is well formed for a configuration when its traits are the
    /// fixed ones, its opacity lies in the configured range, and its
    /// identifier is `popup-` followed by a 36-character identifier.
    pub open spec fn wf(self, cfg: AppConfig) -> bool {
        &&& self.traits_fixed()
        &&& cfg.popup_opacity_min <= self.opacity <= cfg.popup_opacity_max
        &&& self.id@.len() == 42
        &&& self.id@.subrange(0, 6) == "popup-"@
    }
}

/// Relies on uuid's `Uuid::new_v4` and its `Display` form: a fresh random
/// identifier rendered as the 36-character lowercase hyphenated string.
#[verifier::external_body]
fn fresh_uuid_string() -> (r: String)
    ensures
        r@.len() == 36,
{
    uuid::Uuid::new_v4().to_string()
}

/// A fresh window label: `popup-` followed by a newly drawn identifier.
fn fresh_popup_label() -> (r: String)
    ensures
        r@.len() == 42,
        r@.subrange(0, 6) == "popup-"@,
{
    let mut label: String = "popup-".to_owned();
    let tail = fresh_uuid_string();
    label.append(tail.as_str());
    proof {
        reveal_strlit("popup-");
        assert(label@.subrange(0, 6) =~= "popup-"@);
    }
    label
}

/// The scheduler: its phase and the tick cadence in milliseconds. The host
/// shell owns one value of this and drives it from a single background task.
#[derive(Clone, Copy, Debug, PartialEq, Eq, Structural)]
pub struct Scheduler {
    pub phase: Phase,
    pub cadence_ms: u64,
}

impl Scheduler {
    /// A scheduler that has not started ticking yet.
    pub fn new(cadence_ms: u64) -> (s: Scheduler)
        ensures
            s.phase == Phase::Idle,
            s.cadence_ms == cadence_ms,
    {
        Scheduler { phase: Phase::Idle, cadence_ms }
    }

    /// Begins ticking.
    pub fn start(&mut self)
        requires
            old(self).phase == Phase::Idle,
        ensures
            final(self).phase == Phase::Running,
            final(self).cadence_ms == old(self).cadence_ms,
    {
        self.phase = Phase::Running;
    }

    /// Accepts an external stop signal: a running scheduler moves to
    /// `Stopping`; in any other phase the signal changes nothing.
    pub fn request_stop(&mut self)
        ensures
            final(self).cadence_ms == old(self).cadence_ms,
            final(self).phase == (if old(self).phase == Phase::Running {
                Phase::Stopping
            } else {
                old(self).phase
            }),
    {
        if self.is_running() {
            self.phase = Phase::Stopping;
        }
    }

    /// Whether the next cadence may run a tick at all.
    pub fn is_running(&self) -> (b: bool)
        ensures
            b == (self.phase == Phase::Running),
    {
        match self.phase {
            Phase::Running => true,
            _ => false,
        }
    }

    /// Whether the scheduler has reached its terminal phase.
    pub fn is_stopped(&self) -> (b: bool)
        ensures
            b == (self.phase == Phase::Stopped),
    {
        match self.phase {
            Phase::Stopped => true,
            _ => false,
        }
    }

    /// One tick. A running scheduler decides whether to fire and, on a
    /// positive decision, hands back the popup to create; a stopping one
    /// finishes its shutdown and never fires; any other phase is inert.
    /// A tick after a stop signal therefore never creates a request.
    pub fn tick(&mut self, cfg: &AppConfig, rng: &mut rand::rngs::StdRng) -> (request: Option<
        PopupRequest,
    >)
        requires
            cfg.valid(),
        ensures
            final(self).cadence_ms == old(self).cadence_ms,
            old(self).phase == Phase::Running ==> final(self).phase == Phase::Running,
            old(self).phase == Phase::Stopping ==> final(self).phase == Phase::Stopped,
            old(self).phase == Phase::Idle || old(self).phase == Phase::Stopped ==> *final(self)
                == *old(self),
            old(self).phase != Phase::Running ==> request is None,
            request matches Some(p) ==> old(self).phase == Phase::Running && p.wf(*cfg),
            old(self).phase == Phase::Running && cfg.popup_chance_max == 0 ==> request is None,
            old(self).phase == Phase::Running && cfg.popup_chance_min == 100 ==> request is Some,
    {
        match self.phase {
            Phase::Running => {
                if engine::decide_fire(cfg.popup_chance_min, cfg.popup_chance_max, rng) {
                    let opacity = engine::decide_opacity(
                        cfg.popup_opacity_min,
                        cfg.popup_opacity_max,
                        rng,
                    );
                    let id = fresh_popup_label();
                    Some(
                        PopupRequest {
                            id,
                            opacity,
                            transparent: true,
                            always_on_top: true,
                            focused: true,
                            maximizable: false,
                            minimizable: false,
                            decorations: false,
                            skip_taskbar: true,
                            resizable: false,
                        },
                    )
                } else {
                    None
                }
            },
            Phase::Stopping => {
                self.phase = Phase::Stopped;
                None
            },
            _ => None,
        }
    }
}

} // verus!
