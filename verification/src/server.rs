//! The daemon's live configuration and the decisions made over it.
//!
//! One record holds everything the control plane can mutate and the click
//! loop consumes: the enabled flag, the click interval, and the hotkey
//! matcher with its active state. The surrounding binary shares the
//! record behind one lock; every mutation here is a plain, total function
//! of the record, so "last writer wins" is the only ordering the daemon
//! promises across concurrent control writers.
//!
//! The click loop never decides anything itself: once per tick it takes a
//! snapshot and asks [`Snapshot::plan_tick`] whether to click and which
//! period the next wait must use, so an interval update takes effect no
//! later than the next tick boundary.

use vstd::prelude::*;

use crate::command::Command;
use crate::hotkey::spec_poll;
use crate::hotkey::HotKey;
use crate::hotkey::HotKeyView;
use crate::packet::ServerPacket;

verus! {

/// The abstract state of the live configuration.
#[verifier::ext_equal]
pub struct ServerStateView {
    /// Whether the daemon clicks at all.
    pub enabled: bool,
    /// The pause between clicks, in milliseconds.
    pub interval_ms: u64,
    /// The hotkey matcher, with the toggle's active state.
    pub hotkey: HotKeyView,
}

/// The live configuration: mutated by the control plane, polled by the
/// hotkey loop, read by the click loop.
pub struct ServerState {
    enabled: bool,
    interval_ms: u64,
    hotkey: HotKey,
}

impl View for ServerState {
    type V = ServerStateView;

    closed spec fn view(&self) -> ServerStateView {
        ServerStateView {
            enabled: self.enabled,
            interval_ms: self.interval_ms,
            hotkey: self.hotkey@,
        }
    }
}

/// A consistent point-in-time view of the configuration, as the click
/// loop and the query commands read it.
#[derive(Clone, Copy, Debug, PartialEq, Eq, Structural)]
pub struct Snapshot {
    pub enabled: bool,
    pub interval_ms: u64,
    pub hotkey: u16,
    pub active: bool,
}

/// What one tick of the click loop must do, decided from a snapshot and
/// the period currently in effect.
#[derive(Clone, Copy, Debug, PartialEq, Eq, Structural)]
pub struct TickPlan {
    /// Emit one synthetic click this tick.
    pub click: bool,
    /// Rebuild the timer before the next wait.
    pub rebuild: bool,
    /// The period the next wait must use, in milliseconds.
    pub period_ms: u64,
}

/// The snapshot that a state yields.
pub open spec fn spec_snapshot(v: ServerStateView) -> Snapshot {
    Snapshot {
        enabled: v.enabled,
        interval_ms: v.interval_ms,
        hotkey: v.hotkey.keybind,
        active: v.hotkey.active,
    }
}

/// What applying a structured control packet does: all three fields are
/// set at once; the matcher's modifiers, previous poll and active state
/// stay as they are.
pub open spec fn spec_apply_packet(v: ServerStateView, p: ServerPacket) -> ServerStateView {
    ServerStateView {
        enabled: p.enabled,
        interval_ms: p.interval_ms,
        hotkey: HotKeyView { keybind: p.hotkey, ..v.hotkey },
    }
}

/// What one hotkey poll does to the whole state: only the matcher moves.
pub open spec fn spec_poll_state(v: ServerStateView, pressed: Set<u16>) -> ServerStateView {
    ServerStateView { hotkey: spec_poll(v.hotkey, pressed), ..v }
}

/// The decision of one tick: click exactly when the daemon is enabled
/// and the toggle is active; rebuild the timer exactly when the interval
/// differs from the period in effect; always hand back the interval as
/// the period to wait with.
pub open spec fn spec_plan_tick(s: Snapshot, current_period_ms: u64) -> TickPlan {
    TickPlan {
        click: s.enabled && s.active,
        rebuild: s.interval_ms != current_period_ms,
        period_ms: s.interval_ms,
    }
}

impl Snapshot {
    /// Decides one tick of the click loop, exactly as [`spec_plan_tick`]
    /// states.
    pub fn plan_tick(&self, current_period_ms: u64) -> (r: TickPlan)
        ensures
            r == spec_plan_tick(*self, current_period_ms),
    {
        TickPlan {
            click: self.enabled && self.active,
            rebuild: self.interval_ms != current_period_ms,
            period_ms: self.interval_ms,
        }
    }
}

impl ServerState {
    /// A fresh configuration: enabled, clicking every fifty
    /// milliseconds, with the given matcher.
    pub fn new(hotkey: HotKey) -> (r: ServerState)
        ensures
            r@ == (ServerStateView { enabled: true, interval_ms: 50u64, hotkey: hotkey@ }),
    {
        let r = ServerState { enabled: true, interval_ms: 50, hotkey };
        proof {
            assert(r@ =~~= (ServerStateView {
                enabled: true,
                interval_ms: 50u64,
                hotkey: r.hotkey@,
            }));
        }
        r
    }

    /// A consistent point-in-time view of all four live parameters.
    pub fn read_snapshot(&self) -> (r: Snapshot)
        ensures
            r == spec_snapshot(self@),
    {
        Snapshot {
            enabled: self.enabled,
            interval_ms: self.interval_ms,
            hotkey: self.hotkey.keybind(),
            active: self.hotkey.active(),
        }
    }

    /// Applies a structured control packet: all three fields at once, as
    /// [`spec_apply_packet`] states.
    pub fn update_with_packet(&mut self, packet: &ServerPacket)
        ensures
            final(self)@ == spec_apply_packet(old(self)@, *packet),
    {
        self.enabled = packet.enabled;
        self.interval_ms = packet.interval_ms;
        self.hotkey.set_keybind(packet.hotkey);
        proof {
            assert(self@ =~~= spec_apply_packet(old(self)@, *packet));
        }
    }

    /// Sets the enabled flag and leaves everything else as it is.
    pub fn set_enabled(&mut self, value: bool)
        ensures
            final(self)@ == (ServerStateView { enabled: value, ..old(self)@ }),
    {
        self.enabled = value;
        proof {
            assert(self@ =~~= (ServerStateView { enabled: value, ..old(self)@ }));
        }
    }

    /// Sets the click interval and leaves everything else as it is.
    pub fn set_interval(&mut self, interval_ms: u64)
        ensures
            final(self)@ == (ServerStateView { interval_ms, ..old(self)@ }),
    {
        self.interval_ms = interval_ms;
        proof {
            assert(self@ =~~= (ServerStateView { interval_ms, ..old(self)@ }));
        }
    }

    /// Rebinds the toggle key and leaves everything else as it is.
    pub fn set_hotkey(&mut self, keybind: u16)
        ensures
            final(self)@ == (ServerStateView {
                hotkey: HotKeyView { keybind, ..old(self)@.hotkey },
                ..old(self)@
            }),
    {
        self.hotkey.set_keybind(keybind);
        proof {
            assert(self@ =~~= (ServerStateView {
                hotkey: HotKeyView { keybind, ..old(self)@.hotkey },
                ..old(self)@
            }));
        }
    }

    /// One hotkey poll: hands the snapshot of pressed keys to the
    /// matcher and returns the post-poll active state. Only the matcher
    /// moves; the control-plane fields stay as they are.
    pub fn poll(&mut self, pressed: Vec<u16>) -> (active: bool)
        ensures
            final(self)@ == spec_poll_state(old(self)@, pressed@.to_set()),
            active == final(self)@.hotkey.active,
    {
        let active = self.hotkey.update(pressed);
        proof {
            assert(self@ =~~= spec_poll_state(old(self)@, pressed@.to_set()));
        }
        active
    }

    /// Applies one text command: a query answers with the enabled flag
    /// and changes nothing; a setter mutates the flag and sends no
    /// reply.
    pub fn apply_command(&mut self, cmd: &Command) -> (reply: Option<bool>)
        ensures
            match *cmd {
                Command::IsEnabled => final(self)@ == old(self)@ && reply == Some(
                    old(self)@.enabled,
                ),
                Command::SetEnabled { value } => final(self)@ == (ServerStateView {
                    enabled: value,
                    ..old(self)@
                }) && reply is None,
            },
    {
        match cmd {
            Command::IsEnabled => {
                proof {
                    assert(self@ =~~= old(self)@);
                }
                Some(self.enabled)
            },
            Command::SetEnabled { value } => {
                self.set_enabled(*value);
                None
            },
        }
    }
}

/// A structured packet round-trips into the snapshot: its canonical text
/// parses back to the packet, and once the packet is applied, a snapshot
/// reads exactly the three values it carried.
pub proof fn lemma_config_round_trip(v: ServerStateView, p: ServerPacket)
    ensures
        crate::packet::spec_parse_packet(crate::packet::spec_encode(p)) == Some(p),
        spec_snapshot(spec_apply_packet(v, p)).enabled == p.enabled,
        spec_snapshot(spec_apply_packet(v, p)).interval_ms == p.interval_ms,
        spec_snapshot(spec_apply_packet(v, p)).hotkey == p.hotkey,
{
    crate::packet::lemma_encode_parses(p);
}

/// Disabling suppresses clicks: while the enabled flag is clear, no tick
/// clicks, from the current state and from any state a hotkey poll can
/// move it to.
pub proof fn lemma_disable_suppresses_clicks(
    v: ServerStateView,
    pressed: Set<u16>,
    current_period_ms: u64,
)
    requires
        !v.enabled,
    ensures
        !spec_plan_tick(spec_snapshot(v), current_period_ms).click,
        !spec_plan_tick(spec_snapshot(spec_poll_state(v, pressed)), current_period_ms).click,
{
}

/// An interval update takes effect by the next tick: a tick planned
/// after the update waits with the new period, and rebuilds its timer
/// exactly when the period in effect differs.
pub proof fn lemma_interval_hot_update(
    v: ServerStateView,
    interval_ms: u64,
    current_period_ms: u64,
)
    ensures
        ({
            let updated = ServerStateView { interval_ms, ..v };
            let plan = spec_plan_tick(spec_snapshot(updated), current_period_ms);
            plan.period_ms == interval_ms && plan.rebuild == (interval_ms != current_period_ms)
        }),
{
}

} // verus!
