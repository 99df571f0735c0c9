use wayclicker::hotkey::HotKey;
use wayclicker::hotkey::ModifierExpression;
use wayclicker::packet::ServerPacket;
use wayclicker::server::ServerState;

fn fresh_state(keybind: u16) -> ServerState {
    ServerState::new(HotKey::new(keybind, ModifierExpression::empty()))
}

#[test]
fn a_fresh_state_is_enabled_at_fifty_milliseconds() {
    let state = fresh_state(66);
    let snap = state.read_snapshot();
    assert_eq!(snap.enabled, true);
    assert_eq!(snap.interval_ms, 50);
    assert_eq!(snap.hotkey, 66);
    assert_eq!(snap.active, false);
}

#[test]
fn a_packet_round_trips_into_the_snapshot() {
    let mut state = fresh_state(66);
    let sent = ServerPacket { enabled: false, interval_ms: 100, hotkey: 275 };
    // over the wire and back, as the control channel would carry it
    let received = ServerPacket::from_packet(&sent.to_packet_text()).unwrap();
    state.update_with_packet(&received);
    let snap = state.read_snapshot();
    assert_eq!(snap.enabled, false);
    assert_eq!(snap.interval_ms, 100);
    assert_eq!(snap.hotkey, 275);
}

#[test]
fn disabling_suppresses_clicks_until_reenabled() {
    let mut state = fresh_state(66);
    // toggle the clicker on through the matcher
    assert_eq!(state.poll(vec![66]), true);
    assert!(state.read_snapshot().plan_tick(50).click);
    state.set_enabled(false);
    assert!(!state.read_snapshot().plan_tick(50).click);
    // further polls that do not toggle keep clicks suppressed
    assert_eq!(state.poll(vec![]), true);
    assert!(!state.read_snapshot().plan_tick(50).click);
    state.set_enabled(true);
    assert!(state.read_snapshot().plan_tick(50).click);
}

#[test]
fn an_interval_update_reaches_the_next_tick() {
    let mut state = fresh_state(66);
    let plan = state.read_snapshot().plan_tick(50);
    assert!(!plan.rebuild);
    assert_eq!(plan.period_ms, 50);
    state.set_interval(100);
    let plan = state.read_snapshot().plan_tick(50);
    assert!(plan.rebuild);
    assert_eq!(plan.period_ms, 100);
    let plan = state.read_snapshot().plan_tick(100);
    assert!(!plan.rebuild);
    assert_eq!(plan.period_ms, 100);
}

#[test]
fn setters_touch_only_their_field() {
    let mut state = fresh_state(66);
    state.set_hotkey(87);
    let snap = state.read_snapshot();
    assert_eq!(snap.hotkey, 87);
    assert_eq!(snap.enabled, true);
    assert_eq!(snap.interval_ms, 50);
    state.set_interval(10);
    let snap = state.read_snapshot();
    assert_eq!(snap.interval_ms, 10);
    assert_eq!(snap.hotkey, 87);
}

#[test]
fn a_packet_rebinds_the_hotkey_but_keeps_the_toggle_state() {
    let mut state = fresh_state(66);
    assert_eq!(state.poll(vec![66]), true);
    let packet = ServerPacket { enabled: true, interval_ms: 75, hotkey: 87 };
    state.update_with_packet(&packet);
    let snap = state.read_snapshot();
    assert_eq!(snap.hotkey, 87);
    assert_eq!(snap.active, true);
    // the new binding toggles; the old one no longer does
    assert_eq!(state.poll(vec![87]), false);
    assert_eq!(state.poll(vec![]), false);
    assert_eq!(state.poll(vec![66]), false);
}
