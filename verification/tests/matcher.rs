use wayclicker::hotkey::HotKey;
use wayclicker::hotkey::ModifierExpression;

#[test]
fn scenario_f8_with_leftctrl() {
    let f8 = evdev::KeyCode::KEY_F8.code();
    let ctrl = evdev::KeyCode::KEY_LEFTCTRL.code();
    let expr = ModifierExpression::parse("KEY_LEFTCTRL").unwrap();
    let mut hk = HotKey::new(f8, expr);
    assert_eq!(hk.update(vec![]), false);
    assert_eq!(hk.update(vec![ctrl]), false);
    assert_eq!(hk.update(vec![ctrl, f8]), true);
    assert_eq!(hk.update(vec![]), true);
}

#[test]
fn holding_the_key_toggles_once() {
    let mut hk = HotKey::new(66, ModifierExpression::empty());
    assert_eq!(hk.update(vec![66]), true);
    assert_eq!(hk.update(vec![66]), true);
    assert_eq!(hk.update(vec![66]), true);
    assert_eq!(hk.update(vec![]), true);
    assert_eq!(hk.update(vec![66]), false);
}

#[test]
fn identical_poll_twice_never_retoggles() {
    let mut hk = HotKey::new(66, ModifierExpression::empty());
    let first = hk.update(vec![66, 29]);
    let second = hk.update(vec![66, 29]);
    assert_eq!(first, true);
    assert_eq!(second, true);
}

#[test]
fn failed_modifier_press_is_consumed() {
    let ctrl = evdev::KeyCode::KEY_LEFTCTRL.code();
    let expr = ModifierExpression::parse("KEY_LEFTCTRL").unwrap();
    let mut hk = HotKey::new(66, expr);
    // the toggle key goes down without the modifier: no toggle
    assert_eq!(hk.update(vec![66]), false);
    // the modifier arrives while the key is still held: the edge is gone
    assert_eq!(hk.update(vec![66, ctrl]), false);
    // only a fresh press with the modifier held toggles
    assert_eq!(hk.update(vec![ctrl]), false);
    assert_eq!(hk.update(vec![ctrl, 66]), true);
}

#[test]
fn empty_expression_is_always_satisfied() {
    let expr = ModifierExpression::parse("").unwrap();
    assert_eq!(expr.clauses().len(), 0);
    let mut hk = HotKey::new(66, expr);
    assert_eq!(hk.update(vec![66]), true);
}

#[test]
fn alternatives_and_conjunction() {
    let rctrl = evdev::KeyCode::KEY_RIGHTCTRL.code();
    let lctrl = evdev::KeyCode::KEY_LEFTCTRL.code();
    let rshift = evdev::KeyCode::KEY_RIGHTSHIFT.code();
    let lshift = evdev::KeyCode::KEY_LEFTSHIFT.code();
    let expr =
        ModifierExpression::parse("KEY_RIGHTCTRL-KEY_LEFTCTRL+KEY_RIGHTSHIFT-KEY_LEFTSHIFT")
            .unwrap();
    let clauses = expr.clauses();
    assert_eq!(clauses.len(), 2);
    assert_eq!(clauses[0], vec![rctrl, lctrl]);
    assert_eq!(clauses[1], vec![rshift, lshift]);
    // either control plus either shift satisfies; control alone does not
    assert!(expr.satisfied(&vec![lctrl, rshift]));
    assert!(expr.satisfied(&vec![rctrl, lshift]));
    assert!(!expr.satisfied(&vec![lctrl]));
    assert!(!expr.satisfied(&vec![rshift]));
}

#[test]
fn parsed_codes_match_the_key_table() {
    let expr = ModifierExpression::parse("KEY_LEFTCTRL").unwrap();
    assert_eq!(expr.clauses()[0][0], evdev::KeyCode::KEY_LEFTCTRL.code());
    assert_eq!(expr.clauses()[0][0], 29);
}

#[test]
fn unknown_key_name_is_rejected() {
    assert!(ModifierExpression::parse("KEY_NOT_A_REAL_KEY").is_err());
    assert!(ModifierExpression::parse("KEY_LEFTCTRL+").is_err());
    assert!(ModifierExpression::parse("-KEY_LEFTCTRL").is_err());
}
