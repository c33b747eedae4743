use gamacros::action::Action;
use gamacros::bitmask::{Bitmask, Button};
use gamacros::engine::{ButtonPhase, ControllerAxis, ControllerInfo, Gamacros};
use gamacros::profile::{
    AppRules, ArrowsParams, Axis, ButtonAction, ButtonRule, ControllerSettings, Key, KeyCombo,
    Macros, MouseButton, MouseClickType, MouseParams, Profile, RawModifierKey, ScrollParams, StepperParams,
    StickMode, StickSide,
};
use gamacros::stick::SideState;

fn chord(buttons: &[Button]) -> Bitmask {
    let mut m = Bitmask::empty();
    for b in buttons {
        m.insert(*b);
    }
    m
}

fn rule(action: ButtonAction) -> ButtonRule {
    ButtonRule { action, vibrate: None, repeat_delay_ms: None, repeat_interval_ms: None }
}

fn x_key() -> KeyCombo {
    KeyCombo::plain(Key::Char('x'))
}

fn profile(
    buttons: Vec<(Bitmask, ButtonRule)>,
    sticks: Vec<(StickSide, StickMode)>,
    blacklist: Vec<String>,
) -> Profile {
    Profile {
        controllers: Vec::new(),
        blacklist,
        rules: vec![("common".to_string(), AppRules { buttons, sticks })],
        shell: None,
    }
}

fn info(id: u32, rumble: bool) -> ControllerInfo {
    ControllerInfo {
        id,
        name: "pad".to_string(),
        vendor_id: 0x045e,
        product_id: 0x02ea,
        supports_rumble: rumble,
    }
}

fn engine_with(p: Profile, app: &str) -> Gamacros {
    let mut g = Gamacros::new();
    g.set_workspace(p);
    g.add_controller(info(1, true));
    g.set_active_app(app);
    g
}

fn press(g: &mut Gamacros, b: Button, at: u64) -> Vec<Action> {
    let mut out = Vec::new();
    g.on_button_with(1, b, ButtonPhase::Pressed, at, &mut out);
    out
}

fn release(g: &mut Gamacros, b: Button, at: u64) -> Vec<Action> {
    let mut out = Vec::new();
    g.on_button_with(1, b, ButtonPhase::Released, at, &mut out);
    out
}

fn repeats(g: &mut Gamacros, at: u64) -> Vec<Action> {
    let mut out = Vec::new();
    g.process_button_repeats(at, &mut out);
    out
}

fn tick(g: &mut Gamacros, at: u64) -> Vec<Action> {
    let mut out = Vec::new();
    g.on_tick_with(at, &mut out);
    out
}

fn stick_repeats(g: &mut Gamacros, at: u64) -> Vec<Action> {
    let mut out = Vec::new();
    g.process_due_repeats(at, &mut out);
    out
}

fn gamma_table(gamma: f32) -> Vec<u32> {
    (0..=1000u32).map(|i| ((i as f32 / 1000.0).powf(gamma) * 1000.0).round() as u32).collect()
}

#[test]
fn single_tap_with_repeat() {
    let p = profile(vec![(chord(&[Button::A]), rule(ButtonAction::Keystroke(x_key())))], vec![], vec![]);
    let mut g = engine_with(p, "com.test");
    assert_eq!(press(&mut g, Button::A, 0), vec![Action::KeyTap(x_key())]);
    assert_eq!(repeats(&mut g, 399), vec![]);
    assert_eq!(repeats(&mut g, 400), vec![Action::KeyTap(x_key())]);
    assert_eq!(repeats(&mut g, 449), vec![]);
    assert_eq!(repeats(&mut g, 450), vec![Action::KeyTap(x_key())]);
    assert_eq!(release(&mut g, Button::A, 460), vec![]);
    assert_eq!(repeats(&mut g, 1000), vec![]);
    assert!(!g.has_active_button_repeats());
}

#[test]
fn chord_precedence_scenario() {
    let p = profile(
        vec![
            (chord(&[Button::A]), rule(ButtonAction::Shell("a".to_string()))),
            (chord(&[Button::A, Button::B]), rule(ButtonAction::Shell("ab".to_string()))),
        ],
        vec![],
        vec![],
    );
    let mut g = engine_with(p, "com.test");
    assert_eq!(press(&mut g, Button::A, 0), vec![Action::Shell("a".to_string())]);
    assert_eq!(press(&mut g, Button::B, 10), vec![Action::Shell("ab".to_string())]);
    assert_eq!(release(&mut g, Button::B, 20), vec![]);
    assert_eq!(release(&mut g, Button::A, 30), vec![]);
}

#[test]
fn stick_arrows() {
    let arrows = ArrowsParams {
        deadzone: 200,
        repeat_delay_ms: 300,
        repeat_interval_ms: 80,
        invert_x: false,
        invert_y: false,
    };
    let p = profile(vec![], vec![(StickSide::Left, StickMode::Arrows(arrows))], vec![]);
    let mut g = engine_with(p, "com.test");
    let up = || Action::KeyTap(KeyCombo::plain(Key::Up));
    g.on_axis_motion(1, ControllerAxis::LeftY, -1000);
    assert_eq!(tick(&mut g, 0), vec![up()]);
    assert_eq!(tick(&mut g, 16), vec![]);
    assert_eq!(g.next_repeat_due(), Some(300));
    assert_eq!(stick_repeats(&mut g, 299), vec![]);
    assert_eq!(stick_repeats(&mut g, 300), vec![up()]);
    assert_eq!(stick_repeats(&mut g, 380), vec![up()]);
    g.on_axis_motion(1, ControllerAxis::LeftY, 0);
    assert_eq!(tick(&mut g, 400), vec![]);
    assert_eq!(stick_repeats(&mut g, 1000), vec![]);
    assert_eq!(tick(&mut g, 1016), vec![]);
    assert!(!g.has_active_repeats());
}

#[test]
fn stick_arrows_direction_change() {
    let arrows = ArrowsParams {
        deadzone: 200,
        repeat_delay_ms: 300,
        repeat_interval_ms: 80,
        invert_x: false,
        invert_y: false,
    };
    let p = profile(vec![], vec![(StickSide::Left, StickMode::Arrows(arrows))], vec![]);
    let mut g = engine_with(p, "com.test");
    g.on_axis_motion(1, ControllerAxis::LeftX, 900);
    assert_eq!(tick(&mut g, 0), vec![Action::KeyTap(KeyCombo::plain(Key::Right))]);
    g.on_axis_motion(1, ControllerAxis::LeftX, -900);
    assert_eq!(tick(&mut g, 100), vec![Action::KeyTap(KeyCombo::plain(Key::Left))]);
    assert_eq!(g.next_repeat_due(), Some(400));
}

#[test]
fn stick_mouse_move() {
    let mouse = MouseParams {
        deadzone: 100,
        max_speed_px_s: 1000,
        response: gamma_table(1.5),
        invert_x: false,
        invert_y: false,
    };
    let p = profile(vec![], vec![(StickSide::Right, StickMode::MouseMove(mouse))], vec![]);
    let mut g = engine_with(p, "com.test");
    g.on_axis_motion(1, ControllerAxis::RightX, 1000);
    g.on_axis_motion(1, ControllerAxis::RightY, 0);
    assert_eq!(tick(&mut g, 1000), vec![Action::MouseMove { dx: 16, dy: 0 }]);
    assert_eq!(tick(&mut g, 1016), vec![Action::MouseMove { dx: 16, dy: 0 }]);
    assert_eq!(tick(&mut g, 1026), vec![Action::MouseMove { dx: 10, dy: 0 }]);
}

#[test]
fn mouse_move_carries_fractions() {
    let mouse = MouseParams {
        deadzone: 100,
        max_speed_px_s: 100,
        response: gamma_table(1.0),
        invert_x: false,
        invert_y: true,
    };
    let p = profile(vec![], vec![(StickSide::Right, StickMode::MouseMove(mouse))], vec![]);
    let mut g = engine_with(p, "com.test");
    g.on_axis_motion(1, ControllerAxis::RightY, 1000);
    // 100 px/s over 16 ms is 1.6 px: one pixel now, the rest carried.
    assert_eq!(tick(&mut g, 0), vec![Action::MouseMove { dx: 0, dy: -1 }]);
    assert_eq!(tick(&mut g, 16), vec![Action::MouseMove { dx: 0, dy: -2 }]);
}

#[test]
fn raw_modifier_press_and_release() {
    let p = profile(
        vec![(chord(&[Button::Y]), rule(ButtonAction::RawModifier(RawModifierKey::Command)))],
        vec![],
        vec![],
    );
    let mut g = engine_with(p, "com.test");
    assert_eq!(press(&mut g, Button::Y, 0), vec![Action::RawModifierPress(RawModifierKey::Command)]);
    assert_eq!(release(&mut g, Button::Y, 5), vec![Action::RawModifierRelease(RawModifierKey::Command)]);
}

#[test]
fn blacklisted_app_is_silent() {
    let arrows = ArrowsParams {
        deadzone: 200,
        repeat_delay_ms: 300,
        repeat_interval_ms: 80,
        invert_x: false,
        invert_y: false,
    };
    let p = profile(
        vec![(chord(&[Button::A]), rule(ButtonAction::Keystroke(x_key())))],
        vec![(StickSide::Left, StickMode::Arrows(arrows))],
        vec!["com.block".to_string()],
    );
    let mut g = engine_with(p, "com.block");
    assert_eq!(press(&mut g, Button::A, 0), vec![]);
    g.on_axis_motion(1, ControllerAxis::LeftY, -1000);
    assert_eq!(tick(&mut g, 0), vec![]);
    assert_eq!(repeats(&mut g, 1000), vec![]);
    g.set_active_app("com.other");
    assert_eq!(press(&mut g, Button::B, 0), vec![]);
    assert_eq!(release(&mut g, Button::A, 0), vec![]);
    assert_eq!(press(&mut g, Button::A, 0), vec![Action::KeyTap(x_key())]);
}

#[test]
fn app_rules_take_precedence_over_common() {
    let mut p = profile(vec![(chord(&[Button::A]), rule(ButtonAction::Shell("common".to_string())))], vec![], vec![]);
    p.rules.push((
        "com.editor".to_string(),
        AppRules {
            buttons: vec![(chord(&[Button::A]), rule(ButtonAction::Shell("editor".to_string())))],
            sticks: vec![],
        },
    ));
    let mut g = engine_with(p, "com.editor");
    assert_eq!(g.get_active_app(), "com.editor");
    assert_eq!(press(&mut g, Button::A, 0), vec![Action::Shell("editor".to_string())]);
    assert_eq!(release(&mut g, Button::A, 1), vec![]);
    g.set_active_app("com.else");
    assert_eq!(press(&mut g, Button::A, 2), vec![Action::Shell("common".to_string())]);
}

#[test]
fn no_profile_or_unknown_controller_is_ignored() {
    let mut g = Gamacros::new();
    g.add_controller(info(1, true));
    assert_eq!(press(&mut g, Button::A, 0), vec![]);
    let p = profile(vec![(chord(&[Button::A]), rule(ButtonAction::Shell("a".to_string())))], vec![], vec![]);
    g.set_workspace(p);
    let mut out = Vec::new();
    g.on_button_with(7, Button::A, ButtonPhase::Pressed, 0, &mut out);
    assert_eq!(out, vec![]);
    assert!(g.is_known(1));
    assert!(!g.is_known(7));
}

#[test]
fn rumble_precedes_action() {
    let mut r = rule(ButtonAction::TapKeystroke(x_key()));
    r.vibrate = Some(120);
    let p = profile(vec![(chord(&[Button::A]), r)], vec![], vec![]);
    let mut g = engine_with(p, "com.test");
    assert!(g.supports_rumble(1));
    assert_eq!(press(&mut g, Button::A, 0), vec![Action::Rumble { id: 1, ms: 120 }, Action::KeyTap(x_key())]);
    assert_eq!(repeats(&mut g, 5000), vec![]);
    g.add_controller(info(2, false));
    assert!(!g.supports_rumble(2));
    let mut out = Vec::new();
    g.on_button_with(2, Button::A, ButtonPhase::Pressed, 0, &mut out);
    assert_eq!(out, vec![Action::KeyTap(x_key())]);
}

#[test]
fn macros_and_clicks() {
    let seq = vec![KeyCombo::plain(Key::Char('a')), KeyCombo::plain(Key::Return)];
    let p = profile(
        vec![
            (chord(&[Button::X]), rule(ButtonAction::Macros(Macros::from_vec(seq.clone())))),
            (
                chord(&[Button::B]),
                rule(ButtonAction::MouseClick { button: MouseButton::Right, click_type: MouseClickType::DoubleClick }),
            ),
        ],
        vec![],
        vec![],
    );
    let mut g = engine_with(p, "com.test");
    let out = press(&mut g, Button::X, 0);
    assert_eq!(out, vec![Action::Macros(Macros::from_vec(seq.clone()))]);
    match &out[0] {
        Action::Macros(m) => assert_eq!(m.to_vec(), seq),
        _ => unreachable!(),
    }
    assert_eq!(
        press(&mut g, Button::B, 0),
        vec![Action::MouseClick { button: MouseButton::Right, click_type: MouseClickType::DoubleClick }]
    );
}

#[test]
fn custom_repeat_timing_and_remap() {
    let mut r = rule(ButtonAction::Keystroke(x_key()));
    r.repeat_delay_ms = Some(100);
    r.repeat_interval_ms = Some(30);
    let mut p = profile(vec![(chord(&[Button::B]), r)], vec![], vec![]);
    p.controllers.push(((0x045e, 0x02ea), ControllerSettings::new(vec![(Button::A, Button::B)])));
    let mut g = engine_with(p, "com.test");
    assert_eq!(press(&mut g, Button::A, 1000), vec![Action::KeyTap(x_key())]);
    assert_eq!(g.next_button_repeat_due(), Some(1100));
    assert_eq!(repeats(&mut g, 1100), vec![Action::KeyTap(x_key())]);
    assert_eq!(g.next_button_repeat_due(), Some(1130));
    assert_eq!(repeats(&mut g, 1130), vec![Action::KeyTap(x_key())]);
    assert_eq!(release(&mut g, Button::A, 1140), vec![]);
    assert_eq!(g.next_button_repeat_due(), None);
}

#[test]
fn same_app_keeps_stick_state() {
    let arrows = ArrowsParams {
        deadzone: 200,
        repeat_delay_ms: 300,
        repeat_interval_ms: 80,
        invert_x: false,
        invert_y: false,
    };
    let p = profile(vec![], vec![(StickSide::Left, StickMode::Arrows(arrows))], vec![]);
    let mut g = engine_with(p, "com.test");
    g.on_axis_motion(1, ControllerAxis::LeftY, 1000);
    assert_eq!(tick(&mut g, 0), vec![Action::KeyTap(KeyCombo::plain(Key::Down))]);
    g.set_active_app("com.test");
    assert!(g.has_active_repeats());
    assert_eq!(tick(&mut g, 10), vec![]);
    g.set_active_app("com.other");
    assert!(!g.has_active_repeats());
    assert_eq!(tick(&mut g, 20), vec![Action::KeyTap(KeyCombo::plain(Key::Down))]);
}

#[test]
fn app_change_keeps_button_repeats() {
    let p = profile(vec![(chord(&[Button::A]), rule(ButtonAction::Keystroke(x_key())))], vec![], vec![]);
    let mut g = engine_with(p, "com.test");
    press(&mut g, Button::A, 0);
    g.set_active_app("com.other");
    assert_eq!(repeats(&mut g, 400), vec![Action::KeyTap(x_key())]);
}

#[test]
fn disconnect_purges_repeats() {
    let p = profile(vec![(chord(&[Button::A]), rule(ButtonAction::Keystroke(x_key())))], vec![], vec![]);
    let mut g = engine_with(p, "com.test");
    press(&mut g, Button::A, 0);
    assert!(g.has_active_button_repeats());
    g.remove_controller(1);
    assert!(!g.is_known(1));
    assert!(!g.has_active_button_repeats());
    assert_eq!(repeats(&mut g, 400), vec![]);
    assert_eq!(press(&mut g, Button::A, 500), vec![]);
    assert_eq!(tick(&mut g, 500), vec![]);
}

#[test]
fn volume_stepper_interval_scales() {
    let vol = StepperParams { axis: Axis::Y, deadzone: 200, min_interval_ms: 100, max_interval_ms: 500, invert: false };
    let p = profile(vec![], vec![(StickSide::Right, StickMode::Volume(vol))], vec![]);
    let mut g = engine_with(p, "com.test");
    g.on_axis_motion(1, ControllerAxis::RightY, -1000);
    assert_eq!(tick(&mut g, 0), vec![Action::KeyTap(KeyCombo::plain(Key::VolumeUp))]);
    assert_eq!(g.next_repeat_due(), Some(100));
    g.on_axis_motion(1, ControllerAxis::RightY, 600);
    // Half-way past the deadzone: 500 + (100 - 500) * 500 / 1000 = 300 ms.
    assert_eq!(tick(&mut g, 50), vec![Action::KeyTap(KeyCombo::plain(Key::VolumeDown))]);
    assert_eq!(g.next_repeat_due(), Some(350));
    assert_eq!(stick_repeats(&mut g, 350), vec![Action::KeyTap(KeyCombo::plain(Key::VolumeDown))]);
    assert_eq!(g.next_repeat_due(), Some(650));
}

#[test]
fn brightness_stepper_on_x() {
    let b = StepperParams { axis: Axis::X, deadzone: 100, min_interval_ms: 50, max_interval_ms: 50, invert: true };
    let p = profile(vec![], vec![(StickSide::Left, StickMode::Brightness(b))], vec![]);
    let mut g = engine_with(p, "com.test");
    g.on_axis_motion(1, ControllerAxis::LeftX, -800);
    assert_eq!(tick(&mut g, 0), vec![Action::KeyTap(KeyCombo::plain(Key::BrightnessUp))]);
}

#[test]
fn scroll_accumulates_lines() {
    let s = ScrollParams { deadzone: 0, speed_lines_s: 100, horizontal: false, invert_x: false, invert_y: false };
    let p = profile(vec![], vec![(StickSide::Right, StickMode::Scroll(s))], vec![]);
    let mut g = engine_with(p, "com.test");
    g.on_axis_motion(1, ControllerAxis::RightY, 500);
    // 100 lines/s at half deflection over 16 ms: 0.8 lines, nothing yet.
    assert_eq!(tick(&mut g, 0), vec![]);
    assert_eq!(tick(&mut g, 16), vec![Action::Scroll { h: 0, v: 1 }]);
    let h = ScrollParams { deadzone: 0, speed_lines_s: 1000, horizontal: true, invert_x: false, invert_y: false };
    let p = profile(vec![], vec![(StickSide::Right, StickMode::Scroll(h))], vec![]);
    let mut g = engine_with(p, "com.test");
    g.on_axis_motion(1, ControllerAxis::RightX, -1000);
    assert_eq!(tick(&mut g, 0), vec![Action::Scroll { h: -16, v: 0 }]);
}

#[test]
fn tick_policy() {
    let arrows = ArrowsParams {
        deadzone: 200,
        repeat_delay_ms: 300,
        repeat_interval_ms: 80,
        invert_x: false,
        invert_y: false,
    };
    let p = profile(vec![], vec![(StickSide::Left, StickMode::Arrows(arrows))], vec![]);
    let mut g = engine_with(p, "com.test");
    assert!(g.has_tick_modes());
    assert!(!g.needs_tick());
    assert!(!g.wants_fast_tick());
    g.on_axis_motion(1, ControllerAxis::RightTrigger, 49);
    assert!(!g.needs_tick());
    g.on_axis_motion(1, ControllerAxis::RightTrigger, 50);
    assert!(g.needs_tick());
    // 0.05 reaches the tick threshold but does not exceed the fast-tick one.
    assert!(!g.wants_fast_tick());
    assert!(g.has_axis_activity(50));
    assert!(!g.has_axis_activity(51));
    g.on_axis_motion(1, ControllerAxis::RightTrigger, 51);
    assert!(g.wants_fast_tick());
    g.remove_workspace();
    assert!(!g.has_tick_modes());
    assert!(!g.needs_tick());
    assert!(g.wants_fast_tick());
}

#[test]
fn compiled_rules_follow_profile() {
    let arrows = ArrowsParams { deadzone: 200, repeat_delay_ms: 300, repeat_interval_ms: 80, invert_x: false, invert_y: false };
    let p = profile(vec![], vec![(StickSide::Right, StickMode::Arrows(arrows))], vec![]);
    let mut g = Gamacros::new();
    assert!(g.get_compiled_stick_rules().is_none());
    g.set_active_app("com.test");
    g.set_workspace(p);
    let cr = g.get_compiled_stick_rules().unwrap();
    assert_eq!(cr.left(), None);
    assert_eq!(cr.right(), Some(0));
}

#[test]
fn disconnect_releases_sticks() {
    let arrows = ArrowsParams { deadzone: 200, repeat_delay_ms: 300, repeat_interval_ms: 80, invert_x: false, invert_y: false };
    let p = profile(vec![], vec![(StickSide::Left, StickMode::Arrows(arrows))], vec![]);
    let mut g = engine_with(p, "com.test");
    g.on_axis_motion(1, ControllerAxis::LeftX, 1000);
    tick(&mut g, 0);
    assert!(g.has_active_repeats());
    g.on_controller_disconnected(1);
    assert!(!g.has_active_repeats());
    assert_eq!(g.controllers[0].1.left, SideState::Idle);
}

#[test]
fn default_engine_is_empty() {
    let g = Gamacros::default();
    assert_eq!(g.get_active_app(), "");
    assert!(!g.needs_tick());
    assert_eq!(g.next_repeat_due(), None);
    assert_eq!(g.next_button_repeat_due(), None);
}

#[test]
fn stick_repeats_fire_in_due_order() {
    let arrows = ArrowsParams {
        deadzone: 200,
        repeat_delay_ms: 300,
        repeat_interval_ms: 80,
        invert_x: false,
        invert_y: false,
    };
    let p = profile(vec![], vec![(StickSide::Left, StickMode::Arrows(arrows))], vec![]);
    let mut g = engine_with(p, "com.test");
    g.add_controller(info(2, false));
    g.on_axis_motion(2, ControllerAxis::LeftY, 1000);
    assert_eq!(tick(&mut g, 0), vec![Action::KeyTap(KeyCombo::plain(Key::Down))]);
    g.on_axis_motion(1, ControllerAxis::LeftY, -1000);
    assert_eq!(tick(&mut g, 50), vec![Action::KeyTap(KeyCombo::plain(Key::Up))]);
    // controller 1 comes first but its repeat is due at 350, controller 2's at 300
    assert_eq!(
        stick_repeats(&mut g, 400),
        vec![Action::KeyTap(KeyCombo::plain(Key::Down)), Action::KeyTap(KeyCombo::plain(Key::Up))]
    );
    assert_eq!(g.next_repeat_due(), Some(480));
    assert_eq!(
        stick_repeats(&mut g, 480),
        vec![Action::KeyTap(KeyCombo::plain(Key::Up)), Action::KeyTap(KeyCombo::plain(Key::Down))]
    );
}
