use gamacros::bitmask::{Bitmask, Button};
use gamacros::profile::{
    flags_changed_mask, mode_is_valid, modifier_flags, AppRules, ArrowsParams, ControllerSettings,
    Key, KeyCombo, Macros, MouseParams, Profile, RawModifierKey, StickMode, StickSide,
};

#[test]
fn bitmask_operations() {
    let mut m = Bitmask::empty();
    assert_eq!(m.count(), 0);
    m.insert(Button::A);
    m.insert(Button::Guide);
    m.insert(Button::A);
    assert_eq!(m.count(), 2);
    assert!(m.contains(Button::A));
    assert!(!m.contains(Button::B));
    let mut a = Bitmask::empty();
    a.insert(Button::A);
    assert!(m.is_superset(&a));
    assert!(!a.is_superset(&m));
    assert!(m.is_superset(&Bitmask::empty()));
    m.remove(Button::A);
    assert!(!m.contains(Button::A));
    assert_eq!(m.count(), 1);
    assert_eq!(Button::Guide.ordinal(), 16);
}

#[test]
fn raw_modifier_keycodes() {
    assert_eq!(RawModifierKey::Control.keycode(), 0x3B);
    assert_eq!(RawModifierKey::RControl.keycode(), 0x3E);
    assert_eq!(RawModifierKey::Shift.keycode(), 0x38);
    assert_eq!(RawModifierKey::RShift.keycode(), 0x3C);
    assert_eq!(RawModifierKey::Command.keycode(), 0x37);
    assert_eq!(RawModifierKey::RCommand.keycode(), 0x36);
    assert_eq!(RawModifierKey::Option.keycode(), 0x3A);
    assert_eq!(RawModifierKey::ROption.keycode(), 0x3D);
}

#[test]
fn modifier_flag_masks() {
    assert_eq!(modifier_flags(0x37), Some((0x0010_0000, 0x08)));
    assert_eq!(modifier_flags(0x3E), Some((0x0004_0000, 0x2000)));
    assert_eq!(modifier_flags(0x00), None);
    assert_eq!(flags_changed_mask(0x38, true), Some(0x100 | 0x0002_0000 | 0x02));
    assert_eq!(flags_changed_mask(0x38, false), Some(0x100));
    assert_eq!(flags_changed_mask(0x01, true), None);
}

#[test]
fn remapping() {
    let s = ControllerSettings::new(vec![(Button::A, Button::B), (Button::A, Button::X)]);
    assert_eq!(s.map_button(Button::A), Button::B);
    assert_eq!(s.map_button(Button::Y), Button::Y);
    assert_eq!(s.duplicate().mapping, s.mapping);
}

#[test]
fn profile_validity() {
    let good = StickMode::MouseMove(MouseParams {
        deadzone: 100,
        max_speed_px_s: 1000,
        response: vec![1000; 1001],
        invert_x: false,
        invert_y: false,
    });
    let short_table = StickMode::MouseMove(MouseParams {
        deadzone: 100,
        max_speed_px_s: 1000,
        response: vec![0; 10],
        invert_x: false,
        invert_y: false,
    });
    let full_deadzone = StickMode::Arrows(ArrowsParams {
        deadzone: 1000,
        repeat_delay_ms: 1,
        repeat_interval_ms: 1,
        invert_x: false,
        invert_y: false,
    });
    assert!(mode_is_valid(&good));
    assert!(!mode_is_valid(&short_table));
    assert!(!mode_is_valid(&full_deadzone));
    let mut p = Profile {
        controllers: vec![],
        blacklist: vec![],
        rules: vec![("common".to_string(), AppRules { buttons: vec![], sticks: vec![(StickSide::Left, good)] })],
        shell: None,
    };
    assert!(p.is_valid());
    p.rules.push(("com.app".to_string(), AppRules { buttons: vec![], sticks: vec![(StickSide::Right, full_deadzone)] }));
    assert!(!p.is_valid());
}

#[test]
fn macros_keep_their_order() {
    let seq: Vec<KeyCombo> = (0..6).map(|i| KeyCombo::plain(Key::Function(i + 1))).collect();
    let m = Macros::from_vec(seq.clone());
    assert_eq!(m.to_vec(), seq);
    assert_eq!(m.copy().to_vec(), seq);
    assert!(Macros::from_vec(Vec::new()).to_vec().is_empty());
}
