use vstd::prelude::*;

use smallvec::SmallVec;

use crate::bitmask::{Bitmask, Button};

verus! {

/// A key that a key combination ends in.
#[derive(Debug, Clone, Copy, PartialEq, Eq, Structural, Hash)]
pub enum Key {
    Char(char),
    Up,
    Down,
    Left,
    Right,
    Return,
    Escape,
    Tab,
    Space,
    Backspace,
    Delete,
    Home,
    End,
    PageUp,
    PageDown,
    Function(u8),
    VolumeUp,
    VolumeDown,
    VolumeMute,
    BrightnessUp,
    BrightnessDown,
    MediaPlayPause,
    MediaNext,
    MediaPrev,
}

/// A key pressed together with a set of modifiers.
#[derive(Debug, Clone, Copy, PartialEq, Eq, Structural, Hash)]
pub struct KeyCombo {
    pub control: bool,
    pub shift: bool,
    pub alt: bool,
    pub meta: bool,
    pub key: Key,
}

impl KeyCombo {
    /// A combination with no modifier.
    pub fn plain(key: Key) -> (r: KeyCombo)
        ensures
            r == (KeyCombo { control: false, shift: false, alt: false, meta: false, key }),
    {
        KeyCombo { control: false, shift: false, alt: false, meta: false, key }
    }
}

/// A mouse button.
#[derive(Debug, Clone, Copy, PartialEq, Eq, Structural, Hash)]
pub enum MouseButton {
    Left,
    Right,
    Middle,
}

/// A mouse click type.
#[derive(Debug, Clone, Copy, PartialEq, Eq, Structural, Hash)]
pub enum MouseClickType {
    Click,
    DoubleClick,
}

/// A modifier key that is signalled on its own, as a change of the modifier flags.
#[derive(Debug, Clone, Copy, PartialEq, Eq, Structural, Hash)]
pub enum RawModifierKey {
    Control,
    RControl,
    Shift,
    RShift,
    Command,
    RCommand,
    Option,
    ROption,
}

/// The Apple virtual keycode of a modifier key.
pub open spec fn keycode_of(k: RawModifierKey) -> u16 {
    match k {
        RawModifierKey::Control => 0x3B,
        RawModifierKey::RControl => 0x3E,
        RawModifierKey::Shift => 0x38,
        RawModifierKey::RShift => 0x3C,
        RawModifierKey::Command => 0x37,
        RawModifierKey::RCommand => 0x36,
        RawModifierKey::Option => 0x3A,
        RawModifierKey::ROption => 0x3D,
    }
}

impl RawModifierKey {
    /// Return the Apple virtual keycode for this modifier.
    pub fn keycode(self) -> (r: u16)
        ensures
            r == keycode_of(self),
    {
        match self {
            RawModifierKey::Control => 0x3B,
            RawModifierKey::RControl => 0x3E,
            RawModifierKey::Shift => 0x38,
            RawModifierKey::RShift => 0x3C,
            RawModifierKey::Command => 0x37,
            RawModifierKey::RCommand => 0x36,
            RawModifierKey::Option => 0x3A,
            RawModifierKey::ROption => 0x3D,
        }
    }
}

/// Event flag of a held Control key.
pub const FLAG_CONTROL: u64 = 0x0004_0000;
/// Event flag of a held Shift key.
pub const FLAG_SHIFT: u64 = 0x0002_0000;
/// Event flag of a held Option (Alt) key.
pub const FLAG_ALTERNATE: u64 = 0x0008_0000;
/// Event flag of a held Command key.
pub const FLAG_COMMAND: u64 = 0x0010_0000;
/// Event flag that keeps an event from being coalesced with others.
pub const FLAG_NON_COALESCED: u64 = 0x0000_0100;

/// The high-level modifier flag and the device-specific (left/right) flag of a modifier keycode.
pub open spec fn modifier_flags_of(keycode: u16) -> Option<(u64, u64)> {
    if keycode == 0x3B {
        Some((FLAG_CONTROL, 0x0000_0001u64))
    } else if keycode == 0x3E {
        Some((FLAG_CONTROL, 0x0000_2000u64))
    } else if keycode == 0x38 {
        Some((FLAG_SHIFT, 0x0000_0002u64))
    } else if keycode == 0x3C {
        Some((FLAG_SHIFT, 0x0000_0004u64))
    } else if keycode == 0x37 {
        Some((FLAG_COMMAND, 0x0000_0008u64))
    } else if keycode == 0x36 {
        Some((FLAG_COMMAND, 0x0000_0010u64))
    } else if keycode == 0x3A {
        Some((FLAG_ALTERNATE, 0x0000_0020u64))
    } else if keycode == 0x3D {
        Some((FLAG_ALTERNATE, 0x0000_0040u64))
    } else {
        None
    }
}

/// Returns the high-level modifier flag and the device-specific flag for a modifier keycode,
/// or `None` when the keycode is not one of a modifier.
pub fn modifier_flags(keycode: u16) -> (r: Option<(u64, u64)>)
    ensures
        r == modifier_flags_of(keycode),
{
    match keycode {
        0x3B => Some((FLAG_CONTROL, 0x0000_0001)),
        0x3E => Some((FLAG_CONTROL, 0x0000_2000)),
        0x38 => Some((FLAG_SHIFT, 0x0000_0002)),
        0x3C => Some((FLAG_SHIFT, 0x0000_0004)),
        0x37 => Some((FLAG_COMMAND, 0x0000_0008)),
        0x36 => Some((FLAG_COMMAND, 0x0000_0010)),
        0x3A => Some((FLAG_ALTERNATE, 0x0000_0020)),
        0x3D => Some((FLAG_ALTERNATE, 0x0000_0040)),
        _ => None,
    }
}

/// The flags carried by a flags-changed event for a modifier keycode: both flags of the
/// modifier while it is pressed, none of them on release; `None` for a keycode that is not
/// a modifier.
pub fn flags_changed_mask(keycode: u16, pressed: bool) -> (r: Option<u64>)
    ensures
        r == (match modifier_flags_of(keycode) {
            Some((high, dev)) => Some(
                if pressed {
                    FLAG_NON_COALESCED | high | dev
                } else {
                    FLAG_NON_COALESCED
                },
            ),
            None => None,
        }),
{
    match modifier_flags(keycode) {
        Some((high, dev)) => {
            if pressed {
                Some(FLAG_NON_COALESCED | high | dev)
            } else {
                Some(FLAG_NON_COALESCED)
            }
        },
        None => None,
    }
}

/// A sequence of key combinations played one after another, stored inline when short.
#[verifier::external_body]
#[derive(Debug, PartialEq, Eq)]
pub struct Macros {
    items: SmallVec<[KeyCombo; 4]>,
}

/// The key combinations of a macro, in order.
pub uninterp spec fn macro_items(m: Macros) -> Seq<KeyCombo>;

impl Macros {
    /// Relies on `SmallVec::from_vec`, which keeps the vector's items in order.
    #[verifier::external_body]
    pub fn from_vec(v: Vec<KeyCombo>) -> (r: Macros)
        ensures
            macro_items(r) == v@,
    {
        Macros { items: SmallVec::from_vec(v) }
    }

    /// Relies on `SmallVec::to_vec`, which clones the items in order (a `KeyCombo` clone is a
    /// copy).
    #[verifier::external_body]
    pub fn to_vec(&self) -> (r: Vec<KeyCombo>)
        ensures
            r@ == macro_items(*self),
    {
        self.items.to_vec()
    }

    /// Relies on `SmallVec::clone`, which builds the copy from the items in order, cloning
    /// each (a `KeyCombo` clone is a copy).
    #[verifier::external_body]
    pub fn copy(&self) -> (r: Macros)
        ensures
            macro_items(r) == macro_items(*self),
    {
        Macros { items: self.items.clone() }
    }
}

/// What a rule does when its chord fires.
#[derive(Debug)]
pub enum ButtonAction {
    /// Tap on press, then repeat after a delay until the chord is released.
    Keystroke(KeyCombo),
    /// One tap on press, no repeat.
    TapKeystroke(KeyCombo),
    Macros(Macros),
    Shell(String),
    MouseClick { button: MouseButton, click_type: MouseClickType },
    /// A modifier signalled on press and on release.
    RawModifier(RawModifierKey),
}

/// A rule bound to a button chord.
#[derive(Debug)]
pub struct ButtonRule {
    pub action: ButtonAction,
    pub vibrate: Option<u16>,
    pub repeat_delay_ms: Option<u64>,
    pub repeat_interval_ms: Option<u64>,
}

/// A side of a stick.
#[derive(Debug, Clone, Copy, PartialEq, Eq, Structural, Hash)]
pub enum StickSide {
    Left,
    Right,
}

/// An axis of a stick.
#[derive(Debug, Clone, Copy, PartialEq, Eq, Structural, Hash)]
pub enum Axis {
    X,
    Y,
}

/// Parameters for the arrows mode. Deadzones are in thousandths of full deflection.
#[derive(Debug, Clone, Copy, PartialEq, Eq, Structural)]
pub struct ArrowsParams {
    pub deadzone: u32,
    pub repeat_delay_ms: u64,
    pub repeat_interval_ms: u64,
    pub invert_x: bool,
    pub invert_y: bool,
}

/// Parameters for the volume/brightness modes.
#[derive(Debug, Clone, Copy, PartialEq, Eq, Structural)]
pub struct StepperParams {
    pub axis: Axis,
    pub deadzone: u32,
    pub min_interval_ms: u64,
    pub max_interval_ms: u64,
    pub invert: bool,
}

/// Parameters for the mouse move mode. `response[m]` is the shaped speed, in thousandths of
/// `max_speed_px_s`, for a rescaled deflection of `m` thousandths.
#[derive(Debug, Clone)]
pub struct MouseParams {
    pub deadzone: u32,
    pub max_speed_px_s: u32,
    pub response: Vec<u32>,
    pub invert_x: bool,
    pub invert_y: bool,
}

/// Parameters for the scroll mode.
#[derive(Debug, Clone, Copy, PartialEq, Eq, Structural)]
pub struct ScrollParams {
    pub deadzone: u32,
    pub speed_lines_s: u32,
    pub horizontal: bool,
    pub invert_x: bool,
    pub invert_y: bool,
}

/// A mode of a gamepad stick.
#[derive(Debug, Clone)]
pub enum StickMode {
    Arrows(ArrowsParams),
    Volume(StepperParams),
    Brightness(StepperParams),
    MouseMove(MouseParams),
    Scroll(ScrollParams),
}

/// Deadzones below full deflection, response tables covering every deflection.
pub open spec fn stick_mode_wf(m: StickMode) -> bool {
    match m {
        StickMode::Arrows(p) => p.deadzone < 1000,
        StickMode::Volume(p) => p.deadzone < 1000,
        StickMode::Brightness(p) => p.deadzone < 1000,
        StickMode::MouseMove(p) => p.deadzone < 1000 && p.response@.len() == 1001 && forall|i: int|
            0 <= i < 1001 ==> #[trigger] p.response@[i] <= 1000,
        StickMode::Scroll(p) => p.deadzone < 1000,
    }
}

/// The rules of one application: chords to button rules (in order), sticks to modes.
#[derive(Debug)]
pub struct AppRules {
    pub buttons: Vec<(Bitmask, ButtonRule)>,
    pub sticks: Vec<(StickSide, StickMode)>,
}

/// Per-controller settings: a remapping of buttons.
#[derive(Debug, Clone)]
pub struct ControllerSettings {
    pub mapping: Vec<(Button, Button)>,
}

impl ControllerSettings {
    pub fn new(mapping: Vec<(Button, Button)>) -> (r: Self)
        ensures
            r.mapping@ == mapping@,
    {
        ControllerSettings { mapping }
    }
}

/// Profile: controller settings keyed by (vendor id, product id), blacklisted applications,
/// rules keyed by application identifier, and the shell for shell actions.
#[derive(Debug)]
pub struct Profile {
    pub controllers: Vec<((u16, u16), ControllerSettings)>,
    pub blacklist: Vec<String>,
    pub rules: Vec<(String, AppRules)>,
    pub shell: Option<String>,
}

impl Profile {
    /// Every stick mode of every application is well formed.
    pub open spec fn wf(&self) -> bool {
        forall|i: int, j: int|
            0 <= i < self.rules@.len() && 0 <= j < self.rules@[i].1.sticks@.len() ==> stick_mode_wf(
                #[trigger] self.rules@[i].1.sticks@[j].1,
            )
    }
}

/// Whether a stick mode is well formed.
pub fn mode_is_valid(m: &StickMode) -> (r: bool)
    ensures
        r == stick_mode_wf(*m),
{
    match m {
        StickMode::Arrows(p) => p.deadzone < 1000,
        StickMode::Volume(p) => p.deadzone < 1000,
        StickMode::Brightness(p) => p.deadzone < 1000,
        StickMode::Scroll(p) => p.deadzone < 1000,
        StickMode::MouseMove(p) => {
            if p.deadzone >= 1000 || p.response.len() != 1001 {
                return false;
            }
            let mut i: usize = 0;
            while i < p.response.len()
                invariant
                    0 <= i <= p.response@.len(),
                    p.response@.len() == 1001,
                    p.deadzone < 1000,
                    *m == StickMode::MouseMove(*p),
                    forall|k: int| 0 <= k < i ==> #[trigger] p.response@[k] <= 1000,
                decreases p.response@.len() - i,
            {
                if p.response[i] > 1000 {
                    proof {
                        assert(!(p.response@[i as int] <= 1000));
                    }
                    return false;
                }
                i = i + 1;
            }
            true
        },
    }
}

impl Profile {
    /// Whether every stick mode of the profile is well formed, as the engine requires of a
    /// profile it is given.
    pub fn is_valid(&self) -> (r: bool)
        ensures
            r == self.wf(),
    {
        let mut i: usize = 0;
        while i < self.rules.len()
            invariant
                0 <= i <= self.rules@.len(),
                forall|a: int, j: int|
                    0 <= a < i && 0 <= j < self.rules@[a].1.sticks@.len() ==> stick_mode_wf(
                        #[trigger] self.rules@[a].1.sticks@[j].1,
                    ),
            decreases self.rules@.len() - i,
        {
            let sticks = &self.rules[i].1.sticks;
            let mut j: usize = 0;
            while j < sticks.len()
                invariant
                    0 <= i < self.rules@.len(),
                    0 <= j <= sticks@.len(),
                    sticks@ == self.rules@[i as int].1.sticks@,
                    forall|k: int| 0 <= k < j ==> stick_mode_wf(#[trigger] sticks@[k].1),
                decreases sticks@.len() - j,
            {
                if !mode_is_valid(&sticks[j].1) {
                    proof {
                        assert(!stick_mode_wf(self.rules@[i as int].1.sticks@[j as int].1));
                    }
                    return false;
                }
                j = j + 1;
            }
            proof {
                assert forall|a: int, k: int|
                    0 <= a < i + 1 && 0 <= k < self.rules@[a].1.sticks@.len() implies stick_mode_wf(
                    #[trigger] self.rules@[a].1.sticks@[k].1,
                ) by {
                    if a == i {
                        assert(stick_mode_wf(sticks@[k].1));
                    }
                }
            }
            i = i + 1;
        }
        true
    }
}

/// First position at or after `i` whose key is `k`, or -1.
pub open spec fn index_of_key_from<K, V>(s: Seq<(K, V)>, k: K, i: int) -> int
    decreases s.len() - i,
{
    if i < 0 || i >= s.len() {
        -1
    } else if s[i].0 == k {
        i
    } else {
        index_of_key_from(s, k, i + 1)
    }
}

/// First position whose key is `k`, or -1.
pub open spec fn index_of_key<K, V>(s: Seq<(K, V)>, k: K) -> int {
    index_of_key_from(s, k, 0)
}

/// First position at or after `i` whose string key reads `k`, or -1.
pub open spec fn index_of_name_from<V>(s: Seq<(String, V)>, k: Seq<char>, i: int) -> int
    decreases s.len() - i,
{
    if i < 0 || i >= s.len() {
        -1
    } else if s[i].0@ == k {
        i
    } else {
        index_of_name_from(s, k, i + 1)
    }
}

/// First position whose string key reads `k`, or -1.
pub open spec fn index_of_name<V>(s: Seq<(String, V)>, k: Seq<char>) -> int {
    index_of_name_from(s, k, 0)
}

pub(crate) proof fn lemma_index_of_key_from_range<K, V>(s: Seq<(K, V)>, k: K, i: int)
    ensures
        index_of_key_from(s, k, i) == -1 || (i <= index_of_key_from(s, k, i) < s.len()
            && s[index_of_key_from(s, k, i)].0 == k),
    decreases s.len() - i,
{
    if 0 <= i < s.len() && s[i].0 != k {
        lemma_index_of_key_from_range(s, k, i + 1);
    }
}

pub(crate) proof fn lemma_index_of_name_from_range<V>(s: Seq<(String, V)>, k: Seq<char>, i: int)
    ensures
        index_of_name_from(s, k, i) == -1 || (i <= index_of_name_from(s, k, i) < s.len()
            && s[index_of_name_from(s, k, i)].0@ == k),
    decreases s.len() - i,
{
    if 0 <= i < s.len() && s[i].0@ != k {
        lemma_index_of_name_from_range(s, k, i + 1);
    }
}

/// Position of the first remapping of `k`.
pub fn find_button(s: &Vec<(Button, Button)>, k: Button) -> (r: Option<usize>)
    ensures
        match r {
            Some(i) => i as int == index_of_key(s@, k) && i < s@.len(),
            None => index_of_key(s@, k) == -1,
        },
{
    let mut i: usize = 0;
    while i < s.len()
        invariant
            0 <= i <= s@.len(),
            index_of_key(s@, k) == index_of_key_from(s@, k, i as int),
        decreases s@.len() - i,
    {
        if s[i].0 == k {
            return Some(i);
        }
        i = i + 1;
    }
    None
}

/// Position of the first settings entry for a device.
pub fn find_device(s: &Vec<((u16, u16), ControllerSettings)>, vendor_id: u16, product_id: u16) -> (r:
    Option<usize>)
    ensures
        match r {
            Some(i) => i as int == index_of_key(s@, (vendor_id, product_id)) && i < s@.len(),
            None => index_of_key(s@, (vendor_id, product_id)) == -1,
        },
{
    let mut i: usize = 0;
    while i < s.len()
        invariant
            0 <= i <= s@.len(),
            index_of_key(s@, (vendor_id, product_id)) == index_of_key_from(
                s@,
                (vendor_id, product_id),
                i as int,
            ),
        decreases s@.len() - i,
    {
        if s[i].0.0 == vendor_id && s[i].0.1 == product_id {
            return Some(i);
        }
        i = i + 1;
    }
    None
}

/// Position of the first entry whose string key equals `k`.
pub fn find_name<V>(s: &Vec<(String, V)>, k: &String) -> (r: Option<usize>)
    ensures
        match r {
            Some(i) => i as int == index_of_name(s@, k@) && i < s@.len(),
            None => index_of_name(s@, k@) == -1,
        },
{
    let mut i: usize = 0;
    while i < s.len()
        invariant
            0 <= i <= s@.len(),
            index_of_name(s@, k@) == index_of_name_from(s@, k@, i as int),
        decreases s@.len() - i,
    {
        if s[i].0 == *k {
            return Some(i);
        }
        i = i + 1;
    }
    None
}

/// Whether some string of `s` reads `k`.
pub fn contains_name(s: &Vec<String>, k: &String) -> (r: bool)
    ensures
        r == (exists|i: int| 0 <= i < s@.len() && #[trigger] s@[i]@ == k@),
{
    let mut i: usize = 0;
    while i < s.len()
        invariant
            0 <= i <= s@.len(),
            forall|j: int| 0 <= j < i ==> #[trigger] s@[j]@ != k@,
        decreases s@.len() - i,
    {
        if s[i] == *k {
            return true;
        }
        i = i + 1;
    }
    false
}

/// The button that `b` stands for under a remapping: the first mapping of `b`, else `b`.
pub open spec fn remap(mapping: Seq<(Button, Button)>, b: Button) -> Button {
    let i = index_of_key(mapping, b);
    if i == -1 {
        b
    } else {
        mapping[i].1
    }
}

impl ControllerSettings {
    /// Apply the remapping to `b`.
    pub fn map_button(&self, b: Button) -> (r: Button)
        ensures
            r == remap(self.mapping@, b),
    {
        proof {
            lemma_index_of_key_from_range(self.mapping@, b, 0);
        }
        match find_button(&self.mapping, b) {
            Some(i) => self.mapping[i].1,
            None => b,
        }
    }

    /// A copy with the same mapping.
    pub fn duplicate(&self) -> (r: ControllerSettings)
        ensures
            r.mapping@ == self.mapping@,
    {
        let mut m: Vec<(Button, Button)> = Vec::new();
        let mut i: usize = 0;
        while i < self.mapping.len()
            invariant
                0 <= i <= self.mapping@.len(),
                m@ == self.mapping@.subrange(0, i as int),
            decreases self.mapping@.len() - i,
        {
            m.push(self.mapping[i]);
            i = i + 1;
            proof {
                assert(m@ =~= self.mapping@.subrange(0, i as int));
            }
        }
        proof {
            assert(m@ =~= self.mapping@);
        }
        ControllerSettings { mapping: m }
    }
}

} // verus!
