use vstd::prelude::*;

use crate::profile::{macro_items, KeyCombo, Macros, MouseButton, MouseClickType, RawModifierKey};

verus! {

/// Identifier of a connected controller.
pub type ControllerId = u32;

/// What the engine asks the host to do.
#[derive(Debug, PartialEq, Eq)]
pub enum Action {
    KeyPress(KeyCombo),
    KeyRelease(KeyCombo),
    KeyTap(KeyCombo),
    Macros(Macros),
    Shell(String),
    MouseClick { button: MouseButton, click_type: MouseClickType },
    MouseMove { dx: i32, dy: i32 },
    Scroll { h: i32, v: i32 },
    Rumble { id: ControllerId, ms: u32 },
    RawModifierPress(RawModifierKey),
    RawModifierRelease(RawModifierKey),
}

/// An action as a mathematical value: sequences in place of vectors and strings.
pub enum ActionView {
    KeyPress(KeyCombo),
    KeyRelease(KeyCombo),
    KeyTap(KeyCombo),
    Macros(Seq<KeyCombo>),
    Shell(Seq<char>),
    MouseClick { button: MouseButton, click_type: MouseClickType },
    MouseMove { dx: i32, dy: i32 },
    Scroll { h: i32, v: i32 },
    Rumble { id: ControllerId, ms: u32 },
    RawModifierPress(RawModifierKey),
    RawModifierRelease(RawModifierKey),
}

impl View for Action {
    type V = ActionView;

    open spec fn view(&self) -> ActionView {
        match self {
            Action::KeyPress(k) => ActionView::KeyPress(*k),
            Action::KeyRelease(k) => ActionView::KeyRelease(*k),
            Action::KeyTap(k) => ActionView::KeyTap(*k),
            Action::Macros(m) => ActionView::Macros(macro_items(*m)),
            Action::Shell(s) => ActionView::Shell(s@),
            Action::MouseClick { button, click_type } => ActionView::MouseClick {
                button: *button,
                click_type: *click_type,
            },
            Action::MouseMove { dx, dy } => ActionView::MouseMove { dx: *dx, dy: *dy },
            Action::Scroll { h, v } => ActionView::Scroll { h: *h, v: *v },
            Action::Rumble { id, ms } => ActionView::Rumble { id: *id, ms: *ms },
            Action::RawModifierPress(k) => ActionView::RawModifierPress(*k),
            Action::RawModifierRelease(k) => ActionView::RawModifierRelease(*k),
        }
    }
}

/// The views of a sequence of actions, in order.
pub open spec fn views(s: Seq<Action>) -> Seq<ActionView> {
    s.map_values(|a: Action| a@)
}

/// Append `a` to `out`.
pub fn emit(out: &mut Vec<Action>, a: Action)
    ensures
        views(final(out)@) == views(old(out)@).push(a@),
{
    out.push(a);
    proof {
        assert(views(final(out)@) =~= views(old(out)@).push(a@));
    }
}

} // verus!
