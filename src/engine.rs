use vstd::prelude::*;

use crate::action::{emit, views, Action, ActionView, ControllerId};
use crate::bitmask::{Bitmask, Button};
use crate::stick::{sat_add, side_state_wf, CompiledStickRules, SideState};
use crate::profile::{
    contains_name, find_device, find_name, index_of_key, index_of_name, AppRules, ButtonAction,
    ButtonRule, ControllerSettings, KeyCombo, Profile, StickMode,
};

verus! {

/// Delay before the first repeat of a held keystroke, unless the rule says otherwise.
pub const DEFAULT_REPEAT_DELAY_MS: u64 = 400;
/// Interval between repeats of a held keystroke, unless the rule says otherwise.
pub const DEFAULT_REPEAT_INTERVAL_MS: u64 = 50;

/// Whether a button goes down or up.
#[derive(Debug, Clone, Copy, PartialEq, Eq, Structural, Hash)]
pub enum ButtonPhase {
    Pressed,
    Released,
}

/// What the gamepad backend tells of a controller when it connects.
#[derive(Debug, Clone)]
pub struct ControllerInfo {
    pub id: ControllerId,
    pub name: String,
    pub vendor_id: u16,
    pub product_id: u16,
    pub supports_rumble: bool,
}

/// Per-controller state: remapping, held buttons, rumble support, axes, and the state of
/// each stick side.
#[derive(Debug)]
pub struct ControllerState {
    pub mapping: ControllerSettings,
    pub pressed: Bitmask,
    pub rumble: bool,
    pub axes: Axes,
    pub left: SideState,
    pub right: SideState,
}

/// Axis values of a controller, in thousandths of full deflection.
#[derive(Debug, Clone, Copy, PartialEq, Eq, Structural)]
pub struct Axes {
    pub lx: i32,
    pub ly: i32,
    pub rx: i32,
    pub ry: i32,
    pub lt: i32,
    pub rt: i32,
}

/// A pending auto-repeat of a held keystroke.
#[derive(Debug, Clone, Copy, PartialEq, Eq, Structural)]
pub struct ButtonRepeatTask {
    pub id: ControllerId,
    pub button: Button,
    pub key: KeyCombo,
    pub interval_ms: u64,
    pub next_fire: u64,
    pub delay_done: bool,
}


/// Whether the chord `t` fires on a transition from `prev` to `now`.
pub open spec fn fires(prev: Bitmask, now: Bitmask, t: Bitmask, phase: ButtonPhase) -> bool {
    match phase {
        ButtonPhase::Pressed => prev.superset(t) != now.superset(t),
        ButtonPhase::Released => prev.superset(t) && !now.superset(t),
    }
}

/// Largest cardinality among the chords of `rules` that fire.
pub open spec fn max_fire_bits(
    rules: Seq<(Bitmask, ButtonRule)>,
    prev: Bitmask,
    now: Bitmask,
    phase: ButtonPhase,
) -> nat
    decreases rules.len(),
{
    if rules.len() == 0 {
        0
    } else {
        let m = max_fire_bits(rules.drop_last(), prev, now, phase);
        let t = rules.last().0;
        if fires(prev, now, t, phase) && t.size() > m {
            t.size()
        } else {
            m
        }
    }
}

/// Whether a rule with chord `t` is executed: it fires, with the largest cardinality.
pub open spec fn selected(
    prev: Bitmask,
    now: Bitmask,
    t: Bitmask,
    phase: ButtonPhase,
    max: nat,
) -> bool {
    fires(prev, now, t, phase) && t.size() == max
}

/// What a rule emits when its chord is pressed.
pub open spec fn press_emits(rule: ButtonRule, id: ControllerId, rumble: bool) -> Seq<ActionView> {
    let buzz = match rule.vibrate {
        Some(ms) => if rumble {
            seq![ActionView::Rumble { id, ms: ms as u32 }]
        } else {
            seq![]
        },
        None => seq![],
    };
    let act = match rule.action {
        ButtonAction::Keystroke(k) => ActionView::KeyTap(k),
        ButtonAction::TapKeystroke(k) => ActionView::KeyTap(k),
        ButtonAction::Macros(m) => ActionView::Macros(crate::profile::macro_items(m)),
        ButtonAction::Shell(s) => ActionView::Shell(s@),
        ButtonAction::MouseClick { button, click_type } => ActionView::MouseClick {
            button,
            click_type,
        },
        ButtonAction::RawModifier(k) => ActionView::RawModifierPress(k),
    };
    buzz.push(act)
}

/// What a rule emits when its chord is released.
pub open spec fn release_emits(rule: ButtonRule) -> Seq<ActionView> {
    match rule.action {
        ButtonAction::RawModifier(k) => seq![ActionView::RawModifierRelease(k)],
        _ => seq![],
    }
}

/// What the rules emit, in order, for one button transition.
pub open spec fn button_emits(
    rules: Seq<(Bitmask, ButtonRule)>,
    prev: Bitmask,
    now: Bitmask,
    phase: ButtonPhase,
    max: nat,
    id: ControllerId,
    rumble: bool,
) -> Seq<ActionView>
    decreases rules.len(),
{
    if rules.len() == 0 {
        seq![]
    } else {
        let r = rules.last();
        let before = button_emits(rules.drop_last(), prev, now, phase, max, id, rumble);
        if selected(prev, now, r.0, phase, max) {
            match phase {
                ButtonPhase::Pressed => before + press_emits(r.1, id, rumble),
                ButtonPhase::Released => before + release_emits(r.1),
            }
        } else {
            before
        }
    }
}

/// First position at or after `i` of the repeat of (`id`, `b`), or -1.
pub open spec fn task_index_from(t: Seq<ButtonRepeatTask>, id: ControllerId, b: Button, i: int) -> int
    decreases t.len() - i,
{
    if i < 0 || i >= t.len() {
        -1
    } else if t[i].id == id && t[i].button == b {
        i
    } else {
        task_index_from(t, id, b, i + 1)
    }
}

/// Position of the repeat of (`id`, `b`), or -1.
pub open spec fn task_index(t: Seq<ButtonRepeatTask>, id: ControllerId, b: Button) -> int {
    task_index_from(t, id, b, 0)
}

/// The table with `task` in place of the repeat of its (controller, button), or added last.
pub open spec fn table_put(t: Seq<ButtonRepeatTask>, task: ButtonRepeatTask) -> Seq<ButtonRepeatTask> {
    let i = task_index(t, task.id, task.button);
    if i == -1 {
        t.push(task)
    } else {
        t.update(i, task)
    }
}

/// The table without the repeat of (`id`, `b`).
pub open spec fn table_del(t: Seq<ButtonRepeatTask>, id: ControllerId, b: Button) -> Seq<
    ButtonRepeatTask,
> {
    let i = task_index(t, id, b);
    if i == -1 {
        t
    } else {
        t.remove(i)
    }
}

/// The repeat that a pressed keystroke rule starts at time `at`.
pub open spec fn new_task(
    rule: ButtonRule,
    k: KeyCombo,
    id: ControllerId,
    b: Button,
    at: u64,
) -> ButtonRepeatTask {
    ButtonRepeatTask {
        id,
        button: b,
        key: k,
        interval_ms: match rule.repeat_interval_ms {
            Some(v) => v,
            None => DEFAULT_REPEAT_INTERVAL_MS,
        },
        next_fire: sat_add(
            at,
            match rule.repeat_delay_ms {
                Some(v) => v,
                None => DEFAULT_REPEAT_DELAY_MS,
            },
        ),
        delay_done: false,
    }
}

/// The repeat table after the executed rules of one transition of button `b`.
pub open spec fn repeats_after(
    rules: Seq<(Bitmask, ButtonRule)>,
    prev: Bitmask,
    now: Bitmask,
    phase: ButtonPhase,
    max: nat,
    id: ControllerId,
    b: Button,
    at: u64,
    table: Seq<ButtonRepeatTask>,
) -> Seq<ButtonRepeatTask>
    decreases rules.len(),
{
    if rules.len() == 0 {
        table
    } else {
        let r = rules.last();
        let t = repeats_after(rules.drop_last(), prev, now, phase, max, id, b, at, table);
        if selected(prev, now, r.0, phase, max) {
            match (phase, r.1.action) {
                (ButtonPhase::Pressed, ButtonAction::Keystroke(k)) => table_put(
                    t,
                    new_task(r.1, k, id, b, at),
                ),
                (ButtonPhase::Released, ButtonAction::Keystroke(_)) => table_del(t, id, b),
                _ => t,
            }
        } else {
            t
        }
    }
}

/// Position of the controller `id`, or -1.
pub open spec fn controller_index_from(c: Seq<(ControllerId, ControllerState)>, id: ControllerId, i: int) -> int
    decreases c.len() - i,
{
    if i < 0 || i >= c.len() {
        -1
    } else if c[i].0 == id {
        i
    } else {
        controller_index_from(c, id, i + 1)
    }
}

/// The bitmask after a transition of `b`.
pub open spec fn pressed_after(prev: Bitmask, b: Button, phase: ButtonPhase) -> Bitmask {
    match phase {
        ButtonPhase::Pressed => prev.with(b),
        ButtonPhase::Released => prev.without(b),
    }
}

/// The literal key of the rules that apply to any application without rules of its own.
pub open spec fn common_key() -> Seq<char> {
    "common"@
}

/// Position in `p.rules` of the rules for application `app`: its own, else the common ones, else -1.
pub open spec fn app_rules_index(p: Profile, app: Seq<char>) -> int {
    let i = index_of_name(p.rules@, app);
    if i != -1 {
        i
    } else {
        index_of_name(p.rules@, common_key())
    }
}

/// Axes within full deflection, stick remainders under one unit.
pub open spec fn controller_state_wf(st: ControllerState) -> bool {
    &&& axes_wf(st.axes)
    &&& side_state_wf(st.left)
    &&& side_state_wf(st.right)
}

pub open spec fn axis_ok(v: i32) -> bool {
    -1000 <= v <= 1000
}

pub open spec fn axes_wf(a: Axes) -> bool {
    axis_ok(a.lx) && axis_ok(a.ly) && axis_ok(a.rx) && axis_ok(a.ry) && axis_ok(a.lt) && axis_ok(a.rt)
}

/// Position of the rules for `app` in the profile, if there is a profile and such rules.
pub open spec fn active_rules_for(w: Option<Profile>, app: Seq<char>) -> Option<usize> {
    match w {
        None => None,
        Some(p) => {
            let i = app_rules_index(p, app);
            if i == -1 {
                None
            } else {
                Some(i as usize)
            }
        },
    }
}

/// The stick modes that apply to `app`: the first rule of each side in its rules.
pub open spec fn compiled_for(w: Option<Profile>, app: Seq<char>) -> Option<CompiledStickRules> {
    match active_rules_for(w, app) {
        None => None,
        Some(i) => {
            let sticks = w.unwrap().rules@[i as int].1.sticks@;
            Some(
                CompiledStickRules {
                    left: crate::stick::side_index(sticks, crate::profile::StickSide::Left),
                    right: crate::stick::side_index(sticks, crate::profile::StickSide::Right),
                },
            )
        },
    }
}

/// Whether `app` is blacklisted by `p`.
pub open spec fn blacklisted(p: Profile, app: Seq<char>) -> bool {
    exists|i: int| 0 <= i < p.blacklist@.len() && #[trigger] p.blacklist@[i]@ == app
}


proof fn lemma_task_index_from<'a>(t: Seq<ButtonRepeatTask>, id: ControllerId, b: Button, i: int)
    requires
        0 <= i,
    ensures
        task_index_from(t, id, b, i) == -1 ==> forall|j: int|
            i <= j < t.len() ==> !(#[trigger] t[j].id == id && t[j].button == b),
        task_index_from(t, id, b, i) != -1 ==> i <= task_index_from(t, id, b, i) < t.len()
            && t[task_index_from(t, id, b, i)].id == id && t[task_index_from(t, id, b, i)].button
            == b,
    decreases t.len() - i,
{
    if i < t.len() && !(t[i].id == id && t[i].button == b) {
        lemma_task_index_from(t, id, b, i + 1);
    }
}

proof fn lemma_controller_index_from(c: Seq<(ControllerId, ControllerState)>, id: ControllerId, i: int)
    requires
        0 <= i,
    ensures
        controller_index_from(c, id, i) == -1 ==> forall|j: int|
            i <= j < c.len() ==> #[trigger] c[j].0 != id,
        controller_index_from(c, id, i) != -1 ==> i <= controller_index_from(c, id, i) < c.len()
            && c[controller_index_from(c, id, i)].0 == id,
    decreases c.len() - i,
{
    if i < c.len() && c[i].0 != id {
        lemma_controller_index_from(c, id, i + 1);
    }
}

/// No two repeats share a (controller, button).
pub open spec fn unique_tasks(t: Seq<ButtonRepeatTask>) -> bool {
    forall|i: int, j: int|
        0 <= i < t.len() && 0 <= j < t.len() && i != j ==> !(#[trigger] t[i].id == #[trigger] t[j].id
            && t[i].button == t[j].button)
}

/// No two controllers share an id.
pub open spec fn unique_controllers(c: Seq<(ControllerId, ControllerState)>) -> bool {
    forall|i: int, j: int|
        0 <= i < c.len() && 0 <= j < c.len() && i != j ==> #[trigger] c[i].0 != #[trigger] c[j].0
}

/// Position of the controller `id`, or -1.
pub open spec fn controller_index(c: Seq<(ControllerId, ControllerState)>, id: ControllerId) -> int {
    controller_index_from(c, id, 0)
}

fn find_task(t: &Vec<ButtonRepeatTask>, id: ControllerId, b: Button) -> (r: Option<usize>)
    ensures
        match r {
            Some(i) => i as int == task_index(t@, id, b) && i < t@.len(),
            None => task_index(t@, id, b) == -1,
        },
{
    let mut i: usize = 0;
    while i < t.len()
        invariant
            0 <= i <= t@.len(),
            task_index(t@, id, b) == task_index_from(t@, id, b, i as int),
        decreases t@.len() - i,
    {
        if t[i].id == id && t[i].button == b {
            return Some(i);
        }
        i = i + 1;
    }
    None
}

fn find_controller(c: &Vec<(ControllerId, ControllerState)>, id: ControllerId) -> (r: Option<usize>)
    ensures
        match r {
            Some(i) => i as int == controller_index(c@, id) && i < c@.len(),
            None => controller_index(c@, id) == -1,
        },
{
    let mut i: usize = 0;
    while i < c.len()
        invariant
            0 <= i <= c@.len(),
            controller_index(c@, id) == controller_index_from(c@, id, i as int),
        decreases c@.len() - i,
    {
        if c[i].0 == id {
            return Some(i);
        }
        i = i + 1;
    }
    None
}

fn table_put_exec(t: &mut Vec<ButtonRepeatTask>, task: ButtonRepeatTask)
    requires
        unique_tasks(old(t)@),
    ensures
        final(t)@ == table_put(old(t)@, task),
        unique_tasks(final(t)@),
{
    proof {
        lemma_task_index_from(t@, task.id, task.button, 0);
    }
    match find_task(t, task.id, task.button) {
        Some(i) => {
            t[i] = task;
        },
        None => {
            t.push(task);
        },
    }
    proof {
        let n = final(t)@;
        assert forall|i: int, j: int|
            0 <= i < n.len() && 0 <= j < n.len() && i != j implies !(#[trigger] n[i].id
            == #[trigger] n[j].id && n[i].button == n[j].button) by {
            if i < old(t)@.len() && j < old(t)@.len() {
            }
        }
    }
}

fn table_del_exec(t: &mut Vec<ButtonRepeatTask>, id: ControllerId, b: Button)
    requires
        unique_tasks(old(t)@),
    ensures
        final(t)@ == table_del(old(t)@, id, b),
        unique_tasks(final(t)@),
{
    match find_task(t, id, b) {
        Some(i) => {
            t.remove(i);
            proof {
                let o = old(t)@;
                let n = final(t)@;
                assert forall|p: int, q: int|
                    0 <= p < n.len() && 0 <= q < n.len() && p != q implies !(#[trigger] n[p].id
                    == #[trigger] n[q].id && n[p].button == n[q].button) by {
                    let pp = if p < i { p } else { p + 1 };
                    let qq = if q < i { q } else { q + 1 };
                    assert(n[p] == o[pp]);
                    assert(n[q] == o[qq]);
                }
            }
        },
        None => {},
    }
}

/// The engine: known controllers, the active application, the profile, and the pending repeats.
pub struct Gamacros {
    pub workspace: Option<Profile>,
    pub active_app: String,
    pub controllers: Vec<(ControllerId, ControllerState)>,
    pub button_repeats: Vec<ButtonRepeatTask>,
    /// Position in the profile's rules of the rules that apply to the active application.
    pub active_rules: Option<usize>,
    pub compiled_stick_rules: Option<CompiledStickRules>,
}

/// The executed rule's effect on the output and on the repeat table.
fn execute_rule(
    rule: &ButtonRule,
    phase: ButtonPhase,
    id: ControllerId,
    b: Button,
    rumble: bool,
    at: u64,
    table: &mut Vec<ButtonRepeatTask>,
    out: &mut Vec<Action>,
)
    requires
        unique_tasks(old(table)@),
    ensures
        unique_tasks(final(table)@),
        views(final(out)@) == views(old(out)@) + match phase {
            ButtonPhase::Pressed => press_emits(*rule, id, rumble),
            ButtonPhase::Released => release_emits(*rule),
        },
        final(table)@ == match (phase, rule.action) {
            (ButtonPhase::Pressed, ButtonAction::Keystroke(k)) => table_put(
                old(table)@,
                new_task(*rule, k, id, b, at),
            ),
            (ButtonPhase::Released, ButtonAction::Keystroke(_)) => table_del(old(table)@, id, b),
            _ => old(table)@,
        },
{
    match phase {
        ButtonPhase::Pressed => {
            match rule.vibrate {
                Some(ms) => {
                    if rumble {
                        emit(out, Action::Rumble { id, ms: ms as u32 });
                    }
                },
                None => {},
            }
            match &rule.action {
                ButtonAction::Keystroke(k) => {
                    emit(out, Action::KeyTap(*k));
                    let delay_ms = match rule.repeat_delay_ms {
                        Some(v) => v,
                        None => DEFAULT_REPEAT_DELAY_MS,
                    };
                    let interval_ms = match rule.repeat_interval_ms {
                        Some(v) => v,
                        None => DEFAULT_REPEAT_INTERVAL_MS,
                    };
                    let task = ButtonRepeatTask {
                        id,
                        button: b,
                        key: *k,
                        interval_ms,
                        next_fire: at.saturating_add(delay_ms),
                        delay_done: false,
                    };
                    table_put_exec(table, task);
                },
                ButtonAction::TapKeystroke(k) => {
                    emit(out, Action::KeyTap(*k));
                },
                ButtonAction::Macros(m) => {
                    emit(out, Action::Macros(m.copy()));
                },
                ButtonAction::Shell(s) => {
                    emit(out, Action::Shell(s.clone()));
                },
                ButtonAction::MouseClick { button, click_type } => {
                    emit(out, Action::MouseClick { button: *button, click_type: *click_type });
                },
                ButtonAction::RawModifier(k) => {
                    emit(out, Action::RawModifierPress(*k));
                },
            }
        },
        ButtonPhase::Released => {
            match &rule.action {
                ButtonAction::Keystroke(_) => {
                    table_del_exec(table, id, b);
                },
                ButtonAction::RawModifier(k) => {
                    emit(out, Action::RawModifierRelease(*k));
                },
                _ => {},
            }
        },
    }
    proof {
        assert(views(final(out)@) =~= views(old(out)@) + match phase {
            ButtonPhase::Pressed => press_emits(*rule, id, rumble),
            ButtonPhase::Released => release_emits(*rule),
        });
    }
}


/// Whether a button event for `id` is ignored: no profile, a blacklisted application, no rules
/// for the application and no common rules, or an unknown controller.
pub open spec fn button_ignored(g: Gamacros, id: ControllerId) -> bool {
    match g.workspace {
        None => true,
        Some(p) => blacklisted(p, g.active_app@) || app_rules_index(p, g.active_app@) == -1
            || controller_index(g.controllers@, id) == -1,
    }
}

/// The chord rules that apply to the active application (only meaningful when not ignored).
pub open spec fn active_button_rules(g: Gamacros) -> Seq<(Bitmask, ButtonRule)> {
    let p = g.workspace.unwrap();
    p.rules@[app_rules_index(p, g.active_app@)].1.buttons@
}

proof fn lemma_prefix_step(rules: Seq<(Bitmask, ButtonRule)>, i: int)
    requires
        0 <= i < rules.len(),
    ensures
        rules.subrange(0, i + 1).drop_last() == rules.subrange(0, i),
        rules.subrange(0, i + 1).last() == rules[i],
{
    assert(rules.subrange(0, i + 1).drop_last() =~= rules.subrange(0, i));
}

impl Gamacros {
    /// Controller ids and repeat keys are unique; stick modes are well formed.
    pub open spec fn wf(&self) -> bool {
        &&& unique_controllers(self.controllers@)
        &&& unique_tasks(self.button_repeats@)
        &&& match self.workspace {
            Some(p) => p.wf(),
            None => true,
        }
        &&& forall|j: int|
            0 <= j < self.controllers@.len() ==> controller_state_wf(#[trigger] self.controllers@[j].1)
        &&& self.active_rules == active_rules_for(self.workspace, self.active_app@)
        &&& self.compiled_stick_rules == compiled_for(self.workspace, self.active_app@)
    }

    /// Handle a button transition at time `at` (milliseconds on a monotonic clock), appending
    /// the resulting actions to `out`.
    pub fn on_button_with(
        &mut self,
        id: ControllerId,
        button: Button,
        phase: ButtonPhase,
        at: u64,
        out: &mut Vec<Action>,
    )
        requires
            old(self).wf(),
        ensures
            final(self).wf(),
            final(self).workspace == old(self).workspace,
            final(self).active_app == old(self).active_app,
            button_ignored(*old(self), id) ==> views(final(out)@) == views(old(out)@)
                && final(self).controllers@ == old(self).controllers@
                && final(self).button_repeats@ == old(self).button_repeats@,
            !button_ignored(*old(self), id) ==> ({
                let ci = controller_index(old(self).controllers@, id);
                let st = old(self).controllers@[ci].1;
                let b = crate::profile::remap(st.mapping.mapping@, button);
                let prev = st.pressed;
                let now = pressed_after(prev, b, phase);
                let rules = active_button_rules(*old(self));
                let max = max_fire_bits(rules, prev, now, phase);
                &&& final(self).controllers@.len() == old(self).controllers@.len()
                &&& final(self).controllers@[ci].0 == id
                &&& final(self).controllers@[ci].1.pressed == now
                &&& final(self).controllers@[ci].1.mapping == st.mapping
                &&& final(self).controllers@[ci].1.rumble == st.rumble
                &&& final(self).controllers@[ci].1.axes == st.axes
                &&& final(self).controllers@[ci].1.left == st.left
                &&& final(self).controllers@[ci].1.right == st.right
                &&& forall|j: int|
                    0 <= j < old(self).controllers@.len() && j != ci ==> final(self).controllers@[j]
                        == #[trigger] old(self).controllers@[j]
                &&& views(final(out)@) == views(old(out)@) + button_emits(
                    rules,
                    prev,
                    now,
                    phase,
                    max,
                    id,
                    st.rumble,
                )
                &&& final(self).button_repeats@ == repeats_after(
                    rules,
                    prev,
                    now,
                    phase,
                    max,
                    id,
                    b,
                    at,
                    old(self).button_repeats@,
                )
            }),
    {
        let ws = match &self.workspace {
            Some(w) => w,
            None => {
                return ;
            },
        };
        if contains_name(&ws.blacklist, &self.active_app) {
            return ;
        }
        let ri = match find_name(&ws.rules, &self.active_app) {
            Some(i) => i,
            None => {
                let common: String = "common".to_owned();
                proof {
                    reveal_strlit("common");
                }
                match find_name(&ws.rules, &common) {
                    Some(i) => i,
                    None => {
                        return ;
                    },
                }
            },
        };
        let ci = match find_controller(&self.controllers, id) {
            Some(i) => i,
            None => {
                return ;
            },
        };
        proof {
            lemma_controller_index_from(self.controllers@, id, 0);
        }
        let rules = &ws.rules[ri].1.buttons;
        let b = self.controllers[ci].1.mapping.map_button(button);
        let rumble = self.controllers[ci].1.rumble;
        let prev = self.controllers[ci].1.pressed;
        let mut now = prev;
        match phase {
            ButtonPhase::Pressed => now.insert(b),
            ButtonPhase::Released => now.remove(b),
        }
        self.controllers[ci].1.pressed = now;
        proof {
            let n = self.controllers@;
            let o = old(self).controllers@;
            assert forall|p: int, q: int|
                0 <= p < n.len() && 0 <= q < n.len() && p != q implies #[trigger] n[p].0
                != #[trigger] n[q].0 by {
                assert(n[p].0 == o[p].0);
                assert(n[q].0 == o[q].0);
            }
            assert forall|j: int| 0 <= j < n.len() implies controller_state_wf(#[trigger] n[j].1) by {
                assert(controller_state_wf(o[j].1));
            }
        }

        let mut max_bits: u32 = 0;
        let mut i: usize = 0;
        while i < rules.len()
            invariant
                0 <= i <= rules@.len(),
                max_bits as nat == max_fire_bits(rules@.subrange(0, i as int), prev, now, phase),
                max_bits <= 32,
            decreases rules@.len() - i,
        {
            let target = &rules[i].0;
            let was = prev.is_superset(target);
            let is_now = now.is_superset(target);
            let fire = match phase {
                ButtonPhase::Pressed => was != is_now,
                ButtonPhase::Released => was && !is_now,
            };
            proof {
                lemma_prefix_step(rules@, i as int);
            }
            if fire {
                let bits = target.count();
                if bits > max_bits {
                    max_bits = bits;
                }
            }
            i = i + 1;
        }
        proof {
            assert(rules@.subrange(0, rules@.len() as int) =~= rules@);
        }

        let ghost out0 = views(out@);
        let ghost table0 = self.button_repeats@;
        let ghost ctrls = self.controllers@;
        let mut i: usize = 0;
        while i < rules.len()
            invariant
                0 <= i <= rules@.len(),
                self.workspace == old(self).workspace,
                self.active_app == old(self).active_app,
                self.controllers@ == ctrls,
                unique_controllers(ctrls),
                self.active_rules == old(self).active_rules,
                self.compiled_stick_rules == old(self).compiled_stick_rules,
                forall|j: int| 0 <= j < ctrls.len() ==> controller_state_wf(#[trigger] ctrls[j].1),
                max_bits as nat == max_fire_bits(rules@, prev, now, phase),
                unique_tasks(self.button_repeats@),
                views(out@) == out0 + button_emits(
                    rules@.subrange(0, i as int),
                    prev,
                    now,
                    phase,
                    max_bits as nat,
                    id,
                    rumble,
                ),
                self.button_repeats@ == repeats_after(
                    rules@.subrange(0, i as int),
                    prev,
                    now,
                    phase,
                    max_bits as nat,
                    id,
                    b,
                    at,
                    table0,
                ),
            decreases rules@.len() - i,
        {
            let target = &rules[i].0;
            let was = prev.is_superset(target);
            let is_now = now.is_superset(target);
            let fire = match phase {
                ButtonPhase::Pressed => was != is_now,
                ButtonPhase::Released => was && !is_now,
            };
            proof {
                lemma_prefix_step(rules@, i as int);
            }
            if fire && target.count() == max_bits {
                execute_rule(&rules[i].1, phase, id, b, rumble, at, &mut self.button_repeats, out);
                proof {
                    vstd::seq_lib::lemma_concat_associative::<ActionView>(out0, button_emits(
                        rules@.subrange(0, i as int),
                        prev,
                        now,
                        phase,
                        max_bits as nat,
                        id,
                        rumble,
                    ), match phase {
                        ButtonPhase::Pressed => press_emits(rules@[i as int].1, id, rumble),
                        ButtonPhase::Released => release_emits(rules@[i as int].1),
                    });
                }
            }
            i = i + 1;
        }
        proof {
            assert(rules@.subrange(0, rules@.len() as int) =~= rules@);
        }
    }
}


/// Which controller axis moved.
#[derive(Debug, Clone, Copy, PartialEq, Eq, Structural, Hash)]
pub enum ControllerAxis {
    LeftX,
    LeftY,
    RightX,
    RightY,
    LeftTrigger,
    RightTrigger,
}

/// The axes with `axis` set to `v`.
pub open spec fn axes_with(a: Axes, axis: ControllerAxis, v: i32) -> Axes {
    match axis {
        ControllerAxis::LeftX => Axes { lx: v, ..a },
        ControllerAxis::LeftY => Axes { ly: v, ..a },
        ControllerAxis::RightX => Axes { rx: v, ..a },
        ControllerAxis::RightY => Axes { ry: v, ..a },
        ControllerAxis::LeftTrigger => Axes { lt: v, ..a },
        ControllerAxis::RightTrigger => Axes { rt: v, ..a },
    }
}

/// Position of the rules for `app` in `p`: its own, else the common ones.
fn rules_index(p: &Profile, app: &String) -> (r: Option<usize>)
    ensures
        r == active_rules_for(Some(*p), app@),
        r matches Some(i) ==> i < p.rules@.len(),
{
    proof {
        crate::profile::lemma_index_of_name_from_range(p.rules@, app@, 0);
        crate::profile::lemma_index_of_name_from_range(p.rules@, common_key(), 0);
    }
    match find_name(&p.rules, app) {
        Some(i) => Some(i),
        None => {
            let common: String = "common".to_owned();
            proof {
                reveal_strlit("common");
            }
            find_name(&p.rules, &common)
        },
    }
}

/// The sides of a controller state after a reset of the stick states.
pub open spec fn sides_idle(a: ControllerState, b: ControllerState) -> bool {
    &&& b.mapping == a.mapping
    &&& b.pressed == a.pressed
    &&& b.rumble == a.rumble
    &&& b.axes == a.axes
    &&& b.left == SideState::Idle
    &&& b.right == SideState::Idle
}

impl Gamacros {
    /// An engine with no profile, no controller and no active application.
    pub fn new() -> (r: Gamacros)
        ensures
            r.wf(),
            r.workspace is None,
            r.active_app@ == Seq::<char>::empty(),
            r.controllers@.len() == 0,
            r.button_repeats@.len() == 0,
    {
        Gamacros {
            workspace: None,
            active_app: String::new(),
            controllers: Vec::new(),
            button_repeats: Vec::new(),
            active_rules: None,
            compiled_stick_rules: None,
        }
    }

    /// Whether the controller `id` is connected.
    pub fn is_known(&self, id: ControllerId) -> (r: bool)
        ensures
            r == (controller_index(self.controllers@, id) != -1),
    {
        find_controller(&self.controllers, id).is_some()
    }

    /// Recompute the derived rules for the active application.
    fn recompile(&mut self)
        ensures
            final(self).active_rules == active_rules_for(final(self).workspace, final(self).active_app@),
            final(self).compiled_stick_rules == compiled_for(final(self).workspace, final(self).active_app@),
            final(self).workspace == old(self).workspace,
            final(self).active_app == old(self).active_app,
            final(self).controllers == old(self).controllers,
            final(self).button_repeats == old(self).button_repeats,
    {
        let (ar, cr) = match &self.workspace {
            None => (None, None),
            Some(ws) => match rules_index(ws, &self.active_app) {
                None => (None, None),
                Some(i) => (Some(i), Some(CompiledStickRules::from_rules(&ws.rules[i].1.sticks))),
            },
        };
        self.active_rules = ar;
        self.compiled_stick_rules = cr;
    }

    /// Drop the profile.
    pub fn remove_workspace(&mut self)
        requires
            old(self).wf(),
        ensures
            final(self).wf(),
            final(self).workspace is None,
            final(self).active_rules is None,
            final(self).compiled_stick_rules is None,
            final(self).active_app == old(self).active_app,
            final(self).controllers == old(self).controllers,
            final(self).button_repeats == old(self).button_repeats,
    {
        self.workspace = None;
        self.active_rules = None;
        self.compiled_stick_rules = None;
    }

    /// Replace the profile, and rebuild the stick rules of the active application.
    pub fn set_workspace(&mut self, workspace: Profile)
        requires
            old(self).wf(),
            workspace.wf(),
        ensures
            final(self).wf(),
            final(self).workspace == Some(workspace),
            final(self).active_app == old(self).active_app,
            final(self).controllers == old(self).controllers,
            final(self).button_repeats == old(self).button_repeats,
    {
        self.workspace = Some(workspace);
        self.recompile();
    }

    /// Connect a controller: its remapping comes from the profile's settings for its vendor
    /// and product, no button is held, axes are neutral and sticks idle. A controller that is
    /// already known starts over.
    pub fn add_controller(&mut self, info: ControllerInfo)
        requires
            old(self).wf(),
        ensures
            final(self).wf(),
            final(self).workspace == old(self).workspace,
            final(self).active_app == old(self).active_app,
            final(self).button_repeats == old(self).button_repeats,
            ({
                let old_i = controller_index(old(self).controllers@, info.id);
                let ci = if old_i == -1 {
                    old(self).controllers@.len() as int
                } else {
                    old_i
                };
                let st = final(self).controllers@[ci].1;
                &&& final(self).controllers@.len() == if old_i == -1 {
                    (old(self).controllers@.len() + 1) as int
                } else {
                    old(self).controllers@.len() as int
                }
                &&& controller_index(final(self).controllers@, info.id) == ci
                &&& final(self).controllers@[ci].0 == info.id
                &&& st.mapping.mapping@ == settings_for(old(self).workspace, info.vendor_id, info.product_id)
                &&& st.pressed.bits == 0
                &&& st.rumble == info.supports_rumble
                &&& st.axes == (Axes { lx: 0, ly: 0, rx: 0, ry: 0, lt: 0, rt: 0 })
                &&& st.left == SideState::Idle
                &&& st.right == SideState::Idle
                &&& forall|j: int|
                    0 <= j < old(self).controllers@.len() && j != ci ==> final(self).controllers@[j]
                        == #[trigger] old(self).controllers@[j]
            }),
    {
        let settings = match &self.workspace {
            Some(ws) => match find_device(&ws.controllers, info.vendor_id, info.product_id) {
                Some(i) => ws.controllers[i].1.duplicate(),
                None => ControllerSettings::new(Vec::new()),
            },
            None => ControllerSettings::new(Vec::new()),
        };
        let state = ControllerState {
            mapping: settings,
            pressed: Bitmask::empty(),
            rumble: info.supports_rumble,
            axes: Axes { lx: 0, ly: 0, rx: 0, ry: 0, lt: 0, rt: 0 },
            left: SideState::Idle,
            right: SideState::Idle,
        };
        proof {
            lemma_controller_index_from(self.controllers@, info.id, 0);
            assert(axes_wf(state.axes));
        }
        let ghost o = self.controllers@;
        match find_controller(&self.controllers, info.id) {
            Some(i) => {
                self.controllers[i] = (info.id, state);
                proof {
                    let n = self.controllers@;
                    assert(n =~= o.update(i as int, (info.id, state)));
                    lemma_controller_index_from(n, info.id, 0);
                    assert forall|j: int| 0 <= j < i implies #[trigger] n[j].0 != info.id by {
                        assert(o[j].0 != o[i as int].0);
                    }
                    lemma_controller_index_prefix(n, info.id, i as int);
                }
            },
            None => {
                self.controllers.push((info.id, state));
                proof {
                    let n = self.controllers@;
                    assert forall|j: int| 0 <= j < o.len() implies #[trigger] n[j].0 != info.id by {
                        assert(n[j] == o[j]);
                    }
                    lemma_controller_index_prefix(n, info.id, o.len() as int);
                }
            },
        }
        proof {
            let n = self.controllers@;
            assert forall|p: int, q: int|
                0 <= p < n.len() && 0 <= q < n.len() && p != q implies #[trigger] n[p].0
                != #[trigger] n[q].0 by {
                if p < o.len() && q < o.len() {
                    if n[p].0 == info.id || n[q].0 == info.id {
                    } else {
                        assert(n[p] == o[p]);
                        assert(n[q] == o[q]);
                    }
                }
            }
            assert forall|j: int| 0 <= j < n.len() implies controller_state_wf(#[trigger] n[j].1) by {
                if j < o.len() && n[j].0 != info.id {
                    assert(n[j] == o[j]);
                }
            }
        }
    }
}

/// The remapping that a controller of the given vendor and product gets from the profile.
pub open spec fn settings_for(w: Option<Profile>, vendor_id: u16, product_id: u16) -> Seq<(Button, Button)> {
    match w {
        None => Seq::empty(),
        Some(p) => {
            let i = index_of_key(p.controllers@, (vendor_id, product_id));
            if i == -1 {
                Seq::empty()
            } else {
                p.controllers@[i].1.mapping@
            }
        },
    }
}

proof fn lemma_controller_index_prefix(c: Seq<(ControllerId, ControllerState)>, id: ControllerId, i: int)
    requires
        0 <= i < c.len(),
        c[i].0 == id,
        forall|j: int| 0 <= j < i ==> #[trigger] c[j].0 != id,
    ensures
        controller_index(c, id) == i,
{
    lemma_controller_index_walk(c, id, 0, i);
}

proof fn lemma_controller_index_walk(c: Seq<(ControllerId, ControllerState)>, id: ControllerId, k: int, i: int)
    requires
        0 <= k <= i < c.len(),
        c[i].0 == id,
        forall|j: int| 0 <= j < i ==> #[trigger] c[j].0 != id,
    ensures
        controller_index_from(c, id, k) == i,
    decreases i - k,
{
    if k < i {
        lemma_controller_index_walk(c, id, k + 1, i);
    }
}


/// The repeats of `t` that belong to a controller other than `id`, in order.
pub open spec fn tasks_without(t: Seq<ButtonRepeatTask>, id: ControllerId) -> Seq<ButtonRepeatTask>
    decreases t.len(),
{
    if t.len() == 0 {
        t
    } else {
        let r = tasks_without(t.drop_last(), id);
        if t.last().id == id {
            r
        } else {
            r.push(t.last())
        }
    }
}

proof fn lemma_tasks_without_ids(t: Seq<ButtonRepeatTask>, id: ControllerId)
    ensures
        forall|k: int| 0 <= k < tasks_without(t, id).len() ==> #[trigger] tasks_without(t, id)[k].id != id,
    decreases t.len(),
{
    if t.len() > 0 {
        lemma_tasks_without_ids(t.drop_last(), id);
    }
}

fn purge_tasks(t: &Vec<ButtonRepeatTask>, id: ControllerId) -> (r: Vec<ButtonRepeatTask>)
    requires
        unique_tasks(t@),
    ensures
        r@ == tasks_without(t@, id),
        unique_tasks(r@),
{
    let mut r: Vec<ButtonRepeatTask> = Vec::new();
    let mut i: usize = 0;
    while i < t.len()
        invariant
            0 <= i <= t@.len(),
            unique_tasks(t@),
            r@ == tasks_without(t@.subrange(0, i as int), id),
            unique_tasks(r@),
            forall|a: int| 0 <= a < r@.len() ==> exists|j: int| 0 <= j < i && #[trigger] r@[a] == t@[j],
        decreases t@.len() - i,
    {
        proof {
            assert(t@.subrange(0, i as int + 1).drop_last() =~= t@.subrange(0, i as int));
        }
        let task = t[i];
        if task.id != id {
            let ghost before = r@;
            r.push(task);
            proof {
                let n = r@;
                assert forall|p: int, q: int|
                    0 <= p < n.len() && 0 <= q < n.len() && p != q implies !(#[trigger] n[p].id
                    == #[trigger] n[q].id && n[p].button == n[q].button) by {
                    if p < before.len() && q < before.len() {
                        assert(n[p] == before[p]);
                        assert(n[q] == before[q]);
                    } else if p < before.len() {
                        let j = choose|j: int| 0 <= j < i && #[trigger] before[p] == t@[j];
                        assert(n[p] == t@[j]);
                        assert(n[q] == t@[i as int]);
                    } else if q < before.len() {
                        let j = choose|j: int| 0 <= j < i && #[trigger] before[q] == t@[j];
                        assert(n[q] == t@[j]);
                        assert(n[p] == t@[i as int]);
                    }
                }
                assert forall|a: int| 0 <= a < n.len() implies exists|j: int|
                    0 <= j < i + 1 && #[trigger] n[a] == t@[j] by {
                    if a < before.len() {
                        let j = choose|j: int| 0 <= j < i && #[trigger] before[a] == t@[j];
                        assert(n[a] == t@[j]);
                    } else {
                        assert(n[a] == t@[i as int]);
                    }
                }
            }
        }
        i = i + 1;
    }
    proof {
        assert(t@.subrange(0, t@.len() as int) =~= t@);
    }
    r
}

impl Gamacros {
    /// Disconnect a controller: forget its state, its stick states and its button repeats.
    pub fn remove_controller(&mut self, id: ControllerId)
        requires
            old(self).wf(),
        ensures
            final(self).wf(),
            final(self).workspace == old(self).workspace,
            final(self).active_app == old(self).active_app,
            controller_index(final(self).controllers@, id) == -1,
            ({
                let ci = controller_index(old(self).controllers@, id);
                if ci == -1 {
                    final(self).controllers@ == old(self).controllers@
                } else {
                    final(self).controllers@ == old(self).controllers@.remove(ci)
                }
            }),
            final(self).button_repeats@ == tasks_without(old(self).button_repeats@, id),
            forall|k: int| 0 <= k < final(self).button_repeats@.len() ==> #[trigger] final(self).button_repeats@[k].id != id,
    {
        let ghost o = self.controllers@;
        proof {
            lemma_controller_index_from(o, id, 0);
        }
        match find_controller(&self.controllers, id) {
            Some(i) => {
                self.controllers.remove(i);
                proof {
                    let n = self.controllers@;
                    assert forall|p: int, q: int|
                        0 <= p < n.len() && 0 <= q < n.len() && p != q implies #[trigger] n[p].0
                        != #[trigger] n[q].0 by {
                        let pp = if p < i { p } else { p + 1 };
                        let qq = if q < i { q } else { q + 1 };
                        assert(n[p] == o[pp]);
                        assert(n[q] == o[qq]);
                    }
                    assert forall|j: int| 0 <= j < n.len() implies #[trigger] n[j].0 != id by {
                        let jj = if j < i { j } else { j + 1 };
                        assert(n[j] == o[jj]);
                    }
                    assert forall|j: int| 0 <= j < n.len() implies controller_state_wf(#[trigger] n[j].1) by {
                        let jj = if j < i { j } else { j + 1 };
                        assert(n[j] == o[jj]);
                    }
                    lemma_controller_index_from(n, id, 0);
                }
            },
            None => {},
        }
        let kept = purge_tasks(&self.button_repeats, id);
        self.button_repeats = kept;
        proof {
            lemma_tasks_without_ids(old(self).button_repeats@, id);
            lemma_controller_index_from(self.controllers@, id, 0);
        }
    }

    /// Whether the controller `id` is known and supports rumble.
    pub fn supports_rumble(&self, id: ControllerId) -> (r: bool)
        ensures
            r == (controller_index(self.controllers@, id) != -1
                && self.controllers@[controller_index(self.controllers@, id)].1.rumble),
    {
        match find_controller(&self.controllers, id) {
            Some(i) => self.controllers[i].1.rumble,
            None => false,
        }
    }

    /// Set every stick side of every controller idle.
    fn reset_sticks(&mut self)
        requires
            old(self).wf(),
        ensures
            final(self).wf(),
            final(self).workspace == old(self).workspace,
            final(self).active_app == old(self).active_app,
            final(self).button_repeats == old(self).button_repeats,
            final(self).controllers@.len() == old(self).controllers@.len(),
            forall|j: int|
                0 <= j < old(self).controllers@.len() ==> #[trigger] final(self).controllers@[j].0
                    == old(self).controllers@[j].0 && sides_idle(
                    old(self).controllers@[j].1,
                    final(self).controllers@[j].1,
                ),
    {
        let mut i: usize = 0;
        while i < self.controllers.len()
            invariant
                0 <= i <= self.controllers@.len(),
                self.controllers@.len() == old(self).controllers@.len(),
                self.workspace == old(self).workspace,
                self.active_app == old(self).active_app,
                self.button_repeats == old(self).button_repeats,
                self.active_rules == old(self).active_rules,
                self.compiled_stick_rules == old(self).compiled_stick_rules,
                forall|j: int|
                    0 <= j < i ==> #[trigger] self.controllers@[j].0 == old(self).controllers@[j].0
                        && sides_idle(old(self).controllers@[j].1, self.controllers@[j].1),
                forall|j: int|
                    i <= j < self.controllers@.len() ==> #[trigger] self.controllers@[j] == old(
                        self,
                    ).controllers@[j],
                old(self).wf(),
            decreases self.controllers@.len() - i,
        {
            let ghost before = self.controllers@;
            self.controllers[i].1.left = SideState::Idle;
            self.controllers[i].1.right = SideState::Idle;
            proof {
                assert forall|j: int| 0 <= j < i implies #[trigger] self.controllers@[j] == before[j] by {}
                assert forall|j: int| i < j < self.controllers@.len() implies #[trigger] self.controllers@[j] == before[j] by {}
                assert(sides_idle(old(self).controllers@[i as int].1, self.controllers@[i as int].1));
            }
            i = i + 1;
        }
        proof {
            let n = self.controllers@;
            let o = old(self).controllers@;
            assert forall|p: int, q: int|
                0 <= p < n.len() && 0 <= q < n.len() && p != q implies #[trigger] n[p].0
                != #[trigger] n[q].0 by {
                assert(n[p].0 == o[p].0);
                assert(n[q].0 == o[q].0);
            }
            assert forall|j: int| 0 <= j < n.len() implies controller_state_wf(#[trigger] n[j].1) by {
                assert(n[j].0 == o[j].0);
                assert(controller_state_wf(o[j].1));
            }
        }
    }

    /// Switch the active application. Switching to the application that is already active
    /// changes nothing; otherwise every stick side goes idle (button repeats stay) and the
    /// stick rules are rebuilt for the new application.
    pub fn set_active_app(&mut self, app: &str)
        requires
            old(self).wf(),
        ensures
            final(self).wf(),
            final(self).workspace == old(self).workspace,
            final(self).button_repeats == old(self).button_repeats,
            final(self).active_app@ == app@,
            old(self).active_app@ == app@ ==> final(self).controllers@ == old(self).controllers@
                && final(self).active_app == old(self).active_app,
            old(self).active_app@ != app@ ==> final(self).controllers@.len() == old(
                self,
            ).controllers@.len() && forall|j: int|
                0 <= j < old(self).controllers@.len() ==> #[trigger] final(self).controllers@[j].0
                    == old(self).controllers@[j].0 && sides_idle(
                    old(self).controllers@[j].1,
                    final(self).controllers@[j].1,
                ),
    {
        let a: String = app.to_owned();
        if self.active_app == a {
            return ;
        }
        self.reset_sticks();
        self.active_app = a;
        self.recompile();
    }

    /// The active application's identifier.
    pub fn get_active_app(&self) -> (r: &str)
        ensures
            r@ == self.active_app@,
    {
        self.active_app.as_str()
    }

    /// The stick modes of the active application.
    pub fn get_compiled_stick_rules(&self) -> (r: Option<CompiledStickRules>)
        ensures
            r == self.compiled_stick_rules,
    {
        self.compiled_stick_rules
    }

    /// Record a new value of an axis of a known controller; values are in thousandths of full
    /// deflection.
    pub fn on_axis_motion(&mut self, id: ControllerId, axis: ControllerAxis, value: i32)
        requires
            old(self).wf(),
            -1000 <= value <= 1000,
        ensures
            final(self).wf(),
            final(self).workspace == old(self).workspace,
            final(self).active_app == old(self).active_app,
            final(self).button_repeats == old(self).button_repeats,
            ({
                let ci = controller_index(old(self).controllers@, id);
                if ci == -1 {
                    final(self).controllers@ == old(self).controllers@
                } else {
                    let o = old(self).controllers@[ci].1;
                    let n = final(self).controllers@[ci].1;
                    &&& final(self).controllers@.len() == old(self).controllers@.len()
                    &&& final(self).controllers@[ci].0 == id
                    &&& n.axes == axes_with(o.axes, axis, value)
                    &&& n.mapping == o.mapping && n.pressed == o.pressed && n.rumble == o.rumble
                    &&& n.left == o.left && n.right == o.right
                    &&& forall|j: int|
                        0 <= j < old(self).controllers@.len() && j != ci ==> final(self).controllers@[j]
                            == #[trigger] old(self).controllers@[j]
                }
            }),
    {
        proof {
            lemma_controller_index_from(self.controllers@, id, 0);
        }
        let ghost o = self.controllers@;
        match find_controller(&self.controllers, id) {
            Some(i) => {
                let mut axes = self.controllers[i].1.axes;
                match axis {
                    ControllerAxis::LeftX => axes.lx = value,
                    ControllerAxis::LeftY => axes.ly = value,
                    ControllerAxis::RightX => axes.rx = value,
                    ControllerAxis::RightY => axes.ry = value,
                    ControllerAxis::LeftTrigger => axes.lt = value,
                    ControllerAxis::RightTrigger => axes.rt = value,
                }
                self.controllers[i].1.axes = axes;
                proof {
                    let n = self.controllers@;
                    assert forall|p: int, q: int|
                        0 <= p < n.len() && 0 <= q < n.len() && p != q implies #[trigger] n[p].0
                        != #[trigger] n[q].0 by {
                        assert(n[p].0 == o[p].0);
                        assert(n[q].0 == o[q].0);
                    }
                    assert forall|j: int| 0 <= j < n.len() implies controller_state_wf(#[trigger] n[j].1) by {
                        assert(controller_state_wf(o[j].1));
                    }
                }
            },
            None => {},
        }
    }

    /// Release the stick states of a controller.
    pub fn on_controller_disconnected(&mut self, id: ControllerId)
        requires
            old(self).wf(),
        ensures
            final(self).wf(),
            final(self).workspace == old(self).workspace,
            final(self).active_app == old(self).active_app,
            final(self).button_repeats == old(self).button_repeats,
            ({
                let ci = controller_index(old(self).controllers@, id);
                if ci == -1 {
                    final(self).controllers@ == old(self).controllers@
                } else {
                    &&& final(self).controllers@.len() == old(self).controllers@.len()
                    &&& final(self).controllers@[ci].0 == id
                    &&& sides_idle(old(self).controllers@[ci].1, final(self).controllers@[ci].1)
                    &&& forall|j: int|
                        0 <= j < old(self).controllers@.len() && j != ci ==> final(self).controllers@[j]
                            == #[trigger] old(self).controllers@[j]
                }
            }),
    {
        proof {
            lemma_controller_index_from(self.controllers@, id, 0);
        }
        let ghost o = self.controllers@;
        match find_controller(&self.controllers, id) {
            Some(i) => {
                self.controllers[i].1.left = SideState::Idle;
                self.controllers[i].1.right = SideState::Idle;
                proof {
                    let n = self.controllers@;
                    assert forall|p: int, q: int|
                        0 <= p < n.len() && 0 <= q < n.len() && p != q implies #[trigger] n[p].0
                        != #[trigger] n[q].0 by {
                        assert(n[p].0 == o[p].0);
                        assert(n[q].0 == o[q].0);
                    }
                    assert forall|j: int| 0 <= j < n.len() implies controller_state_wf(#[trigger] n[j].1) by {
                        assert(controller_state_wf(o[j].1));
                    }
                }
            },
            None => {},
        }
    }
}


/// The stick modes that a tick applies: those of the active application, unless there is
/// none or the application is blacklisted.
pub open spec fn tick_modes(g: Gamacros) -> (Option<StickMode>, Option<StickMode>) {
    match (g.workspace, g.active_rules, g.compiled_stick_rules) {
        (Some(p), Some(i), Some(cr)) => if blacklisted(p, g.active_app@) {
            (None, None)
        } else {
            let sticks = p.rules@[i as int].1.sticks@;
            (
                match cr.left {
                    Some(k) => Some(sticks[k as int].1),
                    None => None,
                },
                match cr.right {
                    Some(k) => Some(sticks[k as int].1),
                    None => None,
                },
            )
        },
        _ => (None, None),
    }
}

/// A controller's sides after a tick, and what the tick emits: left side, then right side.
pub open spec fn controller_tick(
    st: ControllerState,
    l: Option<StickMode>,
    r: Option<StickMode>,
    now: u64,
) -> (SideState, SideState, Seq<ActionView>) {
    let a = crate::stick::side_step(st.left, l, st.axes.lx as int, st.axes.ly as int, now);
    let b = crate::stick::side_step(st.right, r, st.axes.rx as int, st.axes.ry as int, now);
    (a.0, b.0, a.1 + b.1)
}

/// What a tick emits over the controllers, in order.
pub open spec fn tick_emits(
    cs: Seq<(ControllerId, ControllerState)>,
    l: Option<StickMode>,
    r: Option<StickMode>,
    now: u64,
) -> Seq<ActionView>
    decreases cs.len(),
{
    if cs.len() == 0 {
        seq![]
    } else {
        tick_emits(cs.drop_last(), l, r, now) + controller_tick(cs.last().1, l, r, now).2
    }
}

/// A controller's sides after draining due repeats.
pub open spec fn controller_due(st: ControllerState, now: u64) -> (SideState, SideState) {
    (crate::stick::due_step(st.left, now), crate::stick::due_step(st.right, now))
}

/// A due stick repeat: its due time, the controller's position, and whether it is the right
/// side.
pub type DueEntry = (u64, usize, bool);

/// The state of a side of the controller at position `j`.
pub open spec fn side_of(cs: Seq<(ControllerId, ControllerState)>, j: int, right: bool) -> SideState {
    if right {
        cs[j].1.right
    } else {
        cs[j].1.left
    }
}

/// Whether `e` names a side whose repeat is due at `now`, with its due time.
pub open spec fn is_due(cs: Seq<(ControllerId, ControllerState)>, now: u64, e: DueEntry) -> bool {
    let s = side_of(cs, e.1 as int, e.2);
    &&& (e.1 as int) < cs.len()
    &&& crate::stick::has_repeat(s)
    &&& crate::stick::fire_time(s) <= now
    &&& e.0 == crate::stick::fire_time(s)
}

/// The firing order of due repeats: earlier due time first, then earlier controller, then
/// left before right.
pub open spec fn fires_before(a: DueEntry, b: DueEntry) -> bool {
    a.0 < b.0 || (a.0 == b.0 && (a.1 < b.1 || (a.1 == b.1 && !a.2 && b.2)))
}

/// Entries in firing order, each side at most once.
pub open spec fn in_firing_order(v: Seq<DueEntry>) -> bool {
    forall|a: int, b: int|
        0 <= a < b < v.len() ==> fires_before(#[trigger] v[a], #[trigger] v[b]) && !(v[a].1 == v[b].1
            && v[a].2 == v[b].2)
}

/// Every repeat due at `now`, each once, in firing order.
pub open spec fn due_order(v: Seq<DueEntry>, cs: Seq<(ControllerId, ControllerState)>, now: u64) -> bool {
    &&& in_firing_order(v)
    &&& forall|e: DueEntry| v.contains(e) <==> #[trigger] is_due(cs, now, e)
}

/// The taps of the due repeats, in the given order.
pub open spec fn due_taps(cs: Seq<(ControllerId, ControllerState)>, v: Seq<DueEntry>) -> Seq<ActionView> {
    v.map_values(|e: DueEntry| crate::stick::repeat_tap(side_of(cs, e.1 as int, e.2)))
}

fn fires_before_exec(a: DueEntry, b: DueEntry) -> (r: bool)
    ensures
        r == fires_before(a, b),
{
    a.0 < b.0 || (a.0 == b.0 && (a.1 < b.1 || (a.1 == b.1 && !a.2 && b.2)))
}

/// Insert `e` into `v` at its place in firing order.
fn insert_in_order(v: &mut Vec<DueEntry>, e: DueEntry)
    requires
        in_firing_order(old(v)@),
        forall|k: int| 0 <= k < old(v)@.len() ==> !(#[trigger] old(v)@[k].1 == e.1 && old(v)@[k].2 == e.2),
    ensures
        in_firing_order(final(v)@),
        forall|x: DueEntry| #[trigger] final(v)@.contains(x) <==> (old(v)@.contains(x) || x == e),
{
    let mut p: usize = 0;
    while p < v.len() && !fires_before_exec(e, v[p])
        invariant
            0 <= p <= v@.len(),
            v@ == old(v)@,
            in_firing_order(old(v)@),
            forall|k: int| 0 <= k < old(v)@.len() ==> !(#[trigger] old(v)@[k].1 == e.1 && old(v)@[k].2 == e.2),
            forall|k: int| 0 <= k < p ==> fires_before(#[trigger] v@[k], e),
        decreases v@.len() - p,
    {
        proof {
            assert(!(old(v)@[p as int].1 == e.1 && old(v)@[p as int].2 == e.2));
        }
        p = p + 1;
    }
    let ghost o = v@;
    proof {
        assert forall|k: int| p <= k < o.len() implies fires_before(e, #[trigger] o[k]) by {
            if k > p {
                assert(fires_before(o[p as int], o[k]));
            }
        }
    }
    v.insert(p, e);
    proof {
        let n = v@;
        assert(n =~= o.insert(p as int, e));
        assert forall|a: int, b: int| 0 <= a < b < n.len() implies fires_before(#[trigger] n[a], #[trigger] n[b])
            && !(n[a].1 == n[b].1 && n[a].2 == n[b].2) by {
            if b < p {
                assert(n[a] == o[a] && n[b] == o[b]);
            } else if b == p {
                assert(n[b] == e);
                assert(n[a] == o[a]);
            } else if a < p {
                assert(n[a] == o[a] && n[b] == o[b - 1]);
                assert(fires_before(o[a], e));
            } else if a == p {
                assert(n[a] == e && n[b] == o[b - 1]);
            } else {
                assert(n[a] == o[a - 1] && n[b] == o[b - 1]);
            }
        }
        assert forall|x: DueEntry| #[trigger] n.contains(x) <==> (o.contains(x) || x == e) by {
            if n.contains(x) {
                let k = choose|k: int| 0 <= k < n.len() && n[k] == x;
                if k < p {
                    assert(o[k] == x);
                } else if k > p {
                    assert(o[k - 1] == x);
                }
            }
            if o.contains(x) {
                let k = choose|k: int| 0 <= k < o.len() && o[k] == x;
                if k < p {
                    assert(n[k] == x);
                } else {
                    assert(n[k + 1] == x);
                }
            }
            if x == e {
                assert(n[p as int] == x);
            }
        }
    }
}

/// The due entry of a side, if its repeat is due at `now`.
fn due_entry(s: SideState, now: u64, j: usize, right: bool) -> (r: Option<DueEntry>)
    ensures
        r == (if crate::stick::has_repeat(s) && crate::stick::fire_time(s) <= now {
            Some((crate::stick::fire_time(s), j, right))
        } else {
            None
        }),
{
    match s {
        SideState::Arrow { next_fire, .. } => if next_fire <= now {
            Some((next_fire, j, right))
        } else {
            None
        },
        SideState::Stepper { next_fire, .. } => if next_fire <= now {
            Some((next_fire, j, right))
        } else {
            None
        },
        _ => None,
    }
}

/// Every repeat due at `now`, in firing order.
fn collect_due(cs: &Vec<(ControllerId, ControllerState)>, now: u64) -> (r: Vec<DueEntry>)
    ensures
        due_order(r@, cs@, now),
{
    let mut v: Vec<DueEntry> = Vec::new();
    let mut j: usize = 0;
    while j < cs.len()
        invariant
            0 <= j <= cs@.len(),
            in_firing_order(v@),
            forall|e: DueEntry| #[trigger] v@.contains(e) <==> (is_due(cs@, now, e) && (e.1 as int) < j),
        decreases cs@.len() - j,
    {
        let ghost v0 = v@;
        match due_entry(cs[j].1.left, now, j, false) {
            Some(e) => {
                proof {
                    assert forall|k: int| 0 <= k < v@.len() implies !(#[trigger] v@[k].1 == e.1 && v@[k].2 == e.2) by {
                        assert(v@.contains(v@[k]));
                    }
                }
                insert_in_order(&mut v, e);
            },
            None => {},
        }
        let ghost v1 = v@;
        match due_entry(cs[j].1.right, now, j, true) {
            Some(e) => {
                proof {
                    assert forall|k: int| 0 <= k < v@.len() implies !(#[trigger] v@[k].1 == e.1 && v@[k].2 == e.2) by {
                        assert(v@.contains(v@[k]));
                        if v0.contains(v@[k]) {
                        }
                    }
                }
                insert_in_order(&mut v, e);
            },
            None => {},
        }
        proof {
            assert forall|e: DueEntry| #[trigger] v@.contains(e) <==> (is_due(cs@, now, e) && (e.1 as int) < j + 1) by {
                if (e.1 as int) == j as int && is_due(cs@, now, e) {
                    if e.2 {
                        assert(side_of(cs@, j as int, true) == cs@[j as int].1.right);
                    } else {
                        assert(side_of(cs@, j as int, false) == cs@[j as int].1.left);
                        assert(v1.contains(e));
                    }
                }
                if v@.contains(e) && !v0.contains(e) {
                    if v1.contains(e) {
                        assert(side_of(cs@, j as int, false) == cs@[j as int].1.left);
                    } else {
                        assert(side_of(cs@, j as int, true) == cs@[j as int].1.right);
                    }
                }
            }
        }
        j = j + 1;
    }
    v
}

/// Emit the tap of each due repeat in `order`.
fn emit_due(cs: &Vec<(ControllerId, ControllerState)>, order: &Vec<DueEntry>, now: u64, out: &mut Vec<Action>)
    requires
        due_order(order@, cs@, now),
    ensures
        views(final(out)@) == views(old(out)@) + due_taps(cs@, order@),
{
    let ghost out0 = views(out@);
    let mut k: usize = 0;
    while k < order.len()
        invariant
            0 <= k <= order@.len(),
            due_order(order@, cs@, now),
            views(out@) == out0 + due_taps(cs@, order@.subrange(0, k as int)),
        decreases order@.len() - k,
    {
        let e = order[k];
        proof {
            assert(order@.contains(e));
            assert(is_due(cs@, now, e));
        }
        let s = if e.2 {
            cs[e.1].1.right
        } else {
            cs[e.1].1.left
        };
        emit(out, crate::stick::repeat_action(s));
        proof {
            assert(due_taps(cs@, order@.subrange(0, k as int + 1)) =~= due_taps(
                cs@,
                order@.subrange(0, k as int),
            ).push(crate::stick::repeat_tap(s)));
        }
        k = k + 1;
    }
    proof {
        assert(order@.subrange(0, order@.len() as int) =~= order@);
    }
}

/// A controller state whose sides are `l` and `r` and whose other fields are those of `a`.
pub open spec fn sides_set(a: ControllerState, b: ControllerState, l: SideState, r: SideState) -> bool {
    &&& b.mapping == a.mapping
    &&& b.pressed == a.pressed
    &&& b.rumble == a.rumble
    &&& b.axes == a.axes
    &&& b.left == l
    &&& b.right == r
}

/// A button repeat after draining at `now`: fired and rescheduled if due.
pub open spec fn task_after(t: ButtonRepeatTask, now: u64) -> ButtonRepeatTask {
    if now >= t.next_fire {
        ButtonRepeatTask { delay_done: true, next_fire: sat_add(now, t.interval_ms), ..t }
    } else {
        t
    }
}

/// What draining the button repeats at `now` emits, in order.
pub open spec fn task_emits(t: Seq<ButtonRepeatTask>, now: u64) -> Seq<ActionView>
    decreases t.len(),
{
    if t.len() == 0 {
        seq![]
    } else {
        task_emits(t.drop_last(), now) + if now >= t.last().next_fire {
            seq![ActionView::KeyTap(t.last().key)]
        } else {
            seq![]
        }
    }
}

/// Whether some side of some controller holds a scheduled repeat.
pub open spec fn any_stick_repeat(cs: Seq<(ControllerId, ControllerState)>) -> bool {
    exists|j: int|
        0 <= j < cs.len() && (crate::stick::has_repeat(#[trigger] cs[j].1.left)
            || crate::stick::has_repeat(cs[j].1.right))
}

/// Whether some axis of `a` is at least `t` away from neutral.
pub open spec fn axes_active(a: Axes, t: int) -> bool {
    crate::stick::abs(a.lx as int) >= t || crate::stick::abs(a.ly as int) >= t
        || crate::stick::abs(a.rx as int) >= t || crate::stick::abs(a.ry as int) >= t
        || crate::stick::abs(a.lt as int) >= t || crate::stick::abs(a.rt as int) >= t
}

/// Whether some axis of some controller is at least `t` away from neutral.
pub open spec fn any_axis_active(cs: Seq<(ControllerId, ControllerState)>, t: int) -> bool {
    exists|j: int| 0 <= j < cs.len() && axes_active(#[trigger] cs[j].1.axes, t)
}

/// Axis activity, in thousandths, from which ticks are wanted.
pub const AXIS_ACTIVITY_THRESHOLD: i32 = 50;

fn abs32(v: i32) -> (r: i32)
    requires
        -1000 <= v <= 1000,
    ensures
        r == crate::stick::abs(v as int),
{
    if v < 0 {
        -v
    } else {
        v
    }
}

impl Gamacros {
    /// One tick of every controller's sticks at time `now`.
    pub fn on_tick_with(&mut self, now: u64, out: &mut Vec<Action>)
        requires
            old(self).wf(),
        ensures
            final(self).wf(),
            final(self).workspace == old(self).workspace,
            final(self).active_app == old(self).active_app,
            final(self).button_repeats == old(self).button_repeats,
            final(self).controllers@.len() == old(self).controllers@.len(),
            forall|j: int|
                0 <= j < old(self).controllers@.len() ==> {
                    let c = controller_tick(
                        old(self).controllers@[j].1,
                        tick_modes(*old(self)).0,
                        tick_modes(*old(self)).1,
                        now,
                    );
                    &&& final(self).controllers@[j].0 == old(self).controllers@[j].0
                    &&& sides_set(old(self).controllers@[j].1, #[trigger] final(self).controllers@[j].1, c.0, c.1)
                },
            views(final(out)@) == views(old(out)@) + tick_emits(
                old(self).controllers@,
                tick_modes(*old(self)).0,
                tick_modes(*old(self)).1,
                now,
            ),
    {
        let mut lm: Option<&StickMode> = None;
        let mut rm: Option<&StickMode> = None;
        match (&self.workspace, self.active_rules, self.compiled_stick_rules) {
            (Some(ws), Some(i), Some(cr)) => {
                if !contains_name(&ws.blacklist, &self.active_app) {
                    proof {
                        crate::profile::lemma_index_of_name_from_range(ws.rules@, self.active_app@, 0);
                        crate::profile::lemma_index_of_name_from_range(ws.rules@, common_key(), 0);
                    }
                    let sticks = &ws.rules[i].1.sticks;
                    proof {
                        crate::stick::lemma_side_index_range(sticks@, crate::profile::StickSide::Left);
                        crate::stick::lemma_side_index_range(sticks@, crate::profile::StickSide::Right);
                    }
                    match cr.left {
                        Some(k) => {
                            lm = Some(&sticks[k].1);
                        },
                        None => {},
                    }
                    match cr.right {
                        Some(k) => {
                            rm = Some(&sticks[k].1);
                        },
                        None => {},
                    }
                }
            },
            _ => {},
        }
        proof {
            assert(crate::stick::owned_mode(lm) == tick_modes(*old(self)).0);
            assert(crate::stick::owned_mode(rm) == tick_modes(*old(self)).1);
        }
        let ghost l = tick_modes(*old(self)).0;
        let ghost r = tick_modes(*old(self)).1;
        let ghost o = self.controllers@;
        let ghost out0 = views(out@);
        let mut i: usize = 0;
        while i < self.controllers.len()
            invariant
                0 <= i <= self.controllers@.len(),
                self.controllers@.len() == o.len(),
                o == old(self).controllers@,
                old(self).wf(),
                self.workspace == old(self).workspace,
                self.active_app == old(self).active_app,
                self.button_repeats == old(self).button_repeats,
                self.active_rules == old(self).active_rules,
                self.compiled_stick_rules == old(self).compiled_stick_rules,
                crate::stick::owned_mode(lm) == l,
                crate::stick::owned_mode(rm) == r,
                lm matches Some(m) ==> crate::profile::stick_mode_wf(*m),
                rm matches Some(m) ==> crate::profile::stick_mode_wf(*m),
                forall|j: int|
                    0 <= j < i ==> {
                        let c = controller_tick(o[j].1, l, r, now);
                        &&& #[trigger] self.controllers@[j].0 == o[j].0
                        &&& sides_set(o[j].1, self.controllers@[j].1, c.0, c.1)
                        &&& controller_state_wf(self.controllers@[j].1)
                    },
                forall|j: int| i <= j < o.len() ==> #[trigger] self.controllers@[j] == o[j],
                views(out@) == out0 + tick_emits(o.subrange(0, i as int), l, r, now),
            decreases o.len() - i,
        {
            proof {
                assert(controller_state_wf(o[i as int].1));
                assert(o.subrange(0, i as int + 1).drop_last() =~= o.subrange(0, i as int));
            }
            let axes = self.controllers[i].1.axes;
            let ls = self.controllers[i].1.left;
            let rs = self.controllers[i].1.right;
            let ghost mid = views(out@);
            let nl = crate::stick::side_tick(ls, lm, axes.lx, axes.ly, now, out);
            let nr = crate::stick::side_tick(rs, rm, axes.rx, axes.ry, now, out);
            let ghost before = self.controllers@;
            self.controllers[i].1.left = nl;
            self.controllers[i].1.right = nr;
            proof {
                assert forall|j: int| 0 <= j < self.controllers@.len() && j != i implies #[trigger] self.controllers@[j] == before[j] by {}
                assert(before[i as int] == o[i as int]);
                assert(self.controllers@[i as int].0 == o[i as int].0);
                assert(ls == o[i as int].1.left);
                assert(axes == o[i as int].1.axes);
                assert(nl == controller_tick(o[i as int].1, l, r, now).0);
                assert(nr == controller_tick(o[i as int].1, l, r, now).1);
                assert(sides_set(o[i as int].1, self.controllers@[i as int].1, nl, nr));
                assert(controller_state_wf(self.controllers@[i as int].1));
                assert forall|j: int| 0 <= j < i + 1 implies {
                    let c = controller_tick(o[j].1, l, r, now);
                    &&& #[trigger] self.controllers@[j].0 == o[j].0
                    &&& sides_set(o[j].1, self.controllers@[j].1, c.0, c.1)
                    &&& controller_state_wf(self.controllers@[j].1)
                } by {
                    if j < i {
                        assert(self.controllers@[j] == before[j]);
                    }
                }
                vstd::seq_lib::lemma_concat_associative::<ActionView>(
                    out0 + tick_emits(o.subrange(0, i as int), l, r, now),
                    crate::stick::side_step(ls, l, axes.lx as int, axes.ly as int, now).1,
                    crate::stick::side_step(rs, r, axes.rx as int, axes.ry as int, now).1,
                );
                vstd::seq_lib::lemma_concat_associative::<ActionView>(
                    out0,
                    tick_emits(o.subrange(0, i as int), l, r, now),
                    controller_tick(o[i as int].1, l, r, now).2,
                );
            }
            i = i + 1;
        }
        proof {
            assert(o.subrange(0, o.len() as int) =~= o);
            let n = self.controllers@;
            assert forall|j: int| 0 <= j < old(self).controllers@.len() implies {
                let c = controller_tick(
                    old(self).controllers@[j].1,
                    tick_modes(*old(self)).0,
                    tick_modes(*old(self)).1,
                    now,
                );
                &&& self.controllers@[j].0 == old(self).controllers@[j].0
                &&& sides_set(old(self).controllers@[j].1, #[trigger] self.controllers@[j].1, c.0, c.1)
            } by {
                assert(self.controllers@[j].0 == o[j].0);
            }
            assert forall|p: int, q: int|
                0 <= p < n.len() && 0 <= q < n.len() && p != q implies #[trigger] n[p].0
                != #[trigger] n[q].0 by {
                assert(n[p].0 == o[p].0);
                assert(n[q].0 == o[q].0);
            }
            assert forall|j: int| 0 <= j < n.len() implies controller_state_wf(#[trigger] n[j].1) by {
                assert(n[j].0 == o[j].0);
            }
        }
    }
}


impl Gamacros {
    /// Fire every stick repeat that is due at `now`: the taps come in order of due time (then
    /// of controller position, left side before right), and each fired repeat is scheduled one
    /// interval after `now`.
    pub fn process_due_repeats(&mut self, now: u64, out: &mut Vec<Action>)
        requires
            old(self).wf(),
        ensures
            final(self).wf(),
            final(self).workspace == old(self).workspace,
            final(self).active_app == old(self).active_app,
            final(self).button_repeats == old(self).button_repeats,
            final(self).controllers@.len() == old(self).controllers@.len(),
            forall|j: int|
                0 <= j < old(self).controllers@.len() ==> {
                    let c = controller_due(old(self).controllers@[j].1, now);
                    &&& final(self).controllers@[j].0 == old(self).controllers@[j].0
                    &&& sides_set(old(self).controllers@[j].1, #[trigger] final(self).controllers@[j].1, c.0, c.1)
                },
            exists|order: Seq<DueEntry>|
                due_order(order, old(self).controllers@, now) && views(final(out)@) == views(old(out)@)
                    + #[trigger] due_taps(old(self).controllers@, order),
    {
        let order = collect_due(&self.controllers, now);
        emit_due(&self.controllers, &order, now, out);
        proof {
            assert(due_order(order@, old(self).controllers@, now) && views(out@) == views(old(out)@)
                + due_taps(old(self).controllers@, order@));
        }
        let ghost o = self.controllers@;
        let mut i: usize = 0;
        while i < self.controllers.len()
            invariant
                0 <= i <= self.controllers@.len(),
                self.controllers@.len() == o.len(),
                o == old(self).controllers@,
                old(self).wf(),
                self.workspace == old(self).workspace,
                self.active_app == old(self).active_app,
                self.button_repeats == old(self).button_repeats,
                self.active_rules == old(self).active_rules,
                self.compiled_stick_rules == old(self).compiled_stick_rules,
                forall|j: int|
                    0 <= j < i ==> {
                        let c = controller_due(o[j].1, now);
                        &&& #[trigger] self.controllers@[j].0 == o[j].0
                        &&& sides_set(o[j].1, self.controllers@[j].1, c.0, c.1)
                        &&& controller_state_wf(self.controllers@[j].1)
                    },
                forall|j: int| i <= j < o.len() ==> #[trigger] self.controllers@[j] == o[j],
            decreases o.len() - i,
        {
            proof {
                assert(controller_state_wf(o[i as int].1));
            }
            let ls = self.controllers[i].1.left;
            let rs = self.controllers[i].1.right;
            let nl = crate::stick::due_next(ls, now);
            let nr = crate::stick::due_next(rs, now);
            let ghost before = self.controllers@;
            self.controllers[i].1.left = nl;
            self.controllers[i].1.right = nr;
            proof {
                assert forall|j: int| 0 <= j < self.controllers@.len() && j != i implies #[trigger] self.controllers@[j] == before[j] by {}
                assert(before[i as int] == o[i as int]);
                assert(self.controllers@[i as int].0 == o[i as int].0);
                assert(sides_set(o[i as int].1, self.controllers@[i as int].1, nl, nr));
                assert(controller_state_wf(self.controllers@[i as int].1));
                assert forall|j: int| 0 <= j < i + 1 implies {
                    let c = controller_due(o[j].1, now);
                    &&& #[trigger] self.controllers@[j].0 == o[j].0
                    &&& sides_set(o[j].1, self.controllers@[j].1, c.0, c.1)
                    &&& controller_state_wf(self.controllers@[j].1)
                } by {
                    if j < i {
                        assert(self.controllers@[j] == before[j]);
                    }
                }
            }
            i = i + 1;
        }
        proof {
            let n = self.controllers@;
            assert forall|j: int| 0 <= j < old(self).controllers@.len() implies {
                let c = controller_due(old(self).controllers@[j].1, now);
                &&& self.controllers@[j].0 == old(self).controllers@[j].0
                &&& sides_set(old(self).controllers@[j].1, #[trigger] self.controllers@[j].1, c.0, c.1)
            } by {
                assert(self.controllers@[j].0 == o[j].0);
            }
            assert forall|p: int, q: int|
                0 <= p < n.len() && 0 <= q < n.len() && p != q implies #[trigger] n[p].0
                != #[trigger] n[q].0 by {
                assert(n[p].0 == o[p].0);
                assert(n[q].0 == o[q].0);
            }
            assert forall|j: int| 0 <= j < n.len() implies controller_state_wf(#[trigger] n[j].1) by {
                assert(n[j].0 == o[j].0);
            }
        }
    }

    /// The earliest time at which a stick repeat is due, if any is scheduled.
    pub fn next_repeat_due(&self) -> (r: Option<u64>)
        ensures
            r is None <==> !any_stick_repeat(self.controllers@),
            r matches Some(m) ==> {
                &&& forall|j: int|
                    0 <= j < self.controllers@.len() ==> (crate::stick::has_repeat(
                        #[trigger] self.controllers@[j].1.left,
                    ) ==> m <= crate::stick::fire_time(self.controllers@[j].1.left)) && (
                    crate::stick::has_repeat(self.controllers@[j].1.right) ==> m
                        <= crate::stick::fire_time(self.controllers@[j].1.right))
                &&& exists|j: int|
                    0 <= j < self.controllers@.len() && ((crate::stick::has_repeat(
                        #[trigger] self.controllers@[j].1.left,
                    ) && m == crate::stick::fire_time(self.controllers@[j].1.left)) || (
                    crate::stick::has_repeat(self.controllers@[j].1.right) && m
                        == crate::stick::fire_time(self.controllers@[j].1.right)))
            },
    {
        let c = &self.controllers;
        let mut best: Option<u64> = None;
        let mut i: usize = 0;
        while i < c.len()
            invariant
                0 <= i <= c@.len(),
                best is None <==> !(exists|j: int|
                    0 <= j < i && (crate::stick::has_repeat(#[trigger] c@[j].1.left)
                        || crate::stick::has_repeat(c@[j].1.right))),
                best matches Some(m) ==> {
                    &&& forall|j: int|
                        0 <= j < i ==> (crate::stick::has_repeat(#[trigger] c@[j].1.left) ==> m
                            <= crate::stick::fire_time(c@[j].1.left)) && (crate::stick::has_repeat(
                            c@[j].1.right,
                        ) ==> m <= crate::stick::fire_time(c@[j].1.right))
                    &&& exists|j: int|
                        0 <= j < i && ((crate::stick::has_repeat(#[trigger] c@[j].1.left) && m
                            == crate::stick::fire_time(c@[j].1.left)) || (crate::stick::has_repeat(
                            c@[j].1.right,
                        ) && m == crate::stick::fire_time(c@[j].1.right)))
                },
            decreases c@.len() - i,
        {
            let ghost prev = best;
            let l = c[i].1.left;
            let r = c[i].1.right;
            let lt = match l {
                SideState::Arrow { next_fire, .. } => Some(next_fire),
                SideState::Stepper { next_fire, .. } => Some(next_fire),
                _ => None,
            };
            let rt = match r {
                SideState::Arrow { next_fire, .. } => Some(next_fire),
                SideState::Stepper { next_fire, .. } => Some(next_fire),
                _ => None,
            };
            match lt {
                Some(t) => {
                    best = match best {
                        Some(b) => if t < b { Some(t) } else { Some(b) },
                        None => Some(t),
                    };
                },
                None => {},
            }
            match rt {
                Some(t) => {
                    best = match best {
                        Some(b) => if t < b { Some(t) } else { Some(b) },
                        None => Some(t),
                    };
                },
                None => {},
            }
            proof {
                let ii = i as int;
                if let Some(m) = best {
                    assert forall|j: int| 0 <= j < ii + 1 implies (crate::stick::has_repeat(
                        #[trigger] c@[j].1.left,
                    ) ==> m <= crate::stick::fire_time(c@[j].1.left)) && (crate::stick::has_repeat(
                        c@[j].1.right,
                    ) ==> m <= crate::stick::fire_time(c@[j].1.right)) by {}
                    if prev == best {
                        let w = choose|j: int|
                            0 <= j < ii && ((crate::stick::has_repeat(#[trigger] c@[j].1.left) && m
                                == crate::stick::fire_time(c@[j].1.left)) || (
                            crate::stick::has_repeat(c@[j].1.right) && m == crate::stick::fire_time(
                                c@[j].1.right,
                            )));
                        assert(0 <= w < ii + 1);
                    } else {
                        assert(crate::stick::has_repeat(c@[ii].1.left) || crate::stick::has_repeat(c@[ii].1.right));
                    }
                }
                if best is None {
                    assert forall|j: int| 0 <= j < ii + 1 implies !(crate::stick::has_repeat(
                        #[trigger] c@[j].1.left,
                    ) || crate::stick::has_repeat(c@[j].1.right)) by {}
                } else {
                    if prev is None {
                        assert(crate::stick::has_repeat(c@[ii].1.left) || crate::stick::has_repeat(c@[ii].1.right));
                    } else {
                        let w = choose|j: int|
                            0 <= j < ii && (crate::stick::has_repeat(#[trigger] c@[j].1.left)
                                || crate::stick::has_repeat(c@[j].1.right));
                        assert(0 <= w < ii + 1);
                    }
                }
            }
            i = i + 1;
        }
        best
    }

    /// Whether a stick repeat is scheduled.
    pub fn has_active_repeats(&self) -> (r: bool)
        ensures
            r == any_stick_repeat(self.controllers@),
    {
        self.next_repeat_due().is_some()
    }
}


impl Gamacros {
    /// Fire every button repeat that is due at `now`, in table order: tap its key, mark the
    /// initial delay as done and schedule it one interval on.
    pub fn process_button_repeats(&mut self, now: u64, out: &mut Vec<Action>)
        requires
            old(self).wf(),
        ensures
            final(self).wf(),
            final(self).workspace == old(self).workspace,
            final(self).active_app == old(self).active_app,
            final(self).controllers == old(self).controllers,
            final(self).button_repeats@ == old(self).button_repeats@.map_values(
                |t: ButtonRepeatTask| task_after(t, now),
            ),
            views(final(out)@) == views(old(out)@) + task_emits(old(self).button_repeats@, now),
    {
        let ghost o = self.button_repeats@;
        let ghost out0 = views(out@);
        let mut i: usize = 0;
        while i < self.button_repeats.len()
            invariant
                0 <= i <= self.button_repeats@.len(),
                self.button_repeats@.len() == o.len(),
                o == old(self).button_repeats@,
                old(self).wf(),
                self.workspace == old(self).workspace,
                self.active_app == old(self).active_app,
                self.controllers == old(self).controllers,
                self.active_rules == old(self).active_rules,
                self.compiled_stick_rules == old(self).compiled_stick_rules,
                forall|j: int| 0 <= j < i ==> #[trigger] self.button_repeats@[j] == task_after(o[j], now),
                forall|j: int| i <= j < o.len() ==> #[trigger] self.button_repeats@[j] == o[j],
                views(out@) == out0 + task_emits(o.subrange(0, i as int), now),
            decreases o.len() - i,
        {
            proof {
                assert(o.subrange(0, i as int + 1).drop_last() =~= o.subrange(0, i as int));
            }
            let task = self.button_repeats[i];
            if now >= task.next_fire {
                emit(out, Action::KeyTap(task.key));
                self.button_repeats[i].delay_done = true;
                self.button_repeats[i].next_fire = now.saturating_add(task.interval_ms);
            } else {
                proof {
                    assert(views(out@) =~= out0 + task_emits(o.subrange(0, i as int + 1), now));
                }
            }
            i = i + 1;
        }
        proof {
            assert(o.subrange(0, o.len() as int) =~= o);
            let n = self.button_repeats@;
            assert(n =~= o.map_values(|t: ButtonRepeatTask| task_after(t, now)));
            assert forall|p: int, q: int|
                0 <= p < n.len() && 0 <= q < n.len() && p != q implies !(#[trigger] n[p].id
                == #[trigger] n[q].id && n[p].button == n[q].button) by {
                assert(n[p] == task_after(o[p], now));
                assert(n[q] == task_after(o[q], now));
            }
        }
    }

    /// The earliest time at which a button repeat is due, if any is scheduled.
    pub fn next_button_repeat_due(&self) -> (r: Option<u64>)
        ensures
            r is None <==> self.button_repeats@.len() == 0,
            r matches Some(m) ==> (forall|j: int|
                0 <= j < self.button_repeats@.len() ==> m <= #[trigger] self.button_repeats@[j].next_fire)
                && (exists|j: int|
                0 <= j < self.button_repeats@.len() && m == #[trigger] self.button_repeats@[j].next_fire),
    {
        let t = &self.button_repeats;
        let mut best: Option<u64> = None;
        let mut i: usize = 0;
        while i < t.len()
            invariant
                0 <= i <= t@.len(),
                best is None <==> i == 0,
                best matches Some(m) ==> (forall|j: int| 0 <= j < i ==> m <= #[trigger] t@[j].next_fire)
                    && (exists|j: int| 0 <= j < i && m == #[trigger] t@[j].next_fire),
            decreases t@.len() - i,
        {
            let f = t[i].next_fire;
            best = match best {
                Some(b) => if f < b { Some(f) } else { Some(b) },
                None => Some(f),
            };
            proof {
                let m = best.unwrap();
                if m == f {
                    assert(m == t@[i as int].next_fire);
                }
            }
            i = i + 1;
        }
        best
    }

    /// Whether a button repeat is scheduled.
    pub fn has_active_button_repeats(&self) -> (r: bool)
        ensures
            r == (self.button_repeats@.len() > 0),
    {
        self.button_repeats.len() > 0
    }

    /// Whether the active application binds a mode to either stick.
    pub fn has_tick_modes(&self) -> (r: bool)
        ensures
            r == (self.compiled_stick_rules matches Some(cr) && (cr.left is Some || cr.right is Some)),
    {
        match self.compiled_stick_rules {
            Some(cr) => cr.left.is_some() || cr.right.is_some(),
            None => false,
        }
    }

    /// Whether some axis of some controller is at least `threshold` thousandths from neutral.
    pub fn has_axis_activity(&self, threshold: i32) -> (r: bool)
        requires
            self.wf(),
        ensures
            r == any_axis_active(self.controllers@, threshold as int),
    {
        let c = &self.controllers;
        let mut i: usize = 0;
        while i < c.len()
            invariant
                0 <= i <= c@.len(),
                c == self.controllers,
                self.wf(),
                forall|j: int| 0 <= j < i ==> !axes_active(#[trigger] c@[j].1.axes, threshold as int),
            decreases c@.len() - i,
        {
            let a = c[i].1.axes;
            proof {
                assert(controller_state_wf(c@[i as int].1));
            }
            if abs32(a.lx) >= threshold || abs32(a.ly) >= threshold || abs32(a.rx) >= threshold
                || abs32(a.ry) >= threshold || abs32(a.lt) >= threshold || abs32(a.rt) >= threshold {
                return true;
            }
            i = i + 1;
        }
        false
    }

    /// Whether periodic processing is needed: a stick mode is bound and some axis is off
    /// neutral, or a repeat is scheduled.
    pub fn needs_tick(&self) -> (r: bool)
        requires
            self.wf(),
        ensures
            r == ((self.compiled_stick_rules matches Some(cr) && (cr.left is Some || cr.right is Some))
                && any_axis_active(self.controllers@, AXIS_ACTIVITY_THRESHOLD as int)
                || any_stick_repeat(self.controllers@) || self.button_repeats@.len() > 0),
    {
        (self.has_tick_modes() && self.has_axis_activity(AXIS_ACTIVITY_THRESHOLD))
            || self.has_active_repeats() || self.has_active_button_repeats()
    }

    /// Whether a fast tick would help: some axis exceeds the activity threshold, or a repeat
    /// is scheduled.
    pub fn wants_fast_tick(&self) -> (r: bool)
        requires
            self.wf(),
        ensures
            r == (any_axis_active(self.controllers@, AXIS_ACTIVITY_THRESHOLD as int + 1)
                || any_stick_repeat(self.controllers@) || self.button_repeats@.len() > 0),
    {
        self.has_axis_activity(AXIS_ACTIVITY_THRESHOLD + 1) || self.has_active_repeats()
            || self.has_active_button_repeats()
    }
}

impl Default for Gamacros {
    fn default() -> (r: Gamacros)
        ensures
            r.wf(),
            r.workspace is None,
            r.active_app@ == Seq::<char>::empty(),
            r.controllers@.len() == 0,
            r.button_repeats@.len() == 0,
    {
        Gamacros::new()
    }
}

} // verus!
