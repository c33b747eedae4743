use vstd::prelude::*;

use crate::action::{ActionView, ControllerId};
use crate::bitmask::{button_ordinal, Bitmask, Button};
use crate::engine::{
    blacklisted, button_emits, button_ignored, controller_index, press_emits, release_emits, fires, max_fire_bits, new_task, pressed_after,
    selected, task_after, tick_emits, tick_modes, ButtonPhase, ButtonRepeatTask, Gamacros,
    DEFAULT_REPEAT_INTERVAL_MS,
};
use crate::profile::{ButtonAction, ButtonRule, KeyCombo, RawModifierKey};
use crate::stick::sat_add;

verus! {

/// A button transition changes the held set by exactly that button: a press adds it, a
/// release takes it out, and every other button stays as it was. So the held set is always
/// the buttons pressed and not released since the controller connected with none held.
pub proof fn pressed_tracks_events(prev: Bitmask, b: Button, phase: ButtonPhase)
    ensures
        pressed_after(prev, b, phase).has(b) == (phase == ButtonPhase::Pressed),
        forall|c: Button| c != b ==> #[trigger] pressed_after(prev, b, phase).has(c) == prev.has(c),
{
    assert(button_ordinal(b) < 32) by {
        assert(button_ordinal(b) <= 16);
    }
    assert forall|c: Button| #[trigger] pressed_after(prev, b, phase).has(c) == if c == b {
        phase == ButtonPhase::Pressed
    } else {
        prev.has(c)
    } by {
        assert(button_ordinal(c) <= 16);
        if c != b {
            assert(button_ordinal(c) != button_ordinal(b));
        }
        crate::bitmask::lemma_insert_bit(prev.bits, button_ordinal(b), button_ordinal(c));
        crate::bitmask::lemma_remove_bit(prev.bits, button_ordinal(b), button_ordinal(c));
    }
    assert(pressed_after(prev, b, phase).has(b) == (phase == ButtonPhase::Pressed));
}

proof fn lemma_tick_emits_idle(
    cs: Seq<(ControllerId, crate::engine::ControllerState)>,
    now: u64,
)
    ensures
        tick_emits(cs, None, None, now) == Seq::<ActionView>::empty(),
    decreases cs.len(),
{
    if cs.len() > 0 {
        lemma_tick_emits_idle(cs.drop_last(), now);
        assert(tick_emits(cs, None, None, now) =~= Seq::<ActionView>::empty());
    }
}

/// While the active application is blacklisted, a button event of any controller is ignored
/// (it emits nothing and changes nothing), and a tick emits nothing whatever the axes hold.
pub proof fn blacklist_silences(g: Gamacros, id: ControllerId, now: u64)
    requires
        g.workspace matches Some(p) && blacklisted(p, g.active_app@),
    ensures
        button_ignored(g, id),
        tick_emits(g.controllers@, tick_modes(g).0, tick_modes(g).1, now) == Seq::<ActionView>::empty(),
{
    lemma_tick_emits_idle(g.controllers@, now);
}

/// On any transition, the largest cardinality among firing chords bounds every firing chord
/// and is reached by one of them when it is not zero; a rule executes only if its chord
/// fires with exactly that cardinality, so firing chords of lower cardinality do not execute.
pub proof fn chord_precedence(
    rules: Seq<(Bitmask, ButtonRule)>,
    prev: Bitmask,
    now: Bitmask,
    phase: ButtonPhase,
)
    ensures
        forall|i: int|
            0 <= i < rules.len() && fires(prev, now, #[trigger] rules[i].0, phase) ==> rules[i].0.size()
                <= max_fire_bits(rules, prev, now, phase),
        max_fire_bits(rules, prev, now, phase) > 0 ==> exists|i: int|
            0 <= i < rules.len() && selected(
                prev,
                now,
                #[trigger] rules[i].0,
                phase,
                max_fire_bits(rules, prev, now, phase),
            ),
        forall|i: int|
            0 <= i < rules.len() && fires(prev, now, #[trigger] rules[i].0, phase)
                && rules[i].0.size() < max_fire_bits(rules, prev, now, phase) ==> !selected(
                prev,
                now,
                rules[i].0,
                phase,
                max_fire_bits(rules, prev, now, phase),
            ),
    decreases rules.len(),
{
    if rules.len() > 0 {
        let init = rules.drop_last();
        chord_precedence(init, prev, now, phase);
        assert forall|i: int|
            0 <= i < rules.len() && fires(prev, now, #[trigger] rules[i].0, phase) implies rules[i].0.size()
            <= max_fire_bits(rules, prev, now, phase) by {
            if i < rules.len() - 1 {
                assert(rules[i] == init[i]);
            }
        }
        if max_fire_bits(rules, prev, now, phase) > 0 {
            if max_fire_bits(rules, prev, now, phase) == max_fire_bits(init, prev, now, phase) {
                if fires(prev, now, rules.last().0, phase) && rules.last().0.size()
                    == max_fire_bits(rules, prev, now, phase) {
                    assert(selected(prev, now, rules[rules.len() - 1].0, phase, max_fire_bits(rules, prev, now, phase)));
                } else {
                    let w = choose|i: int|
                        0 <= i < init.len() && selected(
                            prev,
                            now,
                            #[trigger] init[i].0,
                            phase,
                            max_fire_bits(init, prev, now, phase),
                        );
                    assert(rules[w] == init[w]);
                }
            } else {
                assert(selected(prev, now, rules[rules.len() - 1].0, phase, max_fire_bits(rules, prev, now, phase)));
            }
        }
    }
}

/// A held keystroke starts repeating after its delay with the rule's interval (50 ms unless
/// the rule says otherwise), and every repeat that fires at `now` is next due one interval
/// after `now`, with its initial delay marked done.
pub proof fn repeat_interval(
    rule: ButtonRule,
    k: KeyCombo,
    id: ControllerId,
    b: Button,
    at: u64,
    t: ButtonRepeatTask,
    now: u64,
)
    requires
        now >= t.next_fire,
    ensures
        new_task(rule, k, id, b, at).interval_ms == match rule.repeat_interval_ms {
            Some(v) => v,
            None => DEFAULT_REPEAT_INTERVAL_MS,
        },
        task_after(t, now).next_fire == sat_add(now, t.interval_ms),
        task_after(t, now).interval_ms == t.interval_ms,
        task_after(t, now).delay_done,
        task_after(task_after(t, now), sat_add(now, t.interval_ms)).next_fire == sat_add(
            sat_add(now, t.interval_ms),
            t.interval_ms,
        ),
{
}

/// Pressing a button that was not held and then releasing it fires the same chords in both
/// transitions, with the same largest cardinality, so the rules that execute on release are
/// exactly those that executed on press: each raw modifier pressed is released.
pub proof fn press_release_symmetry(rules: Seq<(Bitmask, ButtonRule)>, p: Bitmask, b: Button)
    requires
        !p.has(b),
    ensures
        p.with(b).without(b) == p,
        forall|t: Bitmask|
            #[trigger] fires(p, p.with(b), t, ButtonPhase::Pressed) == fires(
                p.with(b),
                p,
                t,
                ButtonPhase::Released,
            ),
        max_fire_bits(rules, p, p.with(b), ButtonPhase::Pressed) == max_fire_bits(
            rules,
            p.with(b),
            p,
            ButtonPhase::Released,
        ),
        forall|i: int|
            0 <= i < rules.len() ==> selected(
                p,
                p.with(b),
                #[trigger] rules[i].0,
                ButtonPhase::Pressed,
                max_fire_bits(rules, p, p.with(b), ButtonPhase::Pressed),
            ) == selected(
                p.with(b),
                p,
                rules[i].0,
                ButtonPhase::Released,
                max_fire_bits(rules, p.with(b), p, ButtonPhase::Released),
            ),
{
    let o = button_ordinal(b);
    let x = p.bits;
    assert(o < 32) by {
        assert(button_ordinal(b) <= 16);
    }
    assert(((x >> o) & 1u32 != 1u32) ==> ((x | (1u32 << o)) & !(1u32 << o)) == x) by (bit_vector)
        requires
            o < 32,
    ;
    assert(p.with(b).without(b) == p);
    assert forall|t: Bitmask|
        #[trigger] fires(p, p.with(b), t, ButtonPhase::Pressed) == fires(
            p.with(b),
            p,
            t,
            ButtonPhase::Released,
        ) by {
        let y = t.bits;
        assert((x & y == y) ==> ((x | (1u32 << o)) & y == y)) by (bit_vector);
    }
    lemma_max_fire_bits_same(rules, p, b);
}

proof fn lemma_max_fire_bits_same(rules: Seq<(Bitmask, ButtonRule)>, p: Bitmask, b: Button)
    requires
        forall|t: Bitmask|
            #[trigger] fires(p, p.with(b), t, ButtonPhase::Pressed) == fires(
                p.with(b),
                p,
                t,
                ButtonPhase::Released,
            ),
    ensures
        max_fire_bits(rules, p, p.with(b), ButtonPhase::Pressed) == max_fire_bits(
            rules,
            p.with(b),
            p,
            ButtonPhase::Released,
        ),
    decreases rules.len(),
{
    if rules.len() > 0 {
        lemma_max_fire_bits_same(rules.drop_last(), p, b);
        assert(fires(p, p.with(b), rules.last().0, ButtonPhase::Pressed) == fires(
            p.with(b),
            p,
            rules.last().0,
            ButtonPhase::Released,
        ));
    }
}

/// Once a controller is disconnected, a button event of it is ignored and no button repeat
/// belongs to it, so nothing the engine emits afterwards comes from it.
pub proof fn disconnect_silences(g: Gamacros, c: ControllerId)
    requires
        controller_index(g.controllers@, c) == -1,
        forall|k: int| 0 <= k < g.button_repeats@.len() ==> #[trigger] g.button_repeats@[k].id != c,
    ensures
        button_ignored(g, c),
{
}

/// The raw modifier keys pressed in a sequence of actions, in order.
pub open spec fn raw_presses(s: Seq<ActionView>) -> Seq<RawModifierKey>
    decreases s.len(),
{
    if s.len() == 0 {
        seq![]
    } else {
        raw_presses(s.drop_last()) + match s.last() {
            ActionView::RawModifierPress(k) => seq![k],
            _ => seq![],
        }
    }
}

/// The raw modifier keys released in a sequence of actions, in order.
pub open spec fn raw_releases(s: Seq<ActionView>) -> Seq<RawModifierKey>
    decreases s.len(),
{
    if s.len() == 0 {
        seq![]
    } else {
        raw_releases(s.drop_last()) + match s.last() {
            ActionView::RawModifierRelease(k) => seq![k],
            _ => seq![],
        }
    }
}

proof fn lemma_raw_concat(a: Seq<ActionView>, b: Seq<ActionView>)
    ensures
        raw_presses(a + b) == raw_presses(a) + raw_presses(b),
        raw_releases(a + b) == raw_releases(a) + raw_releases(b),
    decreases b.len(),
{
    if b.len() == 0 {
        assert(a + b =~= a);
        assert(raw_presses(a) + raw_presses(b) =~= raw_presses(a));
        assert(raw_releases(a) + raw_releases(b) =~= raw_releases(a));
    } else {
        assert((a + b).drop_last() =~= a + b.drop_last());
        assert((a + b).last() == b.last());
        lemma_raw_concat(a, b.drop_last());
        vstd::seq_lib::lemma_concat_associative::<RawModifierKey>(
            raw_presses(a),
            raw_presses(b.drop_last()),
            match b.last() {
                ActionView::RawModifierPress(k) => seq![k],
                _ => seq![],
            },
        );
        vstd::seq_lib::lemma_concat_associative::<RawModifierKey>(
            raw_releases(a),
            raw_releases(b.drop_last()),
            match b.last() {
                ActionView::RawModifierRelease(k) => seq![k],
                _ => seq![],
            },
        );
    }
}

proof fn lemma_raw_single(x: ActionView)
    ensures
        raw_presses(seq![x]) == match x {
            ActionView::RawModifierPress(k) => seq![k],
            _ => Seq::<RawModifierKey>::empty(),
        },
        raw_releases(seq![x]) == match x {
            ActionView::RawModifierRelease(k) => seq![k],
            _ => Seq::<RawModifierKey>::empty(),
        },
{
    assert(seq![x].drop_last() =~= Seq::<ActionView>::empty());
    assert(seq![x].last() == x);
    assert(raw_presses(Seq::<ActionView>::empty()) == Seq::<RawModifierKey>::empty());
    assert(raw_releases(Seq::<ActionView>::empty()) == Seq::<RawModifierKey>::empty());
    assert(raw_presses(seq![x]) == raw_presses(Seq::<ActionView>::empty()) + match x {
        ActionView::RawModifierPress(k) => seq![k],
        _ => Seq::<RawModifierKey>::empty(),
    });
    assert(raw_releases(seq![x]) == raw_releases(Seq::<ActionView>::empty()) + match x {
        ActionView::RawModifierRelease(k) => seq![k],
        _ => Seq::<RawModifierKey>::empty(),
    });
    assert(raw_presses(seq![x]) =~= match x {
        ActionView::RawModifierPress(k) => seq![k],
        _ => Seq::<RawModifierKey>::empty(),
    });
    assert(raw_releases(seq![x]) =~= match x {
        ActionView::RawModifierRelease(k) => seq![k],
        _ => Seq::<RawModifierKey>::empty(),
    });
}

proof fn lemma_rule_raw_pair(r: ButtonRule, id: ControllerId, rumble: bool)
    ensures
        raw_presses(press_emits(r, id, rumble)) == raw_releases(release_emits(r)),
{
    let e = press_emits(r, id, rumble);
    let buzz = e.drop_last();
    let act = e.last();
    assert(e =~= buzz + seq![act]);
    lemma_raw_concat(buzz, seq![act]);
    lemma_raw_single(act);
    if buzz.len() == 1 {
        assert(buzz =~= seq![buzz[0]]);
        lemma_raw_single(buzz[0]);
    } else {
        assert(buzz.len() == 0);
    }
    assert(raw_presses(buzz) =~= Seq::<RawModifierKey>::empty());
    let f = release_emits(r);
    match r.action {
        ButtonAction::RawModifier(k) => {
            lemma_raw_single(ActionView::RawModifierRelease(k));
            assert(raw_presses(e) =~= seq![k]);
        },
        _ => {
            assert(raw_presses(e) =~= Seq::<RawModifierKey>::empty());
            assert(raw_releases(f) =~= Seq::<RawModifierKey>::empty());
        },
    }
}

proof fn lemma_raw_pairs(
    rules: Seq<(Bitmask, ButtonRule)>,
    p: Bitmask,
    n: Bitmask,
    max: nat,
    id: ControllerId,
    rumble: bool,
)
    requires
        forall|t: Bitmask|
            #[trigger] fires(p, n, t, ButtonPhase::Pressed) == fires(n, p, t, ButtonPhase::Released),
    ensures
        raw_presses(button_emits(rules, p, n, ButtonPhase::Pressed, max, id, rumble)) == raw_releases(
            button_emits(rules, n, p, ButtonPhase::Released, max, id, rumble),
        ),
    decreases rules.len(),
{
    if rules.len() > 0 {
        let init = rules.drop_last();
        let r = rules.last();
        lemma_raw_pairs(init, p, n, max, id, rumble);
        assert(fires(p, n, r.0, ButtonPhase::Pressed) == fires(n, p, r.0, ButtonPhase::Released));
        let a = button_emits(init, p, n, ButtonPhase::Pressed, max, id, rumble);
        let b = button_emits(init, n, p, ButtonPhase::Released, max, id, rumble);
        if selected(p, n, r.0, ButtonPhase::Pressed, max) {
            lemma_raw_concat(a, press_emits(r.1, id, rumble));
            lemma_raw_concat(b, release_emits(r.1));
            lemma_rule_raw_pair(r.1, id, rumble);
        }
    }
}

/// Pressing a button that was not held and then releasing it, with no other change in
/// between, releases exactly the raw modifier keys that the press pressed, in the same order.
pub proof fn raw_modifiers_pair(
    rules: Seq<(Bitmask, ButtonRule)>,
    p: Bitmask,
    b: Button,
    id: ControllerId,
    rumble: bool,
)
    requires
        !p.has(b),
    ensures
        raw_presses(
            button_emits(
                rules,
                p,
                p.with(b),
                ButtonPhase::Pressed,
                max_fire_bits(rules, p, p.with(b), ButtonPhase::Pressed),
                id,
                rumble,
            ),
        ) == raw_releases(
            button_emits(
                rules,
                p.with(b),
                p.with(b).without(b),
                ButtonPhase::Released,
                max_fire_bits(rules, p.with(b), p.with(b).without(b), ButtonPhase::Released),
                id,
                rumble,
            ),
        ),
{
    press_release_symmetry(rules, p, b);
    lemma_raw_pairs(
        rules,
        p,
        p.with(b),
        max_fire_bits(rules, p, p.with(b), ButtonPhase::Pressed),
        id,
        rumble,
    );
}

/// The raw modifier keys pressed over a sequence of press/release pairs: for each pair
/// `(p, b)`, the press of `b` while `p` is held.
pub open spec fn pairs_presses(
    rules: Seq<(Bitmask, ButtonRule)>,
    pairs: Seq<(Bitmask, Button)>,
    id: ControllerId,
    rumble: bool,
) -> Seq<RawModifierKey>
    decreases pairs.len(),
{
    if pairs.len() == 0 {
        seq![]
    } else {
        let (p, b) = pairs.last();
        pairs_presses(rules, pairs.drop_last(), id, rumble) + raw_presses(
            button_emits(
                rules,
                p,
                p.with(b),
                ButtonPhase::Pressed,
                max_fire_bits(rules, p, p.with(b), ButtonPhase::Pressed),
                id,
                rumble,
            ),
        )
    }
}

/// The raw modifier keys released over a sequence of press/release pairs: for each pair
/// `(p, b)`, the release of `b` right after its press.
pub open spec fn pairs_releases(
    rules: Seq<(Bitmask, ButtonRule)>,
    pairs: Seq<(Bitmask, Button)>,
    id: ControllerId,
    rumble: bool,
) -> Seq<RawModifierKey>
    decreases pairs.len(),
{
    if pairs.len() == 0 {
        seq![]
    } else {
        let (p, b) = pairs.last();
        pairs_releases(rules, pairs.drop_last(), id, rumble) + raw_releases(
            button_emits(
                rules,
                p.with(b),
                p.with(b).without(b),
                ButtonPhase::Released,
                max_fire_bits(rules, p.with(b), p.with(b).without(b), ButtonPhase::Released),
                id,
                rumble,
            ),
        )
    }
}

/// Over any sequence of press/release pairs of one controller, each pair pressing a button
/// that was not held and releasing it before the next event, the raw modifier keys released
/// are exactly those pressed, key for key and in the same order.
pub proof fn raw_modifiers_pair_over_sequence(
    rules: Seq<(Bitmask, ButtonRule)>,
    pairs: Seq<(Bitmask, Button)>,
    id: ControllerId,
    rumble: bool,
)
    requires
        forall|i: int| 0 <= i < pairs.len() ==> !(#[trigger] pairs[i]).0.has(pairs[i].1),
    ensures
        pairs_presses(rules, pairs, id, rumble) == pairs_releases(rules, pairs, id, rumble),
    decreases pairs.len(),
{
    if pairs.len() > 0 {
        let init = pairs.drop_last();
        assert forall|i: int| 0 <= i < init.len() implies !(#[trigger] init[i]).0.has(init[i].1) by {
            assert(init[i] == pairs[i]);
        }
        raw_modifiers_pair_over_sequence(rules, init, id, rumble);
        let (p, b) = pairs.last();
        assert(pairs.last() == pairs[pairs.len() - 1]);
        raw_modifiers_pair(rules, p, b, id, rumble);
    }
}

} // verus!
