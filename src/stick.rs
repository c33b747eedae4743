use vstd::prelude::*;

use crate::action::{views, Action, ActionView};
use crate::profile::{
    index_of_key, stick_mode_wf, Axis, ArrowsParams, Key, KeyCombo, MouseParams, ScrollParams,
    StepperParams, StickMode, StickSide,
};

verus! {

/// Longest time step, in milliseconds, that continuous modes integrate over.
pub const MAX_DT_MS: u64 = 50;
/// Time step assumed on the first tick after a continuous mode becomes active.
pub const FIRST_DT_MS: u64 = 16;
/// Sub-units of a pixel or a line that continuous modes accumulate.
pub const SUB_UNITS: i64 = 1_000_000;

/// A direction of the arrows mode.
#[derive(Debug, Clone, Copy, PartialEq, Eq, Structural, Hash)]
pub enum Direction {
    Up,
    Down,
    Left,
    Right,
}

/// The state of one side of one controller's sticks.
#[derive(Debug, Clone, Copy, PartialEq, Eq, Structural)]
pub enum SideState {
    Idle,
    /// Arrows mode, held in a direction, with its next repeat.
    Arrow { dir: Direction, next_fire: u64, interval_ms: u64 },
    /// Volume or brightness mode, stepping with `key`.
    Stepper { key: Key, next_fire: u64, interval_ms: u64 },
    /// Mouse move mode: last tick and the sub-pixel remainders.
    Motion { last: u64, rem_x: i64, rem_y: i64 },
    /// Scroll mode: last tick and the sub-line remainder.
    Scrolling { last: u64, rem: i64 },
}

/// Remainders of continuous modes stay under one unit.
pub open spec fn side_state_wf(s: SideState) -> bool {
    match s {
        SideState::Motion { rem_x, rem_y, .. } => -SUB_UNITS < rem_x < SUB_UNITS && -SUB_UNITS
            < rem_y < SUB_UNITS,
        SideState::Scrolling { rem, .. } => -SUB_UNITS < rem < SUB_UNITS,
        _ => true,
    }
}

/// Whether the state holds a scheduled repeat.
pub open spec fn has_repeat(s: SideState) -> bool {
    s is Arrow || s is Stepper
}

/// Time of the scheduled repeat of a state that holds one.
pub open spec fn fire_time(s: SideState) -> u64 {
    match s {
        SideState::Arrow { next_fire, .. } => next_fire,
        SideState::Stepper { next_fire, .. } => next_fire,
        _ => 0,
    }
}

/// The active application's stick modes, as positions in its list of stick rules.
#[derive(Debug, Clone, Copy, PartialEq, Eq, Structural)]
pub struct CompiledStickRules {
    pub left: Option<usize>,
    pub right: Option<usize>,
}

/// The position of the first rule for `side`, if any.
pub open spec fn side_index(sticks: Seq<(StickSide, StickMode)>, side: StickSide) -> Option<usize> {
    let i = index_of_key(sticks, side);
    if i == -1 {
        None
    } else {
        Some(i as usize)
    }
}

proof fn lemma_index_of_side_from(s: Seq<(StickSide, StickMode)>, k: StickSide, i: int)
    requires
        0 <= i,
    ensures
        crate::profile::index_of_key_from(s, k, i) == -1 || (i <= crate::profile::index_of_key_from(s, k, i) < s.len()),
    decreases s.len() - i,
{
    if i < s.len() && s[i].0 != k {
        lemma_index_of_side_from(s, k, i + 1);
    }
}

fn find_side(s: &Vec<(StickSide, StickMode)>, k: StickSide) -> (r: Option<usize>)
    ensures
        r == side_index(s@, k),
        r matches Some(i) ==> i < s@.len(),
{
    proof {
        lemma_index_of_side_from(s@, k, 0);
    }
    let mut i: usize = 0;
    while i < s.len()
        invariant
            0 <= i <= s@.len(),
            index_of_key(s@, k) == crate::profile::index_of_key_from(s@, k, i as int),
        decreases s@.len() - i,
    {
        if s[i].0 == k {
            return Some(i);
        }
        i = i + 1;
    }
    None
}

impl CompiledStickRules {
    /// Compile a list of stick rules: the first rule of each side.
    pub fn from_rules(sticks: &Vec<(StickSide, StickMode)>) -> (r: CompiledStickRules)
        ensures
            r.left == side_index(sticks@, StickSide::Left),
            r.right == side_index(sticks@, StickSide::Right),
            r.left matches Some(i) ==> i < sticks@.len(),
            r.right matches Some(i) ==> i < sticks@.len(),
    {
        CompiledStickRules {
            left: find_side(sticks, StickSide::Left),
            right: find_side(sticks, StickSide::Right),
        }
    }

    pub fn left(&self) -> (r: Option<usize>)
        ensures
            r == self.left,
    {
        self.left
    }

    pub fn right(&self) -> (r: Option<usize>)
        ensures
            r == self.right,
    {
        self.right
    }
}

/// `v`, negated when `invert` is set.
pub open spec fn oriented(v: int, invert: bool) -> int {
    if invert {
        -v
    } else {
        v
    }
}

pub open spec fn abs(v: int) -> int {
    if v < 0 {
        -v
    } else {
        v
    }
}

/// Deflection `mag` past the deadzone `dz`, rescaled to thousandths and clamped to full.
pub open spec fn rescaled(mag: int, dz: int) -> int {
    let r = (mag - dz) * 1000 / (1000 - dz);
    if r > 1000 {
        1000
    } else {
        r
    }
}

/// `a + b`, or `u64::MAX` where the sum does not fit.
pub open spec fn sat_add(a: u64, b: u64) -> u64 {
    if a + b > u64::MAX {
        u64::MAX
    } else {
        (a + b) as u64
    }
}

/// The direction that the arrows mode reads from `(x, y)`, if any.
pub open spec fn arrow_dir(x: int, y: int, dz: int) -> Option<Direction> {
    if abs(y) > abs(x) && abs(y) > dz {
        Some(if y < 0 { Direction::Up } else { Direction::Down })
    } else if abs(x) > dz {
        Some(if x < 0 { Direction::Left } else { Direction::Right })
    } else {
        None
    }
}

/// The key tapped for an arrow direction.
pub open spec fn arrow_combo(d: Direction) -> KeyCombo {
    KeyCombo {
        control: false,
        shift: false,
        alt: false,
        meta: false,
        key: match d {
            Direction::Up => Key::Up,
            Direction::Down => Key::Down,
            Direction::Left => Key::Left,
            Direction::Right => Key::Right,
        },
    }
}

/// A plain key combination of `k`.
pub open spec fn plain(k: Key) -> KeyCombo {
    KeyCombo { control: false, shift: false, alt: false, meta: false, key: k }
}

/// One tick of the arrows mode.
pub open spec fn arrows_step(s: SideState, p: ArrowsParams, x: int, y: int, now: u64) -> (
    SideState,
    Seq<ActionView>,
) {
    let x = oriented(x, p.invert_x);
    let y = oriented(y, p.invert_y);
    match arrow_dir(x, y, p.deadzone as int) {
        None => (SideState::Idle, seq![]),
        Some(d) => match s {
            SideState::Arrow { dir, .. } if dir == d => (s, seq![]),
            _ => (
                SideState::Arrow {
                    dir: d,
                    next_fire: sat_add(now, p.repeat_delay_ms),
                    interval_ms: p.repeat_interval_ms,
                },
                seq![ActionView::KeyTap(arrow_combo(d))],
            ),
        },
    }
}

/// Interval between steps at rescaled deflection `m`: `max` just past the deadzone, `min` at
/// full deflection, linear in between.
pub open spec fn step_interval(p: StepperParams, m: int) -> u64 {
    if p.min_interval_ms <= p.max_interval_ms {
        (p.max_interval_ms - (p.max_interval_ms - p.min_interval_ms) * m / 1000) as u64
    } else {
        (p.max_interval_ms + (p.min_interval_ms - p.max_interval_ms) * m / 1000) as u64
    }
}

/// The key that a stepper steps with, given the raising and lowering keys and the oriented
/// value: up on the Y axis is negative, on the X axis positive.
pub open spec fn stepper_key(p: StepperParams, v: int, up: Key, down: Key) -> Key {
    let raise = match p.axis {
        Axis::X => v > 0,
        Axis::Y => v < 0,
    };
    if raise {
        up
    } else {
        down
    }
}

/// One tick of the volume or brightness mode.
pub open spec fn stepper_step(
    s: SideState,
    p: StepperParams,
    x: int,
    y: int,
    now: u64,
    up: Key,
    down: Key,
) -> (SideState, Seq<ActionView>) {
    let v = oriented(
        match p.axis {
            Axis::X => x,
            Axis::Y => y,
        },
        p.invert,
    );
    if abs(v) <= p.deadzone {
        (SideState::Idle, seq![])
    } else {
        let interval = step_interval(p, rescaled(abs(v), p.deadzone as int));
        let k = stepper_key(p, v, up, down);
        match s {
            SideState::Stepper { key, next_fire, .. } if key == k => (
                SideState::Stepper { key, next_fire, interval_ms: interval },
                seq![],
            ),
            _ => (
                SideState::Stepper { key: k, next_fire: sat_add(now, interval), interval_ms: interval },
                seq![ActionView::KeyTap(plain(k))],
            ),
        }
    }
}

/// A scheduled repeat after a drain at `now`: rescheduled one interval on if it was due.
pub open spec fn due_step(s: SideState, now: u64) -> SideState {
    match s {
        SideState::Arrow { dir, next_fire, interval_ms } => if now >= next_fire {
            SideState::Arrow { dir, next_fire: sat_add(now, interval_ms), interval_ms }
        } else {
            s
        },
        SideState::Stepper { key, next_fire, interval_ms } => if now >= next_fire {
            SideState::Stepper { key, next_fire: sat_add(now, interval_ms), interval_ms }
        } else {
            s
        },
        _ => s,
    }
}

fn arrow_key(d: Direction) -> (r: KeyCombo)
    ensures
        r == arrow_combo(d),
{
    let k = match d {
        Direction::Up => Key::Up,
        Direction::Down => Key::Down,
        Direction::Left => Key::Left,
        Direction::Right => Key::Right,
    };
    KeyCombo::plain(k)
}

fn orient(v: i32, invert: bool) -> (r: i64)
    requires
        -1000 <= v <= 1000,
    ensures
        r == oriented(v as int, invert),
        -1000 <= r <= 1000,
{
    if invert {
        -(v as i64)
    } else {
        v as i64
    }
}

fn abs64(v: i64) -> (r: i64)
    requires
        -1000 <= v <= 1000,
    ensures
        r == abs(v as int),
        0 <= r <= 1000,
{
    if v < 0 {
        -v
    } else {
        v
    }
}

fn rescale(mag: i64, dz: u32) -> (r: i64)
    requires
        dz < mag <= 2000,
        dz < 1000,
    ensures
        r == rescaled(mag as int, dz as int),
        0 <= r <= 1000,
{
    let d = dz as i64;
    let r = (mag - d) * 1000 / (1000 - d);
    if r > 1000 {
        1000
    } else {
        r
    }
}

/// One tick of the arrows mode on axis values `(x, y)`.
pub fn arrows_tick(s: SideState, p: &ArrowsParams, x: i32, y: i32, now: u64, out: &mut Vec<Action>) -> (r: SideState)
    requires
        -1000 <= x <= 1000,
        -1000 <= y <= 1000,
    ensures
        r == arrows_step(s, *p, x as int, y as int, now).0,
        views(final(out)@) == views(old(out)@) + arrows_step(s, *p, x as int, y as int, now).1,
{
    let xo = orient(x, p.invert_x);
    let yo = orient(y, p.invert_y);
    let ax = abs64(xo);
    let ay = abs64(yo);
    let dz = p.deadzone as i64;
    let d = if ay > ax && ay > dz {
        if yo < 0 { Some(Direction::Up) } else { Some(Direction::Down) }
    } else if ax > dz {
        if xo < 0 { Some(Direction::Left) } else { Some(Direction::Right) }
    } else {
        None
    };
    match d {
        None => {
            proof { assert(views(out@) =~= views(old(out)@) + seq![]); }
            SideState::Idle
        },
        Some(d) => {
            match s {
                SideState::Arrow { dir, .. } => {
                    if dir == d {
                        proof { assert(views(out@) =~= views(old(out)@) + seq![]); }
                        return s;
                    }
                },
                _ => {},
            }
            crate::action::emit(out, Action::KeyTap(arrow_key(d)));
            SideState::Arrow {
                dir: d,
                next_fire: now.saturating_add(p.repeat_delay_ms),
                interval_ms: p.repeat_interval_ms,
            }
        },
    }
}

/// One tick of the volume or brightness mode, stepping with `up` or `down`.
pub fn stepper_tick(
    s: SideState,
    p: &StepperParams,
    x: i32,
    y: i32,
    now: u64,
    up: Key,
    down: Key,
    out: &mut Vec<Action>,
) -> (r: SideState)
    requires
        -1000 <= x <= 1000,
        -1000 <= y <= 1000,
        p.deadzone < 1000,
    ensures
        r == stepper_step(s, *p, x as int, y as int, now, up, down).0,
        views(final(out)@) == views(old(out)@) + stepper_step(
            s,
            *p,
            x as int,
            y as int,
            now,
            up,
            down,
        ).1,
{
    let raw = match p.axis {
        Axis::X => x,
        Axis::Y => y,
    };
    let v = orient(raw, p.invert);
    let a = abs64(v);
    if a <= p.deadzone as i64 {
        proof { assert(views(out@) =~= views(old(out)@) + seq![]); }
        return SideState::Idle;
    }
    let m = rescale(a, p.deadzone);
    let interval: u64 = if p.min_interval_ms <= p.max_interval_ms {
        let span = p.max_interval_ms - p.min_interval_ms;
        proof {
            assert((span as int) * (m as int) <= (span as int) * 1000) by (nonlinear_arith)
                requires 0 <= m <= 1000, 0 <= span;
            assert((span as int) * 1000 <= 0xffff_ffff_ffff_ffff * 1000);
        }
        let cut = (span as u128) * (m as u128) / 1000;
        proof {
            assert((span as int) * (m as int) / 1000 <= span as int) by (nonlinear_arith)
                requires 0 <= m <= 1000, 0 <= span;
        }
        p.max_interval_ms - (cut as u64)
    } else {
        let span = p.min_interval_ms - p.max_interval_ms;
        proof {
            assert((span as int) * (m as int) <= (span as int) * 1000) by (nonlinear_arith)
                requires 0 <= m <= 1000, 0 <= span;
            assert((span as int) * 1000 <= 0xffff_ffff_ffff_ffff * 1000);
        }
        let add = (span as u128) * (m as u128) / 1000;
        proof {
            assert((span as int) * (m as int) / 1000 <= span as int) by (nonlinear_arith)
                requires 0 <= m <= 1000, 0 <= span;
        }
        p.max_interval_ms + (add as u64)
    };
    let raise = match p.axis {
        Axis::X => v > 0,
        Axis::Y => v < 0,
    };
    let k = if raise { up } else { down };
    match s {
        SideState::Stepper { key, next_fire, .. } => {
            if key == k {
                proof { assert(views(out@) =~= views(old(out)@) + seq![]); }
                return SideState::Stepper { key, next_fire, interval_ms: interval };
            }
        },
        _ => {},
    }
    crate::action::emit(out, Action::KeyTap(KeyCombo::plain(k)));
    SideState::Stepper { key: k, next_fire: now.saturating_add(interval), interval_ms: interval }
}

/// `r` is the integer square root of `n`.
pub open spec fn is_root(r: int, n: int) -> bool {
    0 <= r && r * r <= n < (r + 1) * (r + 1)
}

/// The integer square root of `n`.
pub open spec fn root(n: int) -> int {
    choose|r: int| #[trigger] is_root(r, n)
}

/// Division that rounds toward zero.
pub open spec fn tdiv(a: int, d: int) -> int {
    if a >= 0 {
        a / d
    } else {
        -((-a) / d)
    }
}

/// Remainder of the division that rounds toward zero.
pub open spec fn tmod(a: int, d: int) -> int {
    if a >= 0 {
        a % d
    } else {
        -((-a) % d)
    }
}

/// `k * v / mag`, rounded toward zero: the share of `k` along a component `v` of a vector of
/// length `mag`.
pub open spec fn along(v: int, k: int, mag: int) -> int {
    if v >= 0 {
        v * k / mag
    } else {
        -((-v) * k / mag)
    }
}

/// Milliseconds since the last tick of a continuous mode, at most `MAX_DT_MS`; `FIRST_DT_MS` on
/// the first tick.
pub open spec fn tick_dt(s: SideState, now: u64) -> int {
    let last = match s {
        SideState::Motion { last, .. } => Some(last),
        SideState::Scrolling { last, .. } => Some(last),
        _ => None,
    };
    match last {
        Some(l) => if now < l {
            0
        } else if now - l > MAX_DT_MS {
            MAX_DT_MS as int
        } else {
            now - l
        },
        None => FIRST_DT_MS as int,
    }
}

/// One tick of the mouse move mode. Speed is `max_speed_px_s` scaled by the response to the
/// rescaled deflection; the motion, in millionths of a pixel, is split along the unit vector,
/// whole pixels are emitted and the rest is carried.
pub open spec fn mouse_step(s: SideState, p: MouseParams, x: int, y: int, now: u64) -> (
    SideState,
    Seq<ActionView>,
) {
    let x = oriented(x, p.invert_x);
    let y = oriented(y, p.invert_y);
    let mag = root(x * x + y * y);
    if mag <= p.deadzone {
        (SideState::Idle, seq![])
    } else {
        let (rx, ry) = match s {
            SideState::Motion { rem_x, rem_y, .. } => (rem_x as int, rem_y as int),
            _ => (0, 0),
        };
        let k = p.max_speed_px_s * p.response@[rescaled(mag, p.deadzone as int)] * tick_dt(s, now);
        let ax = rx + along(x, k, mag);
        let ay = ry + along(y, k, mag);
        let dx = tdiv(ax, SUB_UNITS as int);
        let dy = tdiv(ay, SUB_UNITS as int);
        (
            SideState::Motion {
                last: now,
                rem_x: tmod(ax, SUB_UNITS as int) as i64,
                rem_y: tmod(ay, SUB_UNITS as int) as i64,
            },
            if dx != 0 || dy != 0 {
                seq![ActionView::MouseMove { dx: dx as i32, dy: dy as i32 }]
            } else {
                seq![]
            },
        )
    }
}

/// One tick of the scroll mode: `speed_lines_s` scaled by the rescaled deflection of the
/// chosen axis, in millionths of a line; whole lines are emitted and the rest is carried.
pub open spec fn scroll_step(s: SideState, p: ScrollParams, x: int, y: int, now: u64) -> (
    SideState,
    Seq<ActionView>,
) {
    let v = if p.horizontal {
        oriented(x, p.invert_x)
    } else {
        oriented(y, p.invert_y)
    };
    if abs(v) <= p.deadzone {
        (SideState::Idle, seq![])
    } else {
        let rem = match s {
            SideState::Scrolling { rem, .. } => rem as int,
            _ => 0,
        };
        let k = p.speed_lines_s * rescaled(abs(v), p.deadzone as int) * tick_dt(s, now);
        let a = rem + if v < 0 {
            -k
        } else {
            k
        };
        let n = tdiv(a, SUB_UNITS as int);
        (
            SideState::Scrolling { last: now, rem: tmod(a, SUB_UNITS as int) as i64 },
            if n == 0 {
                seq![]
            } else if p.horizontal {
                seq![ActionView::Scroll { h: n as i32, v: 0 }]
            } else {
                seq![ActionView::Scroll { h: 0, v: n as i32 }]
            },
        )
    }
}

proof fn lemma_root_unique(n: int, r: int)
    requires
        0 <= r,
        r * r <= n < (r + 1) * (r + 1),
    ensures
        root(n) == r,
{
    assert(is_root(r, n));
    let c = root(n);
    assert(0 <= c && c * c <= n < (c + 1) * (c + 1));
    if c < r {
        assert((c + 1) * (c + 1) <= r * r) by (nonlinear_arith)
            requires c + 1 <= r, 0 <= c;
    } else if c > r {
        assert((r + 1) * (r + 1) <= c * c) by (nonlinear_arith)
            requires r + 1 <= c, 0 <= r;
    }
}

fn isqrt(n: u64) -> (r: u64)
    requires
        n <= 2_000_000,
    ensures
        r * r <= n < (r + 1) * (r + 1),
        r <= 1415,
        r == root(n as int),
{
    let mut r: u64 = 0;
    let mut next_sq: u64 = 1;
    while next_sq <= n
        invariant
            r * r <= n,
            r <= 1415,
            n <= 2_000_000,
            next_sq == (r + 1) * (r + 1),
        decreases 1415 - r,
    {
        proof {
            assert(r + 1 <= 1414) by (nonlinear_arith)
                requires (r + 1) * (r + 1) <= n, n <= 2_000_000, r >= 0;
        }
        r = r + 1;
        proof {
            assert((r + 1) * (r + 1) == r * r + 2 * r + 1) by (nonlinear_arith);
        }
        next_sq = next_sq + 2 * r + 1;
    }
    proof {
        lemma_root_unique(n as int, r as int);
    }
    r
}

fn tick_dt_exec(s: SideState, now: u64) -> (r: u64)
    ensures
        r as int == tick_dt(s, now),
        r <= MAX_DT_MS,
{
    let last = match s {
        SideState::Motion { last, .. } => Some(last),
        SideState::Scrolling { last, .. } => Some(last),
        _ => None,
    };
    match last {
        Some(l) => if now < l {
            0
        } else if now - l > MAX_DT_MS {
            MAX_DT_MS
        } else {
            now - l
        },
        None => FIRST_DT_MS,
    }
}

/// Split an accumulated amount into whole units and the carried rest.
fn split_units(a: i64) -> (r: (i64, i64))
    requires
        -SUB_UNITS - 1_000_000_000_000_000 < a < SUB_UNITS + 1_000_000_000_000_000,
    ensures
        r.0 == tdiv(a as int, SUB_UNITS as int),
        r.1 == tmod(a as int, SUB_UNITS as int),
        -SUB_UNITS < r.1 < SUB_UNITS,
        -2_000_000_000 < r.0 < 2_000_000_000,
{
    if a >= 0 {
        (a / SUB_UNITS, a % SUB_UNITS)
    } else {
        let b: i64 = -a;
        (-(b / SUB_UNITS), -(b % SUB_UNITS))
    }
}

proof fn lemma_along_bound(v: int, k: int, mag: int)
    requires
        -mag <= v <= mag,
        0 < mag,
        0 <= k,
    ensures
        -k <= along(v, k, mag) <= k,
{
    let w = abs(v);
    assert(w * k <= mag * k) by (nonlinear_arith)
        requires 0 <= w <= mag, 0 <= k;
    assert(w * k / mag <= k) by (nonlinear_arith)
        requires w * k <= mag * k, 0 < mag, 0 <= k;
    assert(w * k / mag >= 0) by (nonlinear_arith)
        requires w >= 0, 0 < mag, 0 <= k;
}

fn along_exec(v: i64, k: u64, mag: u64) -> (r: i64)
    requires
        -(mag as int) <= v <= mag,
        0 < mag <= 1415,
        k <= 300_000_000_000_000,
    ensures
        r == along(v as int, k as int, mag as int),
        -(k as int) <= r <= k,
{
    proof {
        lemma_along_bound(v as int, k as int, mag as int);
    }
    let w: u64 = if v < 0 {
        (-v) as u64
    } else {
        v as u64
    };
    proof {
        assert((w as int) * (k as int) <= 1415 * 300_000_000_000_000) by (nonlinear_arith)
            requires w <= 1415, k <= 300_000_000_000_000, w >= 0, k >= 0;
    }
    let q = ((w as u128) * (k as u128) / (mag as u128)) as i64;
    if v < 0 {
        -q
    } else {
        q
    }
}

/// One tick of the mouse move mode on axis values `(x, y)`.
pub fn mouse_tick(s: SideState, p: &MouseParams, x: i32, y: i32, now: u64, out: &mut Vec<Action>) -> (r: SideState)
    requires
        -1000 <= x <= 1000,
        -1000 <= y <= 1000,
        stick_mode_wf(StickMode::MouseMove(*p)),
        side_state_wf(s),
    ensures
        r == mouse_step(s, *p, x as int, y as int, now).0,
        side_state_wf(r),
        views(final(out)@) == views(old(out)@) + mouse_step(s, *p, x as int, y as int, now).1,
{
    let xo = orient(x, p.invert_x);
    let yo = orient(y, p.invert_y);
    proof {
        assert(xo * xo <= 1_000_000 && yo * yo <= 1_000_000) by (nonlinear_arith)
            requires -1000 <= xo <= 1000, -1000 <= yo <= 1000;
        assert(xo * xo >= 0 && yo * yo >= 0) by (nonlinear_arith);
    }
    let n = (xo * xo + yo * yo) as u64;
    let mag = isqrt(n);
    if mag <= p.deadzone as u64 {
        proof { assert(views(out@) =~= views(old(out)@) + seq![]); }
        return SideState::Idle;
    }
    proof {
        assert(-(mag as int) <= xo <= mag) by (nonlinear_arith)
            requires (xo * xo) <= n, n < (mag + 1) * (mag + 1), mag >= 0;
        assert(-(mag as int) <= yo <= mag) by (nonlinear_arith)
            requires (yo * yo) <= n, n < (mag + 1) * (mag + 1), mag >= 0;
    }
    let (rx, ry): (i64, i64) = match s {
        SideState::Motion { rem_x, rem_y, .. } => (rem_x, rem_y),
        _ => (0, 0),
    };
    let m = rescale(mag as i64, p.deadzone);
    let shaped = p.response[m as usize];
    let dt = tick_dt_exec(s, now);
    proof {
        assert((p.max_speed_px_s as int) * (shaped as int) <= 0xffff_ffff * 1000) by (nonlinear_arith)
            requires p.max_speed_px_s <= 0xffff_ffff, shaped <= 1000, shaped >= 0;
        assert((p.max_speed_px_s as int) * (shaped as int) * (dt as int) <= 0xffff_ffff * 1000 * 50)
            by (nonlinear_arith)
            requires (p.max_speed_px_s as int) * (shaped as int) <= 0xffff_ffff * 1000, dt <= 50, dt >= 0,
            (p.max_speed_px_s as int) * (shaped as int) >= 0;
    }
    let k: u64 = (p.max_speed_px_s as u64) * (shaped as u64) * dt;
    let ax = rx + along_exec(xo, k, mag);
    let ay = ry + along_exec(yo, k, mag);
    let (dx, nrx) = split_units(ax);
    let (dy, nry) = split_units(ay);
    if dx != 0 || dy != 0 {
        crate::action::emit(out, Action::MouseMove { dx: dx as i32, dy: dy as i32 });
    } else {
        proof { assert(views(out@) =~= views(old(out)@) + seq![]); }
    }
    SideState::Motion { last: now, rem_x: nrx, rem_y: nry }
}

/// One tick of the scroll mode on axis values `(x, y)`.
pub fn scroll_tick(s: SideState, p: &ScrollParams, x: i32, y: i32, now: u64, out: &mut Vec<Action>) -> (r: SideState)
    requires
        -1000 <= x <= 1000,
        -1000 <= y <= 1000,
        p.deadzone < 1000,
        side_state_wf(s),
    ensures
        r == scroll_step(s, *p, x as int, y as int, now).0,
        side_state_wf(r),
        views(final(out)@) == views(old(out)@) + scroll_step(s, *p, x as int, y as int, now).1,
{
    let v = if p.horizontal {
        orient(x, p.invert_x)
    } else {
        orient(y, p.invert_y)
    };
    let a = abs64(v);
    if a <= p.deadzone as i64 {
        proof { assert(views(out@) =~= views(old(out)@) + seq![]); }
        return SideState::Idle;
    }
    let rem: i64 = match s {
        SideState::Scrolling { rem, .. } => rem,
        _ => 0,
    };
    let m = rescale(a, p.deadzone);
    let dt = tick_dt_exec(s, now);
    proof {
        assert((p.speed_lines_s as int) * (m as int) <= 0xffff_ffff * 1000) by (nonlinear_arith)
            requires p.speed_lines_s <= 0xffff_ffff, m <= 1000, m >= 0;
        assert((p.speed_lines_s as int) * (m as int) * (dt as int) <= 0xffff_ffff * 1000 * 50)
            by (nonlinear_arith)
            requires (p.speed_lines_s as int) * (m as int) <= 0xffff_ffff * 1000, dt <= 50, dt >= 0,
            (p.speed_lines_s as int) * (m as int) >= 0;
    }
    let k: i64 = ((p.speed_lines_s as u64) * (m as u64) * dt) as i64;
    let acc = if v < 0 {
        rem - k
    } else {
        rem + k
    };
    let (n, nrem) = split_units(acc);
    if n != 0 {
        if p.horizontal {
            crate::action::emit(out, Action::Scroll { h: n as i32, v: 0 });
        } else {
            crate::action::emit(out, Action::Scroll { h: 0, v: n as i32 });
        }
    } else {
        proof { assert(views(out@) =~= views(old(out)@) + seq![]); }
    }
    SideState::Scrolling { last: now, rem: nrem }
}


/// One tick of a side whose mode is `mode` (none: the side goes idle).
pub open spec fn side_step(s: SideState, mode: Option<StickMode>, x: int, y: int, now: u64) -> (
    SideState,
    Seq<ActionView>,
) {
    match mode {
        None => (SideState::Idle, seq![]),
        Some(StickMode::Arrows(p)) => arrows_step(s, p, x, y, now),
        Some(StickMode::Volume(p)) => stepper_step(s, p, x, y, now, Key::VolumeUp, Key::VolumeDown),
        Some(StickMode::Brightness(p)) => stepper_step(
            s,
            p,
            x,
            y,
            now,
            Key::BrightnessUp,
            Key::BrightnessDown,
        ),
        Some(StickMode::MouseMove(p)) => mouse_step(s, p, x, y, now),
        Some(StickMode::Scroll(p)) => scroll_step(s, p, x, y, now),
    }
}

/// The mode behind a borrowed mode.
pub open spec fn owned_mode(mode: Option<&StickMode>) -> Option<StickMode> {
    match mode {
        Some(m) => Some(*m),
        None => None,
    }
}

/// One tick of a side on axis values `(x, y)`.
pub fn side_tick(
    s: SideState,
    mode: Option<&StickMode>,
    x: i32,
    y: i32,
    now: u64,
    out: &mut Vec<Action>,
) -> (r: SideState)
    requires
        -1000 <= x <= 1000,
        -1000 <= y <= 1000,
        side_state_wf(s),
        mode matches Some(m) ==> stick_mode_wf(*m),
    ensures
        r == side_step(s, owned_mode(mode), x as int, y as int, now).0,
        side_state_wf(r),
        views(final(out)@) == views(old(out)@) + side_step(
            s,
            owned_mode(mode),
            x as int,
            y as int,
            now,
        ).1,
{
    match mode {
        None => {
            proof {
                assert(views(out@) =~= views(old(out)@) + seq![]);
            }
            SideState::Idle
        },
        Some(StickMode::Arrows(p)) => arrows_tick(s, p, x, y, now, out),
        Some(StickMode::Volume(p)) => stepper_tick(
            s,
            p,
            x,
            y,
            now,
            Key::VolumeUp,
            Key::VolumeDown,
            out,
        ),
        Some(StickMode::Brightness(p)) => stepper_tick(
            s,
            p,
            x,
            y,
            now,
            Key::BrightnessUp,
            Key::BrightnessDown,
            out,
        ),
        Some(StickMode::MouseMove(p)) => mouse_tick(s, p, x, y, now, out),
        Some(StickMode::Scroll(p)) => scroll_tick(s, p, x, y, now, out),
    }
}


pub(crate) proof fn lemma_side_index_range(s: Seq<(StickSide, StickMode)>, k: StickSide)
    ensures
        side_index(s, k) matches Some(i) ==> i < s.len(),
{
    lemma_index_of_side_from(s, k, 0);
}

} // verus!

verus! {

/// The tap that a scheduled repeat of `s` emits when it fires.
pub open spec fn repeat_tap(s: SideState) -> ActionView {
    match s {
        SideState::Arrow { dir, .. } => ActionView::KeyTap(arrow_combo(dir)),
        SideState::Stepper { key, .. } => ActionView::KeyTap(plain(key)),
        _ => ActionView::KeyTap(plain(Key::Space)),
    }
}

/// The tap of a state that holds a scheduled repeat.
pub fn repeat_action(s: SideState) -> (r: Action)
    requires
        has_repeat(s),
    ensures
        r@ == repeat_tap(s),
{
    match s {
        SideState::Arrow { dir, .. } => Action::KeyTap(arrow_key(dir)),
        SideState::Stepper { key, .. } => Action::KeyTap(KeyCombo::plain(key)),
        _ => Action::KeyTap(KeyCombo::plain(Key::Space)),
    }
}

/// The state after its scheduled repeat is fired, if due at `now`.
pub fn due_next(s: SideState, now: u64) -> (r: SideState)
    ensures
        r == due_step(s, now),
{
    match s {
        SideState::Arrow { dir, next_fire, interval_ms } => {
            if now >= next_fire {
                return SideState::Arrow { dir, next_fire: now.saturating_add(interval_ms), interval_ms };
            }
        },
        SideState::Stepper { key, next_fire, interval_ms } => {
            if now >= next_fire {
                return SideState::Stepper { key, next_fire: now.saturating_add(interval_ms), interval_ms };
            }
        },
        _ => {},
    }
    s
}

} // verus!
