//! The transform editing mode: which kind of edit is active, which axis is
//! locked, and the number that is being entered by digits or dragged with
//! the pointer. Every change of the number is emitted as an edit event.
//!
//! Digits enter the number only while a kind is active and the pointer
//! does not drag; the pointer drags it only while a kind is active and the
//! pointer drags. In the idle mode neither changes anything.
//!
//! Numbers are fixed-point, in millionths (see [`UNIT`]). A step that such
//! a number cannot take is not accepted, and changes and emits nothing: a
//! digit behind the sixth place, and a step whose result does not fit an
//! `i64`.

use vstd::prelude::*;
use crate::display::KeyCode;
use crate::editor::{Axis, EditorEvent, Rotation, Vec3, UNIT};

verus! {

/// What a scroll of one line adds to the drag multiplier.
pub const LINE_STEP: i64 = 3_000;

/// What a scroll of one pixel adds to the drag multiplier.
pub const PIXEL_STEP: i64 = 250;

/// The least drag multiplier, and the one that a session starts with.
pub const MIN_MULTIPLIER: i64 = 1_000;

/// The kind of edit.
#[derive(Debug, Clone, Copy, PartialEq, Eq, Structural)]
pub enum TransformMode {
    Translate,
    Rotate,
    Scale,
}

/// The editing mode.
#[derive(Debug, Clone, Copy, PartialEq, Eq, Structural)]
pub struct EditorMode {
    /// Whether the pointer drags the number (else digits enter it).
    pub mouse: bool,
    /// The active kind of edit.
    pub transform: Option<TransformMode>,
    /// The locked axis.
    pub axis: Option<Axis>,
    /// The number of fraction digits entered, once the fraction has begun.
    pub decimal: Option<i32>,
    /// The number entered or dragged so far.
    pub value: i64,
}

/// The unit in which a scroll is measured.
#[derive(Debug, Clone, Copy, PartialEq, Eq, Structural)]
pub enum MouseScrollUnit {
    Line,
    Pixel,
}

/// One scroll of the wheel, by `y` units.
#[derive(Debug, Clone, Copy, PartialEq, Eq, Structural)]
pub struct MouseWheel {
    pub unit: MouseScrollUnit,
    pub y: i64,
}

/// One motion of the pointer, by `delta_x` pixels to the right.
#[derive(Debug, Clone, Copy, PartialEq, Eq, Structural)]
pub struct MouseMotion {
    pub delta_x: i64,
}

/// The keys that are down, and those that went down in this cycle.
#[derive(Debug)]
pub struct Input {
    pub pressed: Vec<KeyCode>,
    pub just_pressed: Vec<KeyCode>,
}

/// What the input handling keeps between cycles: the drag multiplier.
#[derive(Debug, Clone, Copy, PartialEq, Eq, Structural)]
pub struct InputSystem {
    pub multiplier: i64,
}

/// The mode in which nothing is active and the number is 0.
pub open spec fn idle() -> EditorMode {
    EditorMode { mouse: false, transform: None, axis: None, decimal: None, value: 0 }
}

/// The mode after the key of `kind` went down: the kind is active; where it
/// was active already, entry by digits and dragging change places.
pub open spec fn selected(mode: EditorMode, kind: TransformMode) -> EditorMode {
    EditorMode {
        mouse: if mode.transform == Some(kind) {
            !mode.mouse
        } else {
            mode.mouse
        },
        transform: Some(kind),
        ..mode
    }
}

/// The mode after `key` went down. `T`, `R` and `S` select a kind, `Return`
/// resets the mode, `X`, `Y` and `Z` lock an axis, `Period` begins the
/// fraction. No other key changes the mode.
pub open spec fn pressed(mode: EditorMode, key: KeyCode) -> EditorMode {
    match key {
        KeyCode::T => selected(mode, TransformMode::Translate),
        KeyCode::R => selected(mode, TransformMode::Rotate),
        KeyCode::S => selected(mode, TransformMode::Scale),
        KeyCode::Return => idle(),
        KeyCode::X => EditorMode { axis: Some(Axis::X), ..mode },
        KeyCode::Y => EditorMode { axis: Some(Axis::Y), ..mode },
        KeyCode::Z => EditorMode { axis: Some(Axis::Z), ..mode },
        KeyCode::Period => EditorMode { decimal: Some(0), ..mode },
        _ => mode,
    }
}

/// The vector with `on` at the place of `axis` and `off` at the other two
/// places; the zero vector where no axis is locked.
pub open spec fn along(axis: Option<Axis>, on: i64, off: i64) -> Vec3 {
    match axis {
        Some(Axis::X) => Vec3 { x: on, y: off, z: off },
        Some(Axis::Y) => Vec3 { x: off, y: on, z: off },
        Some(Axis::Z) => Vec3 { x: off, y: off, z: on },
        None => Vec3 { x: 0, y: 0, z: 0 },
    }
}

/// The event that a change of the number by `delta` emits in `mode`: none
/// where no kind is active; a move by `delta` along the locked axis; a turn
/// by `delta` about the locked axis; a scaling by `delta` along the locked
/// axis and by one along the other two. Where no axis is locked, the move
/// and the scaling carry the zero vector and the turn turns nothing.
pub open spec fn event_of(mode: EditorMode, delta: i64) -> Option<EditorEvent> {
    match mode.transform {
        None => None,
        Some(TransformMode::Translate) => Some(EditorEvent::Translate(along(mode.axis, delta, 0))),
        Some(TransformMode::Rotate) => Some(
            EditorEvent::Rotate(
                match mode.axis {
                    Some(axis) => Rotation { axis: Some(axis), angle: delta },
                    None => Rotation { axis: None, angle: 0 },
                },
            ),
        ),
        Some(TransformMode::Scale) => Some(EditorEvent::Scale(along(mode.axis, delta, UNIT))),
    }
}

/// Ten to the power `n`.
pub open spec fn pow10(n: nat) -> int
    decreases n,
{
    if n == 0 {
        1
    } else {
        10 * pow10((n - 1) as nat)
    }
}

/// The last place behind the point that a number in millionths has.
pub const PLACES: i32 = 6;

/// What the fraction digit `digit` at place `place` behind the point is
/// worth, in millionths: `digit` times ten to the power `-place`, for a
/// place from the first to the sixth.
pub open spec fn fraction(digit: int, place: int) -> int
    recommends
        1 <= place <= PLACES,
{
    digit * pow10((PLACES - place) as nat)
}

/// Whether `x` fits an `i64`.
pub open spec fn fits(x: int) -> bool {
    i64::MIN <= x <= i64::MAX
}

/// Whether digits enter the number: a kind is active and the pointer does
/// not drag.
pub open spec fn enters_digits(mode: EditorMode) -> bool {
    mode.transform is Some && !mode.mouse
}

/// Whether the pointer drags the number: a kind is active and the pointer
/// drags.
pub open spec fn drags(mode: EditorMode) -> bool {
    mode.transform is Some && mode.mouse
}

/// The mode and the event after the digit `digit` was entered. Before the
/// fraction has begun the number is shifted one place and the digit is
/// appended; after, the digit is added at the next place behind the point.
/// The event carries the change of the number.
///
/// The digit is not accepted, and changes and emits nothing, where digits
/// do not enter the number, where it is no digit, where its place lies
/// behind the sixth, which a number in millionths does not have, and where
/// the number would not fit.
pub open spec fn digit_entered(mode: EditorMode, digit: u8) -> (EditorMode, Option<EditorEvent>) {
    if digit > 9 || !enters_digits(mode) {
        (mode, None)
    } else {
        match mode.decimal {
            Some(count) => {
                let value = mode.value + fraction(digit as int, count + 1);
                if !(1 <= count + 1 <= PLACES) || !fits(value) {
                    (mode, None)
                } else {
                    let next = EditorMode {
                        decimal: Some((count + 1) as i32),
                        value: value as i64,
                        ..mode
                    };
                    (next, event_of(next, (value - mode.value) as i64))
                }
            },
            None => {
                let value = mode.value * 10 + digit * UNIT;
                if !fits(value) {
                    (mode, None)
                } else {
                    let next = EditorMode { value: value as i64, ..mode };
                    (next, event_of(next, (value - mode.value) as i64))
                }
            },
        }
    }
}

/// A digit or a motion that is accepted emits an event of the active kind
/// that carries the change of the number; one that is not accepted leaves
/// the mode as it was.
pub proof fn lemma_accepted_steps_emit(mode: EditorMode, digit: u8, delta_x: i64, multiplier: i64)
    ensures
        digit_entered(mode, digit).1 is None ==> digit_entered(mode, digit).0 == mode,
        digit_entered(mode, digit).1 is Some ==> enters_digits(mode) && digit_entered(
            mode,
            digit,
        ).1 == event_of(mode, (digit_entered(mode, digit).0.value - mode.value) as i64),
        dragged(mode, delta_x, multiplier).1 is None ==> dragged(mode, delta_x, multiplier).0
            == mode,
        dragged(mode, delta_x, multiplier).1 is Some ==> drags(mode) && dragged(
            mode,
            delta_x,
            multiplier,
        ).1 == event_of(mode, (dragged(mode, delta_x, multiplier).0.value - mode.value) as i64),
{
}

/// The distance of `a` from 0.
pub open spec fn magnitude(a: int) -> int {
    if a < 0 {
        -a
    } else {
        a
    }
}

/// The fixed-point product of `a` and `factor`, rounded towards 0.
pub open spec fn scaled(a: int, factor: int) -> int {
    let q = (magnitude(a) * magnitude(factor)) / (UNIT as int);
    if (a < 0) != (factor < 0) {
        -q
    } else {
        q
    }
}

/// The mode and the event after the pointer moved by `delta_x`: the number
/// changes by `delta_x` times `multiplier`, and the event carries that
/// change. The motion is not accepted, and changes and emits nothing, where
/// the pointer does not drag the number and where the number would not fit.
pub open spec fn dragged(mode: EditorMode, delta_x: i64, multiplier: i64) -> (
    EditorMode,
    Option<EditorEvent>,
) {
    let delta = scaled(delta_x as int, multiplier as int);
    let value = mode.value + delta;
    if !drags(mode) || !fits(delta) || !fits(value) {
        (mode, None)
    } else {
        let next = EditorMode { value: value as i64, ..mode };
        (next, event_of(next, delta as i64))
    }
}

/// The drag multiplier after a scroll: a line adds `LINE_STEP` and a pixel
/// `PIXEL_STEP`, each times the amount scrolled, and the multiplier does
/// not go below `MIN_MULTIPLIER`.
pub open spec fn scrolled(multiplier: i64, wheel: MouseWheel) -> i64 {
    let delta = scaled(
        wheel.y as int,
        match wheel.unit {
            MouseScrollUnit::Line => LINE_STEP as int,
            MouseScrollUnit::Pixel => PIXEL_STEP as int,
        },
    );
    let sum = multiplier + delta;
    if sum > i64::MAX {
        multiplier
    } else if sum < MIN_MULTIPLIER {
        MIN_MULTIPLIER
    } else {
        sum as i64
    }
}

/// The fixed-point product of `a` and `factor`, where it fits.
pub fn scale(a: i64, factor: i64) -> (r: Option<i64>)
    ensures
        r == if fits(scaled(a as int, factor as int)) {
            Some(scaled(a as int, factor as int) as i64)
        } else {
            None::<i64>
        },
{
    let wide_a: i128 = a as i128;
    let wide_f: i128 = factor as i128;
    let size_a: u128 = if a < 0 {
        (-wide_a) as u128
    } else {
        a as u128
    };
    let size_f: u128 = if factor < 0 {
        (-wide_f) as u128
    } else {
        factor as u128
    };
    assert(size_a == magnitude(a as int));
    assert(size_f == magnitude(factor as int));
    assert(size_a * size_f <= 0x4000_0000_0000_0000_0000_0000_0000_0000) by (nonlinear_arith)
        requires
            size_a <= 0x8000_0000_0000_0000,
            size_f <= 0x8000_0000_0000_0000,
    ;
    let q: u128 = (size_a * size_f) / 1_000_000;
    if (a < 0) != (factor < 0) {
        if q <= 0x8000_0000_0000_0000 {
            let wide: i128 = -(q as i128);
            Some(wide as i64)
        } else {
            None
        }
    } else {
        if q <= 0x7fff_ffff_ffff_ffff {
            Some(q as i64)
        } else {
            None
        }
    }
}

impl Default for EditorMode {
    fn default() -> (r: EditorMode)
        ensures
            r == idle(),
    {
        EditorMode { mouse: false, transform: None, axis: None, decimal: None, value: 0 }
    }
}

impl Default for InputSystem {
    fn default() -> (r: InputSystem)
        ensures
            r.multiplier == MIN_MULTIPLIER,
    {
        InputSystem { multiplier: MIN_MULTIPLIER }
    }
}

impl EditorMode {
    fn select(&mut self, kind: TransformMode)
        ensures
            *final(self) == selected(*old(self), kind),
    {
        let again = match self.transform {
            Some(active) => active == kind,
            None => false,
        };
        if again {
            self.mouse = !self.mouse;
        }
        self.transform = Some(kind);
    }

    /// Takes the key `key` going down.
    pub fn press(&mut self, key: KeyCode)
        ensures
            *final(self) == pressed(*old(self), key),
    {
        match key {
            KeyCode::T => self.select(TransformMode::Translate),
            KeyCode::R => self.select(TransformMode::Rotate),
            KeyCode::S => self.select(TransformMode::Scale),
            KeyCode::Return => {
                self.mouse = false;
                self.transform = None;
                self.axis = None;
                self.decimal = None;
                self.value = 0;
            },
            KeyCode::X => {
                self.axis = Some(Axis::X);
            },
            KeyCode::Y => {
                self.axis = Some(Axis::Y);
            },
            KeyCode::Z => {
                self.axis = Some(Axis::Z);
            },
            KeyCode::Period => {
                self.decimal = Some(0);
            },
            _ => {},
        }
    }

    fn along(&self, on: i64, off: i64) -> (r: Vec3)
        ensures
            r == along(self.axis, on, off),
    {
        match self.axis {
            Some(Axis::X) => Vec3 { x: on, y: off, z: off },
            Some(Axis::Y) => Vec3 { x: off, y: on, z: off },
            Some(Axis::Z) => Vec3 { x: off, y: off, z: on },
            None => Vec3 { x: 0, y: 0, z: 0 },
        }
    }

    /// The event that a change of the number by `delta` emits.
    pub fn event(&self, delta: i64) -> (r: Option<EditorEvent>)
        ensures
            r == event_of(*self, delta),
    {
        match self.transform {
            None => None,
            Some(TransformMode::Translate) => Some(EditorEvent::Translate(self.along(delta, 0))),
            Some(TransformMode::Rotate) => Some(
                EditorEvent::Rotate(
                    match self.axis {
                        Some(axis) => Rotation { axis: Some(axis), angle: delta },
                        None => Rotation { axis: None, angle: 0 },
                    },
                ),
            ),
            Some(TransformMode::Scale) => Some(EditorEvent::Scale(self.along(delta, UNIT))),
        }
    }

    /// Takes the digit `digit`, and returns the event that it emits.
    pub fn digit(&mut self, digit: u8) -> (r: Option<EditorEvent>)
        ensures
            (*final(self), r) == digit_entered(*old(self), digit),
    {
        if digit > 9 || self.mouse || self.transform.is_none() {
            return None;
        }
        let before = self.value;
        match self.decimal {
            Some(count) => {
                if count < 0 || count >= PLACES {
                    return None;
                }
                let place = count + 1;
                let worth: i64 = if place == 1 {
                    100_000
                } else if place == 2 {
                    10_000
                } else if place == 3 {
                    1_000
                } else if place == 4 {
                    100
                } else if place == 5 {
                    10
                } else {
                    1
                };
                proof {
                    reveal_with_fuel(pow10, 7);
                }
                assert(worth * digit == fraction(digit as int, place as int)) by (nonlinear_arith)
                    requires
                        fraction(digit as int, place as int) == digit * worth,
                ;
                let step = worth * (digit as i64);
                match before.checked_add(step) {
                    None => None,
                    Some(value) => {
                        self.decimal = Some(place);
                        self.value = value;
                        self.event(step)
                    },
                }
            },
            None => {
                let value: i128 = (before as i128) * 10 + (digit as i128) * (UNIT as i128);
                if value < -0x8000_0000_0000_0000 || value > 0x7fff_ffff_ffff_ffff {
                    None
                } else {
                    self.value = value as i64;
                    let delta: i128 = value - (before as i128);
                    assert(fits(delta as int));
                    self.event(delta as i64)
                }
            },
        }
    }

    /// Takes a motion of the pointer by `delta_x` under the drag multiplier
    /// `multiplier`, and returns the event that it emits.
    pub fn drag(&mut self, delta_x: i64, multiplier: i64) -> (r: Option<EditorEvent>)
        ensures
            (*final(self), r) == dragged(*old(self), delta_x, multiplier),
    {
        if !self.mouse || self.transform.is_none() {
            return None;
        }
        match scale(delta_x, multiplier) {
            None => None,
            Some(delta) => match self.value.checked_add(delta) {
                None => None,
                Some(value) => {
                    self.value = value;
                    self.event(delta)
                },
            },
        }
    }
}

impl InputSystem {
    /// Takes a scroll of the wheel.
    pub fn scroll(&mut self, wheel: MouseWheel)
        ensures
            final(self).multiplier == scrolled(old(self).multiplier, wheel),
    {
        let step = match wheel.unit {
            MouseScrollUnit::Line => LINE_STEP,
            MouseScrollUnit::Pixel => PIXEL_STEP,
        };
        match scale(wheel.y, step) {
            None => {
                assert(false) by {
                    lemma_scaled_by_step(wheel.y as int, step as int);
                }
            },
            Some(delta) => {
                let sum: i128 = (self.multiplier as i128) + (delta as i128);
                if sum > 0x7fff_ffff_ffff_ffff {
                } else if sum < (MIN_MULTIPLIER as i128) {
                    self.multiplier = MIN_MULTIPLIER;
                } else {
                    self.multiplier = sum as i64;
                }
            },
        }
    }
}

/// A product with a factor of at most one is no farther from 0 than the
/// other factor.
pub proof fn lemma_scaled_by_step(a: int, factor: int)
    requires
        -(UNIT as int) <= factor <= UNIT as int,
    ensures
        magnitude(scaled(a, factor)) <= magnitude(a),
{
    let m = magnitude(a);
    let f = magnitude(factor);
    assert(m * f <= m * 1_000_000) by (nonlinear_arith)
        requires
            0 <= m,
            0 <= f <= 1_000_000,
    ;
    assert((m * f) / 1_000_000 <= m) by (nonlinear_arith)
        requires
            0 <= m * f <= m * 1_000_000,
    ;
    assert(0 <= (m * f) / 1_000_000) by (nonlinear_arith)
        requires
            0 <= m,
            0 <= f,
    ;
}

/// The mode after `key`, where it is among the keys `struck`.
pub open spec fn struck_key(mode: EditorMode, struck: Seq<KeyCode>, key: KeyCode) -> EditorMode {
    if struck.contains(key) {
        pressed(mode, key)
    } else {
        mode
    }
}

/// The mode after the keys that went down in one cycle. The keys are taken
/// in a fixed order, whatever the order they went down in: the three kinds,
/// the reset, the three axes, the point.
pub open spec fn after_keys(mode: EditorMode, struck: Seq<KeyCode>) -> EditorMode {
    let mode = struck_key(mode, struck, KeyCode::T);
    let mode = struck_key(mode, struck, KeyCode::R);
    let mode = struck_key(mode, struck, KeyCode::S);
    let mode = struck_key(mode, struck, KeyCode::Return);
    let mode = struck_key(mode, struck, KeyCode::X);
    let mode = struck_key(mode, struck, KeyCode::Y);
    let mode = struck_key(mode, struck, KeyCode::Z);
    struck_key(mode, struck, KeyCode::Period)
}

/// A mode and the events emitted on the way to it.
pub struct Progress {
    pub mode: EditorMode,
    pub events: Seq<EditorEvent>,
}

/// `so_far` with one more step taken: the mode that the step gave, and its
/// event, if it emitted one, behind the others.
pub open spec fn advanced(so_far: Progress, step: (EditorMode, Option<EditorEvent>)) -> Progress {
    Progress {
        mode: step.0,
        events: match step.1 {
            Some(event) => so_far.events.push(event),
            None => so_far.events,
        },
    }
}

/// `so_far` after the digit `digit`, where its key `key` is among the keys
/// `struck`.
pub open spec fn struck_digit(so_far: Progress, struck: Seq<KeyCode>, key: KeyCode, digit: u8) -> Progress {
    if struck.contains(key) {
        advanced(so_far, digit_entered(so_far.mode, digit))
    } else {
        so_far
    }
}

/// The mode and the events after the digit keys that went down in one
/// cycle. The digits are taken in the order 1 to 9 and then 0, whatever the
/// order their keys went down in.
pub open spec fn after_digits(mode: EditorMode, struck: Seq<KeyCode>) -> Progress {
    let p = Progress { mode, events: Seq::empty() };
    let p = struck_digit(p, struck, KeyCode::Key1, 1);
    let p = struck_digit(p, struck, KeyCode::Key2, 2);
    let p = struck_digit(p, struck, KeyCode::Key3, 3);
    let p = struck_digit(p, struck, KeyCode::Key4, 4);
    let p = struck_digit(p, struck, KeyCode::Key5, 5);
    let p = struck_digit(p, struck, KeyCode::Key6, 6);
    let p = struck_digit(p, struck, KeyCode::Key7, 7);
    let p = struck_digit(p, struck, KeyCode::Key8, 8);
    let p = struck_digit(p, struck, KeyCode::Key9, 9);
    struck_digit(p, struck, KeyCode::Key0, 0)
}

/// The drag multiplier after the scrolls of one cycle, in order.
pub open spec fn after_wheel(multiplier: i64, wheel: Seq<MouseWheel>) -> i64
    decreases wheel.len(),
{
    if wheel.len() == 0 {
        multiplier
    } else {
        scrolled(after_wheel(multiplier, wheel.drop_last()), wheel.last())
    }
}

/// The mode and the events after the pointer motions of one cycle, in
/// order.
pub open spec fn after_motion(mode: EditorMode, multiplier: i64, motion: Seq<MouseMotion>) -> Progress
    decreases motion.len(),
{
    if motion.len() == 0 {
        Progress { mode, events: Seq::empty() }
    } else {
        let so_far = after_motion(mode, multiplier, motion.drop_last());
        advanced(so_far, dragged(so_far.mode, motion.last().delta_x, multiplier))
    }
}

/// What one cycle of input gives.
pub struct Cycle {
    pub state: InputSystem,
    pub mode: EditorMode,
    pub events: Seq<EditorEvent>,
}

/// What one cycle of input gives: first the keys change the mode. Then,
/// where the pointer drags, the scrolls change the drag multiplier and the
/// pointer motions change the number; where digits are entered, the digit
/// keys change the number, and scrolls and motions are not looked at.
pub open spec fn cycle(
    state: InputSystem,
    mode: EditorMode,
    struck: Seq<KeyCode>,
    wheel: Seq<MouseWheel>,
    motion: Seq<MouseMotion>,
) -> Cycle {
    let mode = after_keys(mode, struck);
    if mode.mouse {
        let multiplier = after_wheel(state.multiplier, wheel);
        let progress = after_motion(mode, multiplier, motion);
        Cycle { state: InputSystem { multiplier }, mode: progress.mode, events: progress.events }
    } else {
        let progress = after_digits(mode, struck);
        Cycle { state, mode: progress.mode, events: progress.events }
    }
}

/// Whether `key` is among `keys`.
fn holds(keys: &Vec<KeyCode>, key: KeyCode) -> (r: bool)
    ensures
        r == keys@.contains(key),
{
    let mut i: usize = 0;
    while i < keys.len()
        invariant
            i <= keys.len(),
            forall|k: int| 0 <= k < i ==> keys[k] != key,
        decreases keys.len() - i,
    {
        if keys[i] == key {
            return true;
        }
        i += 1;
    }
    false
}

impl Input {
    /// Whether `key` is down.
    pub fn pressed(&self, key: KeyCode) -> (r: bool)
        ensures
            r == self.pressed@.contains(key),
    {
        holds(&self.pressed, key)
    }

    /// Whether `key` went down in this cycle.
    pub fn just_pressed(&self, key: KeyCode) -> (r: bool)
        ensures
            r == self.just_pressed@.contains(key),
    {
        holds(&self.just_pressed, key)
    }
}

fn strike(mode: &mut EditorMode, input: &Input, key: KeyCode)
    ensures
        *final(mode) == struck_key(*old(mode), input.just_pressed@, key),
{
    if input.just_pressed(key) {
        mode.press(key);
    }
}

fn strike_digit(
    mode: &mut EditorMode,
    events: &mut Vec<EditorEvent>,
    input: &Input,
    key: KeyCode,
    digit: u8,
)
    ensures
        (Progress { mode: *final(mode), events: final(events)@ }) == struck_digit(
            Progress { mode: *old(mode), events: old(events)@ },
            input.just_pressed@,
            key,
            digit,
        ),
{
    if input.just_pressed(key) {
        match mode.digit(digit) {
            Some(event) => {
                events.push(event);
            },
            None => {},
        }
    }
}

fn strike_keys(mode: &mut EditorMode, input: &Input)
    ensures
        *final(mode) == after_keys(*old(mode), input.just_pressed@),
{
    strike(mode, input, KeyCode::T);
    strike(mode, input, KeyCode::R);
    strike(mode, input, KeyCode::S);
    strike(mode, input, KeyCode::Return);
    strike(mode, input, KeyCode::X);
    strike(mode, input, KeyCode::Y);
    strike(mode, input, KeyCode::Z);
    strike(mode, input, KeyCode::Period);
}

fn strike_digits(mode: &mut EditorMode, input: &Input) -> (events: Vec<EditorEvent>)
    ensures
        (Progress { mode: *final(mode), events: events@ }) == after_digits(
            *old(mode),
            input.just_pressed@,
        ),
{
    let mut events: Vec<EditorEvent> = Vec::new();
    assert(events@ =~= Seq::empty());
    strike_digit(mode, &mut events, input, KeyCode::Key1, 1);
    strike_digit(mode, &mut events, input, KeyCode::Key2, 2);
    strike_digit(mode, &mut events, input, KeyCode::Key3, 3);
    strike_digit(mode, &mut events, input, KeyCode::Key4, 4);
    strike_digit(mode, &mut events, input, KeyCode::Key5, 5);
    strike_digit(mode, &mut events, input, KeyCode::Key6, 6);
    strike_digit(mode, &mut events, input, KeyCode::Key7, 7);
    strike_digit(mode, &mut events, input, KeyCode::Key8, 8);
    strike_digit(mode, &mut events, input, KeyCode::Key9, 9);
    strike_digit(mode, &mut events, input, KeyCode::Key0, 0);
    events
}

fn scroll_all(state: &mut InputSystem, wheel: &Vec<MouseWheel>)
    ensures
        final(state).multiplier == after_wheel(old(state).multiplier, wheel@),
{
    let mut i: usize = 0;
    assert(wheel@.take(0) =~= Seq::empty());
    while i < wheel.len()
        invariant
            i <= wheel.len(),
            state.multiplier == after_wheel(old(state).multiplier, wheel@.take(i as int)),
        decreases wheel.len() - i,
    {
        assert(wheel@.take(i + 1).drop_last() =~= wheel@.take(i as int));
        state.scroll(wheel[i]);
        i += 1;
    }
    assert(wheel@.take(wheel.len() as int) =~= wheel@);
}

fn drag_all(mode: &mut EditorMode, multiplier: i64, motion: &Vec<MouseMotion>) -> (events: Vec<
    EditorEvent,
>)
    ensures
        (Progress { mode: *final(mode), events: events@ }) == after_motion(
            *old(mode),
            multiplier,
            motion@,
        ),
{
    let mut events: Vec<EditorEvent> = Vec::new();
    let mut j: usize = 0;
    assert(motion@.take(0) =~= Seq::empty());
    assert(events@ =~= Seq::empty());
    while j < motion.len()
        invariant
            j <= motion.len(),
            (Progress { mode: *mode, events: events@ }) == after_motion(
                *old(mode),
                multiplier,
                motion@.take(j as int),
            ),
        decreases motion.len() - j,
    {
        assert(motion@.take(j + 1).drop_last() =~= motion@.take(j as int));
        match mode.drag(motion[j].delta_x, multiplier) {
            Some(event) => {
                events.push(event);
            },
            None => {},
        }
        j += 1;
    }
    assert(motion@.take(motion.len() as int) =~= motion@);
    events
}

/// Takes the input of one cycle: changes the mode and the drag multiplier,
/// and returns the edit events emitted, in order.
pub fn input_system(
    state: &mut InputSystem,
    mode: &mut EditorMode,
    input: &Input,
    wheel: &Vec<MouseWheel>,
    motion: &Vec<MouseMotion>,
) -> (events: Vec<EditorEvent>)
    ensures
        (Cycle { state: *final(state), mode: *final(mode), events: events@ }) == cycle(
            *old(state),
            *old(mode),
            input.just_pressed@,
            wheel@,
            motion@,
        ),
{
    strike_keys(mode, input);
    if mode.mouse {
        scroll_all(state, wheel);
        drag_all(mode, state.multiplier, motion)
    } else {
        strike_digits(mode, input)
    }
}

} // verus!
