use vstd::prelude::*;

use crate::animate::Animate;
use crate::picture::Picture;
use crate::sprite::{entries_map, ClipDesc, Rect, SpriteSheet};

verus! {

/// Movement speed of the character, in world units per second.
pub const SPEED: i32 = 2;

/// Number of frames of each idle animation.
pub const IDLE_FRAMES: u32 = 4;

/// Number of frames of each running animation.
pub const RUNNING_FRAMES: u32 = 6;

/// Number of state keys of the character's state machine.
pub const STATE_COUNT: u32 = 4;

/// Number of input keys of the character's state machine.
pub const INPUT_COUNT: u32 = 3;

/// The animation states of the character, keyed `0..4` in declaration order.
#[derive(Debug, Clone, Copy, PartialEq, Eq, Hash, Structural)]
pub enum CharacterState {
    IdleLeft,
    IdleRight,
    RunningLeft,
    RunningRight,
}

/// The inputs of the character's state machine, keyed `0..3` in declaration order.
#[derive(Debug, Clone, Copy, PartialEq, Eq, Structural)]
pub enum CharacterInput {
    Left,
    Right,
    Interrupt,
}

/// A linear velocity in world units per second.
#[derive(Debug, Clone, Copy, PartialEq, Eq, Structural)]
pub struct Velocity {
    pub x: i32,
    pub y: i32,
}

/// The numeric key of a state.
pub open spec fn state_key(s: CharacterState) -> u32 {
    match s {
        CharacterState::IdleLeft => 0,
        CharacterState::IdleRight => 1,
        CharacterState::RunningLeft => 2,
        CharacterState::RunningRight => 3,
    }
}

/// The state with a given key (meaningful for keys below `STATE_COUNT`).
pub open spec fn state_of(k: u32) -> CharacterState {
    if k == 0 {
        CharacterState::IdleLeft
    } else if k == 1 {
        CharacterState::IdleRight
    } else if k == 2 {
        CharacterState::RunningLeft
    } else {
        CharacterState::RunningRight
    }
}

/// The numeric key of an input.
pub open spec fn input_key(i: CharacterInput) -> u32 {
    match i {
        CharacterInput::Left => 0,
        CharacterInput::Right => 1,
        CharacterInput::Interrupt => 2,
    }
}

/// The input with a given key (meaningful for keys below `INPUT_COUNT`).
pub open spec fn input_of(k: u32) -> CharacterInput {
    if k == 0 {
        CharacterInput::Left
    } else if k == 1 {
        CharacterInput::Right
    } else {
        CharacterInput::Interrupt
    }
}

/// The transition table: a direction key starts running that way; an interrupt
/// brings a running character to rest facing the same way and leaves idle ones alone.
pub open spec fn next_state(s: CharacterState, i: CharacterInput) -> CharacterState {
    match i {
        CharacterInput::Left => CharacterState::RunningLeft,
        CharacterInput::Right => CharacterState::RunningRight,
        CharacterInput::Interrupt => match s {
            CharacterState::RunningLeft => CharacterState::IdleLeft,
            CharacterState::RunningRight => CharacterState::IdleRight,
            _ => s,
        },
    }
}

/// `next_state` over numeric keys.
pub open spec fn delta_spec(state: u32, input: u32) -> u32 {
    state_key(next_state(state_of(state), input_of(input)))
}

/// How many frames the animation of a state has.
pub open spec fn frames_in(state: u32) -> u32 {
    if state == 0 || state == 1 {
        IDLE_FRAMES
    } else {
        RUNNING_FRAMES
    }
}

/// The velocity the character is given in a state.
pub open spec fn velocity_in(state: u32) -> Velocity {
    if state == 2 {
        Velocity { x: (-SPEED) as i32, y: 0 }
    } else if state == 3 {
        Velocity { x: SPEED, y: 0 }
    } else {
        Velocity { x: 0, y: 0 }
    }
}

impl CharacterState {
    pub fn from_u32(n: u32) -> (r: Option<Self>)
        ensures
            n < STATE_COUNT <==> r.is_some(),
            n < STATE_COUNT ==> r == Some(state_of(n)),
    {
        match n {
            0 => Some(CharacterState::IdleLeft),
            1 => Some(CharacterState::IdleRight),
            2 => Some(CharacterState::RunningLeft),
            3 => Some(CharacterState::RunningRight),
            _ => None,
        }
    }

    pub fn from_i64(n: i64) -> (r: Option<Self>)
        ensures
            0 <= n < STATE_COUNT <==> r.is_some(),
            0 <= n < STATE_COUNT ==> r == Some(state_of(n as u32)),
    {
        match n {
            0 => Some(CharacterState::IdleLeft),
            1 => Some(CharacterState::IdleRight),
            2 => Some(CharacterState::RunningLeft),
            3 => Some(CharacterState::RunningRight),
            _ => None,
        }
    }

    pub fn from_u64(n: u64) -> (r: Option<Self>)
        ensures
            n < STATE_COUNT <==> r.is_some(),
            n < STATE_COUNT ==> r == Some(state_of(n as u32)),
    {
        match n {
            0 => Some(CharacterState::IdleLeft),
            1 => Some(CharacterState::IdleRight),
            2 => Some(CharacterState::RunningLeft),
            3 => Some(CharacterState::RunningRight),
            _ => None,
        }
    }

    /// The numeric key of this state.
    pub fn as_(self) -> (r: u32)
        ensures
            r == state_key(self),
            r < STATE_COUNT,
    {
        match self {
            CharacterState::IdleLeft => 0,
            CharacterState::IdleRight => 1,
            CharacterState::RunningLeft => 2,
            CharacterState::RunningRight => 3,
        }
    }
}

impl CharacterInput {
    pub fn from_u32(n: u32) -> (r: Option<Self>)
        ensures
            n < INPUT_COUNT <==> r.is_some(),
            n < INPUT_COUNT ==> r == Some(input_of(n)),
    {
        match n {
            0 => Some(CharacterInput::Left),
            1 => Some(CharacterInput::Right),
            2 => Some(CharacterInput::Interrupt),
            _ => None,
        }
    }

    pub fn from_i64(n: i64) -> (r: Option<Self>)
        ensures
            0 <= n < INPUT_COUNT <==> r.is_some(),
            0 <= n < INPUT_COUNT ==> r == Some(input_of(n as u32)),
    {
        match n {
            0 => Some(CharacterInput::Left),
            1 => Some(CharacterInput::Right),
            2 => Some(CharacterInput::Interrupt),
            _ => None,
        }
    }

    pub fn from_u64(n: u64) -> (r: Option<Self>)
        ensures
            n < INPUT_COUNT <==> r.is_some(),
            n < INPUT_COUNT ==> r == Some(input_of(n as u32)),
    {
        match n {
            0 => Some(CharacterInput::Left),
            1 => Some(CharacterInput::Right),
            2 => Some(CharacterInput::Interrupt),
            _ => None,
        }
    }

    /// The numeric key of this input.
    pub fn as_(self) -> (r: u32)
        ensures
            r == input_key(self),
            r < INPUT_COUNT,
    {
        match self {
            CharacterInput::Left => 0,
            CharacterInput::Right => 1,
            CharacterInput::Interrupt => 2,
        }
    }
}

/// The character's transition function over numeric state and input keys.
pub fn delta(state: u32, input: u32) -> (r: u32)
    requires
        state < STATE_COUNT,
        input < INPUT_COUNT,
    ensures
        r == delta_spec(state, input),
        r < STATE_COUNT,
{
    let s = CharacterState::from_u32(state).unwrap();
    let i = CharacterInput::from_u32(input).unwrap();
    let next = match (s, i) {
        (_, CharacterInput::Left) => CharacterState::RunningLeft,
        (_, CharacterInput::Right) => CharacterState::RunningRight,
        (CharacterState::RunningLeft, CharacterInput::Interrupt) => CharacterState::IdleLeft,
        (CharacterState::RunningRight, CharacterInput::Interrupt) => CharacterState::IdleRight,
        (CharacterState::IdleLeft, CharacterInput::Interrupt) => CharacterState::IdleLeft,
        (CharacterState::IdleRight, CharacterInput::Interrupt) => CharacterState::IdleRight,
    };
    next.as_()
}

/// The number of animation frames of a state.
pub fn frames(state: u32) -> (r: u32)
    ensures
        r == frames_in(state),
        r > 0,
{
    if state == 0 || state == 1 {
        IDLE_FRAMES
    } else {
        RUNNING_FRAMES
    }
}

/// The character's per-tick step: returns the velocity command for its body and
/// advances the frame counter modulo the frame count of the current state.
pub fn animate(anim: &mut Animate) -> (v: Velocity)
    requires
        old(anim).wf(),
    ensures
        final(anim).wf(),
        final(anim).state == old(anim).state,
        final(anim).ticks == (old(anim).ticks + 1) % (frames_in(old(anim).state) as int),
        old(anim).ticks + 1 == frames_in(old(anim).state) ==> final(anim).ticks == 0,
        old(anim).ticks + 1 < frames_in(old(anim).state) ==> final(anim).ticks == old(anim).ticks + 1,
        v == velocity_in(old(anim).state),
{
    let state = anim.state;
    let (num_frames, velocity) = match CharacterState::from_u32(state).unwrap() {
        CharacterState::IdleLeft | CharacterState::IdleRight => (IDLE_FRAMES, Velocity { x: 0, y: 0 }),
        CharacterState::RunningLeft => (RUNNING_FRAMES, Velocity { x: -SPEED, y: 0 }),
        CharacterState::RunningRight => (RUNNING_FRAMES, Velocity { x: SPEED, y: 0 }),
    };
    anim.ticks = (anim.ticks + 1) % num_frames;
    velocity
}

/// A key of the keyboard, as far as the character cares.
#[derive(Debug, Clone, Copy, PartialEq, Eq, Structural)]
pub enum Keycode {
    Left,
    Right,
    Other,
}

/// Whether a key went down or up.
#[derive(Debug, Clone, Copy, PartialEq, Eq, Structural)]
pub enum ElementState {
    Pressed,
    Released,
}

/// The input a raw key event delivers to the controlled character, if any.
pub open spec fn routed_input(keycode: Option<Keycode>, key_state: ElementState) -> Option<CharacterInput> {
    match keycode {
        Some(k) => if key_state == ElementState::Released {
            Some(CharacterInput::Interrupt)
        } else if k == Keycode::Left {
            Some(CharacterInput::Left)
        } else if k == Keycode::Right {
            Some(CharacterInput::Right)
        } else {
            None
        },
        None => None,
    }
}

/// Routes one key event to the controlled character: a released key interrupts,
/// a pressed arrow key starts running that way, everything else is ignored.
pub fn process(keycode: Option<Keycode>, key_state: &ElementState, controlled_character: &mut Animate)
    requires
        old(controlled_character).wf(),
    ensures
        final(controlled_character).wf(),
        match routed_input(keycode, *key_state) {
            Some(i) => *final(controlled_character) == old(controlled_character).after_input(input_key(i)),
            None => *final(controlled_character) == *old(controlled_character),
        },
{
    match (keycode, key_state) {
        (Some(_), ElementState::Released) => {
            controlled_character.delta(CharacterInput::Interrupt.as_());
            controlled_character.ticks = 0;
        },
        (Some(Keycode::Left), _) => controlled_character.delta(CharacterInput::Left.as_()),
        (Some(Keycode::Right), _) => controlled_character.delta(CharacterInput::Right.as_()),
        _ => {},
    }
}

/// Every state and input has a successor, and that successor is a state again.
pub proof fn lemma_delta_total(state: u32, input: u32)
    requires
        state < STATE_COUNT,
        input < INPUT_COUNT,
    ensures
        delta_spec(state, input) < STATE_COUNT,
        frames_in(delta_spec(state, input)) > 0,
{
}

/// Columns of frames in the character's sprite sheet image.
pub const SHEET_COLUMNS: u32 = 7;

/// Rows of frames in the character's sprite sheet image.
pub const SHEET_ROWS: u32 = 11;

/// Where frame `i` of state `k` lies in a sheet of `w` by `h` pixel cells: the
/// idle frames are the first four cells of the top row, the running frames
/// cells one to six of the second row; the left-facing states are mirrored,
/// and every frame has its margin trimmed.
pub open spec fn character_frame(k: u32, i: int, w: u32, h: u32) -> ClipDesc {
    ClipDesc {
        rect: Rect {
            x: (if k < 2 { i * w } else { (i + 1) * w }) as u32,
            y: if k < 2 { 0 } else { h },
            w,
            h,
        },
        is_flipped: k == 0 || k == 2,
        squeeze: true,
    }
}

/// The sheet has, for every state key, at least as many clips as that state has frames.
pub open spec fn covers_character(sheet: SpriteSheet) -> bool {
    forall|k: u32| k < STATE_COUNT ==> #[trigger] sheet.has_frames(k, frames_in(k) as nat)
}

/// The state reached from `state` by taking the inputs in order.
pub open spec fn run(state: u32, inputs: Seq<u32>) -> u32
    decreases inputs.len(),
{
    if inputs.len() == 0 {
        state
    } else {
        delta_spec(run(state, inputs.drop_last()), inputs.last())
    }
}

proof fn lemma_entries_by_index(es: Seq<(u32, Vec<ClipDesc>)>)
    requires
        forall|j: int| 0 <= j < es.len() ==> (#[trigger] es[j]).0 == j,
    ensures
        forall|k: u32| k < es.len() ==> #[trigger] entries_map(es).contains_key(k) && entries_map(es)[k] == es[k as int].1@,
        forall|k: u32| #[trigger] entries_map(es).contains_key(k) ==> k < es.len(),
    decreases es.len(),
{
    if es.len() > 0 {
        let d = es.drop_last();
        assert forall|j: int| 0 <= j < d.len() implies (#[trigger] d[j]).0 == j by {
            assert(d[j] == es[j]);
        }
        lemma_entries_by_index(d);
        let last = es[es.len() - 1];
        assert(es.last() == last);
        assert(last.0 == es.len() - 1);
        assert(entries_map(es) == entries_map(d).insert(last.0, last.1@));
        assert forall|k: u32| k < es.len() implies #[trigger] entries_map(es).contains_key(k) && entries_map(es)[k] == es[k as int].1@ by {
            if k < d.len() {
                assert(d[k as int] == es[k as int]);
            }
        }
    }
}

/// The character's sprite sheet cut from its sheet image, which holds the
/// frames in a grid of seven columns and eleven rows of equal cells.
pub fn source(image: &Picture) -> (r: SpriteSheet)
    requires
        image.wf(),
    ensures
        r.wf(),
        covers_character(r),
        forall|k: u32| #[trigger] r.clips@.contains_key(k) <==> k < STATE_COUNT,
        forall|k: u32| k < STATE_COUNT ==> (#[trigger] r.clips@[k])@.len() == frames_in(k),
        forall|k: u32, i: int|
            k < STATE_COUNT && 0 <= i < frames_in(k) ==> (#[trigger] r.clips@[k]@[i]).made_from(
                image.grid(),
                character_frame(k, i, image.width / SHEET_COLUMNS, image.height / SHEET_ROWS),
            ),
{
    let w = image.width / SHEET_COLUMNS;
    let h = image.height / SHEET_ROWS;
    let mut clip_map: Vec<(u32, Vec<ClipDesc>)> = Vec::new();
    let mut k: u32 = 0;
    while k < STATE_COUNT
        invariant
            image.wf(),
            w == image.width / SHEET_COLUMNS,
            h == image.height / SHEET_ROWS,
            k <= STATE_COUNT,
            clip_map@.len() == k,
            forall|j: int| 0 <= j < k ==> (#[trigger] clip_map@[j]).0 == j,
            forall|j: int| 0 <= j < k ==> (#[trigger] clip_map@[j]).1@.len() == frames_in(j as u32),
            forall|j: int, i: int|
                0 <= j < k && 0 <= i < clip_map@[j].1@.len() ==> #[trigger] clip_map@[j].1@[i]
                    == character_frame(j as u32, i, w, h),
        decreases STATE_COUNT - k,
    {
        let n = frames(k);
        let mut descs: Vec<ClipDesc> = Vec::new();
        let mut i: u32 = 0;
        while i < n
            invariant
                w == image.width / SHEET_COLUMNS,
                h == image.height / SHEET_ROWS,
                k < STATE_COUNT,
                n == frames_in(k),
                i <= n,
                descs@.len() == i,
                forall|m: int| 0 <= m < i ==> #[trigger] descs@[m] == character_frame(k, m, w, h),
            decreases n - i,
        {
            let col: u32 = if k < 2 { i } else { i + 1 };
            assert(col * w <= 7 * w) by (nonlinear_arith)
                requires col <= 7;
            assert(7 * w <= image.width) by (nonlinear_arith)
                requires w == image.width / 7;
            let x = col * w;
            let y = if k < 2 { 0 } else { h };
            descs.push(ClipDesc { rect: Rect { x, y, w, h }, is_flipped: k == 0 || k == 2, squeeze: true });
            i = i + 1;
        }
        clip_map.push((k, descs));
        k = k + 1;
    }
    proof {
        lemma_entries_by_index(clip_map@);
        assert forall|e: int, i: int|
            0 <= e < clip_map@.len() && 0 <= i < clip_map@[e].1@.len() implies crate::sprite::rect_inside(
            (#[trigger] clip_map@[e].1@[i]).rect,
            image.width as nat,
            image.height as nat,
        ) by {
            let d = clip_map@[e].1@[i];
            assert(d == character_frame(e as u32, i, w, h));
            let col: int = if e < 2 { i } else { i + 1 };
            assert(col <= 6);
            assert((col + 1) * w <= 7 * w) by (nonlinear_arith)
                requires col + 1 <= 7;
            assert(7 * w <= image.width) by (nonlinear_arith)
                requires w == image.width / 7;
            assert(11 * h <= image.height) by (nonlinear_arith)
                requires h == image.height / 11;
            assert(col * w + w == (col + 1) * w) by (nonlinear_arith);
        }
    }
    let sheet = SpriteSheet::from_desc(image, &clip_map).unwrap();
    assert forall|k: u32| k < STATE_COUNT implies (#[trigger] sheet.clips@[k])@.len() == frames_in(k) by {
        assert(sheet.clips@.contains_key(k));
        assert(entries_map(clip_map@)[k] == clip_map@[k as int].1@);
    }
    assert forall|k: u32| k < STATE_COUNT implies #[trigger] sheet.has_frames(k, frames_in(k) as nat) by {
        assert(sheet.clips@.contains_key(k));
    }
    sheet
}

/// Whether the sheet holds, for every state key, a clip for each frame of
/// that state.
pub fn sheet_covers_character(sheet: &SpriteSheet) -> (r: bool)
    ensures
        r == covers_character(*sheet),
{
    broadcast use vstd::std_specs::hash::group_hash_axioms;

    let mut k: u32 = 0;
    while k < STATE_COUNT
        invariant
            k <= STATE_COUNT,
            forall|j: u32| j < k ==> #[trigger] sheet.has_frames(j, frames_in(j) as nat),
        decreases STATE_COUNT - k,
    {
        match sheet.clips.get(&k) {
            Some(clips) => {
                if clips.len() < frames(k) as usize {
                    assert(!sheet.has_frames(k, frames_in(k) as nat));
                    return false;
                }
            },
            None => {
                assert(!sheet.has_frames(k, frames_in(k) as nat));
                return false;
            },
        }
        k = k + 1;
    }
    true
}

/// Every state that the character's state machine reaches from a valid state,
/// whatever valid inputs it is given, is a valid state, and a sheet that covers
/// the character holds a clip for each of its frames.
pub proof fn lemma_reachable_covered(sheet: SpriteSheet, state: u32, inputs: Seq<u32>)
    requires
        covers_character(sheet),
        state < STATE_COUNT,
        forall|j: int| 0 <= j < inputs.len() ==> #[trigger] inputs[j] < INPUT_COUNT,
    ensures
        run(state, inputs) < STATE_COUNT,
        frames_in(run(state, inputs)) <= sheet.clips@[run(state, inputs)]@.len(),
        sheet.clips@.contains_key(run(state, inputs)),
    decreases inputs.len(),
{
    if inputs.len() > 0 {
        let d = inputs.drop_last();
        assert forall|j: int| 0 <= j < d.len() implies #[trigger] d[j] < INPUT_COUNT by {
            assert(d[j] == inputs[j]);
        }
        lemma_reachable_covered(sheet, state, d);
        lemma_delta_total(run(state, d), inputs.last());
    }
    assert(sheet.has_frames(run(state, inputs), frames_in(run(state, inputs)) as nat));
}

} // verus!
