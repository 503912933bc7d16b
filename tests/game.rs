use sidescroller::animate::Animate;
use sidescroller::character::{
    animate, delta, frames, process, sheet_covers_character, source, CharacterInput, CharacterState, ElementState, Keycode, Velocity,
};
use sidescroller::level::{Level, BALL_COUNT};
use sidescroller::picture::{Picture, Rgba};
use sidescroller::sprite::{Clip, ClipDesc, Rect, SpriteSheet};
use sidescroller::utils::from_out_dir;
use sidescroller::world::{
    animate_entities, is_tick_due, physics_substeps, render_entities, route_input, run_frame, DeltaTime,
    DrawCommand, Drawing, Entity, KeyEvent, VelocityCommand, World, TICK_NANOS,
};
use std::collections::HashMap;

const CLEAR: Rgba = Rgba { r: 0, g: 0, b: 0, a: 0 };
const INK: Rgba = Rgba { r: 10, g: 20, b: 30, a: 255 };

fn blank(w: u32, h: u32) -> Picture {
    let rows = vec![vec![CLEAR; w as usize]; h as usize];
    Picture::from_rows(w, rows).unwrap()
}

/// A `w` by `h` picture whose pixels are opaque exactly inside the given box.
fn with_box(w: u32, h: u32, x0: u32, y0: u32, x1: u32, y1: u32) -> Picture {
    let mut rows = Vec::new();
    for y in 0..h {
        let mut row = Vec::new();
        for x in 0..w {
            if x >= x0 && x < x1 && y >= y0 && y < y1 {
                row.push(Rgba { r: x as u8, g: y as u8, b: 1, a: 200 });
            } else {
                row.push(CLEAR);
            }
        }
        rows.push(row);
    }
    Picture::from_rows(w, rows).unwrap()
}

/// A picture whose every pixel is different, with alpha set.
fn numbered(w: u32, h: u32) -> Picture {
    let mut rows = Vec::new();
    for y in 0..h {
        let mut row = Vec::new();
        for x in 0..w {
            row.push(Rgba { r: x as u8, g: y as u8, b: 0, a: 255 });
        }
        rows.push(row);
    }
    Picture::from_rows(w, rows).unwrap()
}

fn same_picture(a: &Picture, b: &Picture) -> bool {
    a.width == b.width && a.height == b.height && a.rows == b.rows
}

fn character_world(state: u32) -> World {
    let mut world = World::new();
    world.push(Entity { body: 7, drawing: Drawing::Primitive, animation: None, controlled: false });
    world.push(Entity {
        body: 9,
        drawing: Drawing::Sprite(0),
        animation: Some(Animate::new(state)),
        controlled: true,
    });
    world
}

fn press(k: Keycode) -> KeyEvent {
    KeyEvent { keycode: Some(k), state: ElementState::Pressed }
}

fn release(k: Keycode) -> KeyEvent {
    KeyEvent { keycode: Some(k), state: ElementState::Released }
}

fn anim_of(world: &World, i: usize) -> Animate {
    world.entities[i].animation.unwrap()
}

#[test]
fn idle_right_then_left_runs_left_on_next_tick() {
    let mut anim = Animate::new(CharacterState::IdleRight.as_());
    process(Some(Keycode::Left), &ElementState::Pressed, &mut anim);
    let v = animate(&mut anim);
    assert_eq!(v, Velocity { x: -2, y: 0 });
    assert_eq!(anim.state(), CharacterState::RunningLeft);

    let mut world = character_world(1);
    let mut time = DeltaTime::default();
    let plan = run_frame(&mut world, &mut time, &vec![press(Keycode::Left)], TICK_NANOS, 2);
    assert_eq!(plan.velocities, vec![VelocityCommand { body: 9, velocity: Velocity { x: -2, y: 0 } }]);
    assert_eq!(anim_of(&world, 1).state, 2);
}

#[test]
fn interrupt_while_running_right_rests_facing_right() {
    let mut anim = Animate { state: 3, ticks: 5 };
    process(Some(Keycode::Right), &ElementState::Released, &mut anim);
    assert_eq!(anim.state(), CharacterState::IdleRight);
    assert_eq!(anim.ticks, 0);
    let v = animate(&mut anim);
    assert_eq!(anim.ticks, 1);
    assert_eq!(v, Velocity { x: 0, y: 0 });
}

#[test]
fn six_ticks_running_left_wrap_around() {
    let mut anim = Animate::new(2);
    let mut seen = Vec::new();
    for _ in 0..6 {
        let v = animate(&mut anim);
        assert_eq!(v, Velocity { x: -2, y: 0 });
        seen.push(anim.ticks);
    }
    assert_eq!(seen, vec![1, 2, 3, 4, 5, 0]);
}

#[test]
fn squeeze_of_fully_transparent_keeps_ten_by_ten() {
    let img = blank(10, 10);
    let rect = Rect { x: 0, y: 0, w: 10, h: 10 };
    let a = Clip::new(&img, rect, false, true).unwrap();
    let b = Clip::new(&img, rect, false, true).unwrap();
    assert_eq!(a.image.width, 10);
    assert_eq!(a.image.height, 10);
    assert_eq!(a.width_over_height, (10, 10));
    assert!(same_picture(&a.image, &b.image));
}

#[test]
fn character_sheet_has_four_states_with_frame_counts() {
    let img = numbered(70, 110);
    let sheet = source(&img);
    let mut keys: Vec<u32> = sheet.clips.keys().copied().collect();
    keys.sort();
    assert_eq!(keys, vec![0, 1, 2, 3]);
    let counts: Vec<usize> = (0..4).map(|k| sheet.clips[&k].len()).collect();
    assert_eq!(counts, vec![4, 4, 6, 6]);
    assert!(sheet_covers_character(&sheet));
}

#[test]
fn sheet_missing_a_running_frame_does_not_cover() {
    let img = numbered(8, 4);
    let d = ClipDesc { rect: Rect { x: 0, y: 0, w: 2, h: 4 }, is_flipped: false, squeeze: false };
    let map = vec![(0u32, vec![d; 4]), (1u32, vec![d; 4]), (2u32, vec![d; 6]), (3u32, vec![d; 5])];
    let sheet = SpriteSheet::from_desc(&img, &map).unwrap();
    assert!(!sheet_covers_character(&sheet));
    let full = vec![(0u32, vec![d; 4]), (1u32, vec![d; 4]), (2u32, vec![d; 6]), (3u32, vec![d; 6])];
    assert!(sheet_covers_character(&SpriteSheet::from_desc(&img, &full).unwrap()));
    let partial = vec![(0u32, vec![d; 4]), (1u32, vec![d; 4]), (2u32, vec![d; 6])];
    assert!(!sheet_covers_character(&SpriteSheet::from_desc(&img, &partial).unwrap()));
}

#[test]
fn right_press_release_left_press_ends_running_left() {
    let mut world = character_world(0);
    let mut time = DeltaTime::default();
    let events = vec![press(Keycode::Right), release(Keycode::Right), press(Keycode::Left)];
    let plan = run_frame(&mut world, &mut time, &events, 0, 2);
    assert!(plan.velocities.is_empty());
    assert_eq!(anim_of(&world, 1), Animate { state: 2, ticks: 0 });
}

#[test]
fn every_state_and_input_has_a_successor() {
    let table = [[2, 3, 0], [2, 3, 1], [2, 3, 0], [2, 3, 1]];
    for s in 0..4u32 {
        for i in 0..3u32 {
            let next = delta(s, i);
            assert_eq!(next, table[s as usize][i as usize]);
            assert!(CharacterState::from_u32(next).is_some());
        }
    }
}

#[test]
fn ticks_stay_below_frame_count() {
    for s in 0..4u32 {
        let mut anim = Animate::new(s);
        for n in 1..=50u32 {
            animate(&mut anim);
            assert!(anim.ticks < frames(s));
            assert_eq!(anim.ticks, n % frames(s));
            assert_eq!(anim.state, s);
        }
    }
}

#[test]
fn reachable_states_have_all_their_clips() {
    let img = numbered(70, 110);
    let sheet = source(&img);
    let mut anim = Animate::new(0);
    let inputs = [1u32, 2, 0, 0, 2, 1, 2, 1, 0];
    for &i in inputs.iter() {
        anim.delta(i);
        for f in 0..frames(anim.state) as usize {
            let clip = sheet.get_clip(anim.state, f);
            assert!(clip.image.width > 0);
        }
    }
}

#[test]
fn squeeze_twice_is_squeeze_once() {
    let img = with_box(12, 9, 3, 2, 8, 5);
    let mut once = img.crop(0, 0, 12, 9).unwrap();
    once.squeeze();
    let mut twice = img.crop(0, 0, 12, 9).unwrap();
    twice.squeeze();
    twice.squeeze();
    assert!(same_picture(&once, &twice));
    assert_eq!((once.width, once.height), (5, 3));
}

#[test]
fn squeezed_clip_ratio_is_trimmed_size() {
    let img = with_box(10, 10, 3, 2, 8, 5);
    let clip = Clip::new(&img, Rect { x: 0, y: 0, w: 10, h: 10 }, false, true).unwrap();
    assert_eq!(clip.width_over_height, (5, 3));
    assert_eq!((clip.image.width, clip.image.height), (5, 3));
    let plain = Clip::new(&img, Rect { x: 1, y: 1, w: 6, h: 4 }, false, false).unwrap();
    assert_eq!(plain.width_over_height, (6, 4));
}

#[test]
fn squeeze_keeps_pixels_in_place() {
    let img = with_box(10, 10, 3, 2, 8, 5);
    let mut p = img.crop(0, 0, 10, 10).unwrap();
    p.squeeze();
    assert_eq!(p.pixel(0, 0), Rgba { r: 3, g: 2, b: 1, a: 200 });
    assert_eq!(p.pixel(4, 2), Rgba { r: 7, g: 4, b: 1, a: 200 });
}

#[test]
fn input_is_seen_by_the_same_frames_tick() {
    let mut world = character_world(3);
    let mut time = DeltaTime { instant: 1_000 };
    let now = 1_000 + TICK_NANOS;
    let plan = run_frame(&mut world, &mut time, &vec![release(Keycode::Right)], now, 3);
    assert_eq!(plan.velocities, vec![VelocityCommand { body: 9, velocity: Velocity { x: 0, y: 0 } }]);
    assert_eq!(anim_of(&world, 1), Animate { state: 1, ticks: 1 });
    assert_eq!(time.instant, now);
    assert_eq!(plan.substeps, 2);
    assert_eq!(
        plan.draws,
        vec![DrawCommand::Circle { body: 7 }, DrawCommand::Clip { body: 9, sheet: 0, state: 1, frame: 1 }]
    );
}

#[test]
fn tick_is_due_after_two_fifteenths_of_a_second() {
    let t = DeltaTime { instant: 500 };
    assert!(!is_tick_due(&t, 500 + 133_333_333));
    assert!(is_tick_due(&t, 500 + 133_333_334));
    assert!(!is_tick_due(&t, 100));
    assert!(!is_tick_due(&DeltaTime::default(), 0));
}

#[test]
fn animation_system_ticks_only_when_due() {
    let mut world = character_world(2);
    let mut time = DeltaTime::default();
    let none = animate_entities(&mut world, &mut time, 1_000);
    assert!(none.is_empty());
    assert_eq!(time.instant, 0);
    assert_eq!(anim_of(&world, 1).ticks, 0);
    let some = animate_entities(&mut world, &mut time, 200_000_000);
    assert_eq!(some, vec![VelocityCommand { body: 9, velocity: Velocity { x: -2, y: 0 } }]);
    assert_eq!(time.instant, 200_000_000);
    assert_eq!(anim_of(&world, 1).ticks, 1);
    let again = animate_entities(&mut world, &mut time, 250_000_000);
    assert!(again.is_empty());
}

#[test]
fn animation_system_without_animated_entities_leaves_clock() {
    let mut world = World::new();
    world.push(Entity { body: 1, drawing: Drawing::Primitive, animation: None, controlled: false });
    let mut time = DeltaTime::default();
    let cmds = animate_entities(&mut world, &mut time, 10 * TICK_NANOS);
    assert!(cmds.is_empty());
    assert_eq!(time.instant, 0);
}

#[test]
fn input_router_ignores_other_keys_and_uncontrolled_entities() {
    let mut world = character_world(1);
    world.push(Entity { body: 11, drawing: Drawing::Sprite(0), animation: Some(Animate::new(0)), controlled: false });
    route_input(&mut world, press(Keycode::Other));
    assert_eq!(anim_of(&world, 1), Animate { state: 1, ticks: 0 });
    route_input(&mut world, KeyEvent { keycode: None, state: ElementState::Released });
    assert_eq!(anim_of(&world, 1), Animate { state: 1, ticks: 0 });
    route_input(&mut world, press(Keycode::Right));
    assert_eq!(anim_of(&world, 1), Animate { state: 3, ticks: 0 });
    assert_eq!(anim_of(&world, 2), Animate { state: 0, ticks: 0 });
    route_input(&mut world, release(Keycode::Other));
    assert_eq!(anim_of(&world, 1), Animate { state: 1, ticks: 0 });
}

#[test]
fn process_resets_ticks_on_release() {
    let mut anim = Animate { state: 2, ticks: 4 };
    process(Some(Keycode::Other), &ElementState::Released, &mut anim);
    assert_eq!(anim, Animate { state: 0, ticks: 0 });
    let mut idle = Animate { state: 0, ticks: 3 };
    process(None, &ElementState::Pressed, &mut idle);
    assert_eq!(idle, Animate { state: 0, ticks: 3 });
}

#[test]
fn physics_takes_one_step_per_index_from_one() {
    assert_eq!(physics_substeps(0), 0);
    assert_eq!(physics_substeps(1), 0);
    assert_eq!(physics_substeps(2), 1);
    assert_eq!(physics_substeps(8), 7);
}

#[test]
fn render_draws_every_entity_in_order() {
    let mut world = character_world(3);
    world.entities[1].animation = Some(Animate { state: 3, ticks: 4 });
    let draws = render_entities(&world);
    assert_eq!(
        draws,
        vec![DrawCommand::Circle { body: 7 }, DrawCommand::Clip { body: 9, sheet: 0, state: 3, frame: 4 }]
    );
}

#[test]
fn state_and_input_conversions() {
    assert_eq!(CharacterState::from_u32(2), Some(CharacterState::RunningLeft));
    assert_eq!(CharacterState::from_u32(4), None);
    assert_eq!(CharacterState::from_i64(-1), None);
    assert_eq!(CharacterState::from_i64(3), Some(CharacterState::RunningRight));
    assert_eq!(CharacterState::from_u64(1), Some(CharacterState::IdleRight));
    assert_eq!(CharacterState::IdleLeft.as_(), 0);
    assert_eq!(CharacterInput::from_u32(2), Some(CharacterInput::Interrupt));
    assert_eq!(CharacterInput::from_u32(3), None);
    assert_eq!(CharacterInput::from_i64(0), Some(CharacterInput::Left));
    assert_eq!(CharacterInput::from_i64(-5), None);
    assert_eq!(CharacterInput::from_u64(1), Some(CharacterInput::Right));
    assert_eq!(CharacterInput::Right.as_(), 1);
    assert_eq!(frames(0), 4);
    assert_eq!(frames(3), 6);
}

#[test]
fn crop_outside_source_fails() {
    let img = numbered(8, 6);
    assert!(img.crop(5, 0, 4, 2).is_none());
    assert!(img.crop(0, 3, 2, 4).is_none());
    assert!(img.crop(u32::MAX, 0, 2, 2).is_none());
    let c = img.crop(2, 1, 3, 2).unwrap();
    assert_eq!((c.width, c.height), (3, 2));
    assert_eq!(c.pixel(0, 0), Rgba { r: 2, g: 1, b: 0, a: 255 });
    assert_eq!(c.pixel(2, 1), Rgba { r: 4, g: 2, b: 0, a: 255 });
    assert!(Clip::new(&img, Rect { x: 6, y: 0, w: 3, h: 1 }, false, false).is_none());
}

#[test]
fn flips_and_rotation_move_pixels() {
    let img = numbered(3, 2);
    let h = img.fliph();
    assert_eq!(h.pixel(0, 0), Rgba { r: 2, g: 0, b: 0, a: 255 });
    let v = img.flipv();
    assert_eq!(v.pixel(0, 0), Rgba { r: 0, g: 1, b: 0, a: 255 });
    let r = img.rotate90();
    assert_eq!((r.width, r.height), (2, 3));
    assert_eq!(r.pixel(0, 0), Rgba { r: 0, g: 1, b: 0, a: 255 });
    assert_eq!(r.pixel(1, 0), Rgba { r: 0, g: 0, b: 0, a: 255 });
    assert_eq!(r.pixel(0, 2), Rgba { r: 2, g: 1, b: 0, a: 255 });
}

#[test]
fn clip_is_flipped_then_mirrored_vertically() {
    let img = numbered(4, 3);
    let clip = Clip::new(&img, Rect { x: 1, y: 0, w: 2, h: 3 }, true, false).unwrap();
    assert_eq!(clip.image.pixel(0, 0), Rgba { r: 2, g: 2, b: 0, a: 255 });
    assert_eq!(clip.image.pixel(1, 2), Rgba { r: 1, g: 0, b: 0, a: 255 });
}

#[test]
fn from_rows_rejects_ragged_rows() {
    let rows = vec![vec![INK; 3], vec![INK; 2]];
    assert!(Picture::from_rows(3, rows).is_none());
    let ok = Picture::from_rows(2, vec![vec![INK; 2]]).unwrap();
    assert_eq!(ok.height, 1);
}

#[test]
fn sheet_from_description_and_lookup() {
    let img = numbered(8, 4);
    let d = |x: u32| ClipDesc { rect: Rect { x, y: 0, w: 2, h: 4 }, is_flipped: false, squeeze: false };
    let map = vec![(5u32, vec![d(0), d(2)]), (6u32, vec![d(4)]), (5u32, vec![d(6)])];
    let sheet = SpriteSheet::from_desc(&img, &map).unwrap();
    assert_eq!(sheet.clips.len(), 2);
    assert_eq!(sheet.clips[&5].len(), 1);
    assert_eq!(sheet.get_clip(5, 0).image.pixel(0, 0), Rgba { r: 6, g: 3, b: 0, a: 255 });
    assert_eq!(sheet.get_clip(6, 0).image.pixel(1, 3), Rgba { r: 5, g: 0, b: 0, a: 255 });
    let bad = vec![(0u32, vec![d(7)])];
    assert!(SpriteSheet::from_desc(&img, &bad).is_none());
    let empty = SpriteSheet::new(HashMap::new());
    assert!(empty.clips.is_empty());
}

#[test]
fn character_sheet_frames_come_from_their_cells() {
    let img = numbered(70, 110);
    let sheet = source(&img);
    // Running right, frame 0: cell one of the second row, not mirrored left to right.
    let clip = sheet.get_clip(3, 0);
    assert_eq!((clip.image.width, clip.image.height), (10, 10));
    assert_eq!(clip.image.pixel(0, 9), Rgba { r: 10, g: 10, b: 0, a: 255 });
    // Idle left, frame 1: cell one of the top row, mirrored.
    let clip = sheet.get_clip(0, 1);
    assert_eq!(clip.image.pixel(0, 9), Rgba { r: 19, g: 0, b: 0, a: 255 });
}

#[test]
fn out_dir_paths() {
    assert_eq!(from_out_dir("/build/out", "res/a.ron"), "/build/out/res/a.ron");
    assert_eq!(from_out_dir("/build/out/", "res/a.ron"), "/build/out/res/a.ron");
    assert_eq!(from_out_dir("/build/out", "/abs/a.ron"), "/abs/a.ron");
    assert_eq!(from_out_dir("", "a.ron"), "a.ron");
}

#[test]
fn level_spawns_ball_then_character() {
    let level = Level::new();
    assert_eq!(level.name, "test");
    assert_eq!(BALL_COUNT, 5);
    let mut world = World::new();
    let balls: Vec<u64> = vec![10, 11, 12, 13, 14];
    level.populate(&mut world, &balls, 4, 0);
    assert_eq!(world.entities.len(), 6);
    for i in 0..BALL_COUNT {
        assert_eq!(
            world.entities[i],
            Entity { body: 10 + i as u64, drawing: Drawing::Primitive, animation: None, controlled: false }
        );
    }
    let draws = render_entities(&world);
    assert_eq!(draws.iter().filter(|d| matches!(d, DrawCommand::Circle { .. })).count(), 5);
    assert_eq!(
        world.entities[5],
        Entity { body: 4, drawing: Drawing::Sprite(0), animation: Some(Animate { state: 0, ticks: 0 }), controlled: true }
    );
}
