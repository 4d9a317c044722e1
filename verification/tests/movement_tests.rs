use aoe_core::client::InputSample;
use aoe_core::client::derive_input;
use aoe_core::components::Direction;
use aoe_core::components::Inputs;
use aoe_core::components::PlayerColor;
use aoe_core::components::PlayerPosition;
use aoe_core::components::Rgb;
use aoe_core::movement::SpawnRequest;
use aoe_core::movement::default_target;
use aoe_core::movement::shared_movement_behaviour;
use aoe_core::units::COORD_LIMIT;
use aoe_core::units::PLAYER_STEP;
use aoe_core::units::Vec2;

fn sample_none() -> InputSample {
    InputSample {
        up: false,
        down: false,
        left: false,
        right: false,
        spawn_pressed: false,
        cursor: None,
        select_pressed: false,
        select_held: false,
        select_released: false,
        command_pressed: false,
    }
}

#[test]
fn diagonal_up_left_is_unnormalized() {
    // Up and left held together move the full per-tick step on both axes:
    // (-speed*dt, +speed*dt), not scaled by 1/sqrt(2).
    let dir = Direction { up: true, down: false, left: true, right: false };
    let mut pos = PlayerPosition(Vec2::new(0, 0));
    let spawn = shared_movement_behaviour(&Inputs::Direction(dir), &mut pos);
    assert_eq!(pos.0, Vec2::new(-PLAYER_STEP, PLAYER_STEP));
    assert!(spawn.is_none());
}

#[test]
fn each_flag_moves_its_axis() {
    let cases = [
        (Direction { up: true, down: false, left: false, right: false }, 0, PLAYER_STEP),
        (Direction { up: false, down: true, left: false, right: false }, 0, -PLAYER_STEP),
        (Direction { up: false, down: false, left: true, right: false }, -PLAYER_STEP, 0),
        (Direction { up: false, down: false, left: false, right: true }, PLAYER_STEP, 0),
    ];
    for (dir, dx, dy) in cases {
        let mut pos = PlayerPosition(Vec2::new(1000, 2000));
        shared_movement_behaviour(&Inputs::Direction(dir), &mut pos);
        assert_eq!(pos.0, Vec2::new(1000 + dx, 2000 + dy));
    }
}

#[test]
fn opposite_flags_cancel() {
    let dir = Direction { up: true, down: true, left: true, right: true };
    let mut pos = PlayerPosition(Vec2::new(5, -5));
    shared_movement_behaviour(&Inputs::Direction(dir), &mut pos);
    assert_eq!(pos.0, Vec2::new(5, -5));
}

#[test]
fn movement_clamps_at_world_edge() {
    let dir = Direction { up: false, down: false, left: true, right: false };
    let mut pos = PlayerPosition(Vec2::new(-COORD_LIMIT, 0));
    shared_movement_behaviour(&Inputs::Direction(dir), &mut pos);
    assert_eq!(pos.0, Vec2::new(-COORD_LIMIT, 0));
}

#[test]
fn spawn_input_requests_minion_and_keeps_position() {
    let color = Rgb { r: 200, g: 10, b: 10 };
    let at = Vec2::new(777, -777);
    let mut pos = PlayerPosition(Vec2::new(3, 4));
    let spawn = shared_movement_behaviour(&Inputs::Spawn(at, color), &mut pos);
    assert_eq!(pos.0, Vec2::new(3, 4));
    assert_eq!(spawn, Some(SpawnRequest { pos: at, color }));
}

#[test]
fn no_input_does_nothing() {
    let mut pos = PlayerPosition(Vec2::new(3, 4));
    let spawn = shared_movement_behaviour(&Inputs::NoInput, &mut pos);
    assert_eq!(pos.0, Vec2::new(3, 4));
    assert!(spawn.is_none());
}

#[test]
fn default_target_is_four_four() {
    assert_eq!(default_target(), Vec2::new(256000, 256000));
}

#[test]
fn derive_input_prefers_direction() {
    let mut s = sample_none();
    s.up = true;
    s.spawn_pressed = true;
    s.cursor = Some(Vec2::new(1, 2));
    let color = Some(PlayerColor(Rgb { r: 1, g: 2, b: 3 }));
    let got = derive_input(&s, color);
    assert_eq!(
        got,
        Inputs::Direction(Direction { up: true, down: false, left: false, right: false })
    );
}

#[test]
fn derive_input_spawn_needs_cursor_and_color() {
    let mut s = sample_none();
    s.spawn_pressed = true;
    s.cursor = Some(Vec2::new(9, 9));
    assert_eq!(derive_input(&s, None), Inputs::NoInput);
    let color = Some(PlayerColor(Rgb { r: 255, g: 0, b: 0 }));
    assert_eq!(derive_input(&s, color), Inputs::Spawn(Vec2::new(9, 9), Rgb { r: 255, g: 0, b: 0 }));
    s.cursor = None;
    assert_eq!(derive_input(&s, color), Inputs::NoInput);
}

#[test]
fn derive_input_idle_tick() {
    assert_eq!(derive_input(&sample_none(), None), Inputs::NoInput);
}
