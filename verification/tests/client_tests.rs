use aoe_core::client::ClientMinion;
use aoe_core::client::ClientState;
use aoe_core::client::DragState;
use aoe_core::client::InputBuffer;
use aoe_core::client::InputSample;
use aoe_core::client::PreSpawnKey;
use aoe_core::client::StartDrag;
use aoe_core::client::client_minion_movement;
use aoe_core::client::reconcile;
use aoe_core::components::ClientMessage;
use aoe_core::components::Inputs;
use aoe_core::components::MinionPosition;
use aoe_core::components::MinionTarget;
use aoe_core::components::OwnedBy;
use aoe_core::components::PlayerColor;
use aoe_core::components::Rgb;
use aoe_core::server::Minion;
use aoe_core::units::SUBUNITS;
use aoe_core::units::Vec2;

fn red() -> Rgb {
    Rgb { r: 255, g: 0, b: 0 }
}

fn idle_sample() -> InputSample {
    InputSample {
        up: false,
        down: false,
        left: false,
        right: false,
        spawn_pressed: false,
        cursor: None,
        select_pressed: false,
        select_held: false,
        select_released: false,
        command_pressed: false,
    }
}

fn minion_at(state: &mut ClientState, owner: u64, x: i64, y: i64) -> u64 {
    let id = state.next_local_entity;
    state.next_local_entity += 1;
    state.minions.push(ClientMinion {
        local_entity: id,
        owner: OwnedBy(owner),
        pos: MinionPosition(Vec2::new(x, y)),
        target: MinionTarget(Vec2::new(x, y)),
        color: PlayerColor(red()),
        selected: false,
        prespawn: None,
        confirmed: Some(1000 + id),
        spawn_tick: 0,
    });
    id
}

#[test]
fn input_buffer_keeps_one_input_per_tick() {
    let mut buf = InputBuffer::new();
    buf.add_input(Inputs::NoInput, 5);
    buf.add_input(Inputs::Spawn(Vec2::new(1, 1), red()), 5);
    buf.add_input(Inputs::NoInput, 6);
    assert_eq!(buf.entries.len(), 2);
    assert_eq!(buf.entries[0], (5, Inputs::Spawn(Vec2::new(1, 1), red())));
    assert_eq!(buf.entries[1], (6, Inputs::NoInput));
    let drained = buf.drain();
    assert_eq!(drained.len(), 2);
    assert_eq!(buf.entries.len(), 0);
}

#[test]
fn selection_round_trip_selects_own_minions_in_rect() {
    // A and B belong to the dragging player and lie inside the rectangle;
    // C belongs to another player and lies inside too. The release selects
    // exactly {A, B}.
    let mut s = ClientState::new(7);
    let a = minion_at(&mut s, 7, SUBUNITS, SUBUNITS);
    let b = minion_at(&mut s, 7, 2 * SUBUNITS, 2 * SUBUNITS);
    let c = minion_at(&mut s, 8, SUBUNITS, 2 * SUBUNITS);

    let mut press = idle_sample();
    press.cursor = Some(Vec2::new(0, 0));
    press.select_pressed = true;
    s.buffer_input(&press, 1);
    assert_eq!(s.drag, DragState::Dragging(StartDrag(Vec2::new(0, 0))));

    let mut held = idle_sample();
    held.cursor = Some(Vec2::new(3 * SUBUNITS, SUBUNITS));
    held.select_held = true;
    let out = s.buffer_input(&held, 2);
    assert_eq!(out.drag_rect, Some((Vec2::new(0, 0), Vec2::new(3 * SUBUNITS, SUBUNITS))));

    let mut release = idle_sample();
    release.cursor = Some(Vec2::new(3 * SUBUNITS, 3 * SUBUNITS));
    release.select_released = true;
    s.buffer_input(&release, 3);
    assert_eq!(s.drag, DragState::Idle);
    assert_eq!(s.selected_minions.0, vec![a, b]);
    assert!(s.minions[a as usize].selected);
    assert!(s.minions[b as usize].selected);
    assert!(!s.minions[c as usize].selected);
}

#[test]
fn zero_area_drag_replaces_selection_with_none() {
    let mut s = ClientState::new(7);
    let a = minion_at(&mut s, 7, SUBUNITS, SUBUNITS);
    s.selected_minions.0 = vec![a];
    s.minions[0].selected = true;

    let mut press = idle_sample();
    press.cursor = Some(Vec2::new(0, 0));
    press.select_pressed = true;
    s.buffer_input(&press, 1);
    let mut release = idle_sample();
    release.cursor = Some(Vec2::new(0, 0));
    release.select_released = true;
    s.buffer_input(&release, 2);
    assert_eq!(s.selected_minions.0, Vec::<u64>::new());
    assert!(!s.minions[0].selected);
}

#[test]
fn command_translates_confirmed_references_and_omits_unconfirmed() {
    let mut s = ClientState::new(7);
    let a = minion_at(&mut s, 7, 0, 0);
    // A speculative minion with no authoritative counterpart yet.
    let b = s.next_local_entity;
    s.next_local_entity += 1;
    s.minions.push(ClientMinion {
        local_entity: b,
        owner: OwnedBy(7),
        pos: MinionPosition(Vec2::new(5, 5)),
        target: MinionTarget(Vec2::new(5, 5)),
        color: PlayerColor(red()),
        selected: false,
        prespawn: Some(PreSpawnKey { client: 7, tick: 1, index: 0 }),
        confirmed: None,
        spawn_tick: 1,
    });
    s.selected_minions.0 = vec![a, b];

    let mut cmd = idle_sample();
    cmd.cursor = Some(Vec2::new(9000, 9000));
    cmd.command_pressed = true;
    let out = s.buffer_input(&cmd, 5);
    // Only the confirmed counterpart goes out; the pre-spawn is omitted.
    assert_eq!(out.message, Some(ClientMessage::Target(vec![1000 + a], Vec2::new(9000, 9000))));
    // Both local copies are optimistically retargeted at once.
    assert_eq!(s.minions[0].target, MinionTarget(Vec2::new(9000, 9000)));
    assert_eq!(s.minions[1].target, MinionTarget(Vec2::new(9000, 9000)));
}

#[test]
fn no_cursor_suppresses_pointer_actions() {
    let mut s = ClientState::new(7);
    let a = minion_at(&mut s, 7, 0, 0);
    s.selected_minions.0 = vec![a];
    let mut sample = idle_sample();
    sample.command_pressed = true;
    sample.select_pressed = true;
    let out = s.buffer_input(&sample, 1);
    assert_eq!(out.message, None);
    assert_eq!(s.drag, DragState::Idle);
    assert_eq!(s.minions[0].target, MinionTarget(Vec2::new(0, 0)));
}

#[test]
fn prespawned_minion_appears_immediately_and_matches_later() {
    // The client buffers a spawn at tick 100: a pre-spawned minion appears
    // at once under the key (client 7, tick 100, index 0). When the
    // server's authoritative minion for the same key replicates in, the
    // two are recognized as the same logical entity: no duplicate.
    let mut s = ClientState::new(7);
    let at = Vec2::new(3000, 4000);
    s.player_movement(&Inputs::Spawn(at, red()), 100);
    assert_eq!(s.minions.len(), 1);
    assert_eq!(s.minions[0].pos, MinionPosition(at));
    assert_eq!(s.minions[0].color, PlayerColor(red()));
    assert_eq!(s.minions[0].prespawn, Some(PreSpawnKey { client: 7, tick: 100, index: 0 }));
    assert_eq!(s.minions[0].confirmed, None);

    let authoritative = Minion {
        entity: 55,
        owner: OwnedBy(7),
        pos: MinionPosition(at),
        target: MinionTarget(Vec2::new(256000, 256000)),
        color: PlayerColor(red()),
    };
    s.confirm_prespawn(PreSpawnKey { client: 7, tick: 100, index: 0 }, &authoritative, 103);
    assert_eq!(s.minions.len(), 1);
    assert_eq!(s.minions[0].confirmed, Some(55));
    assert_eq!(s.minions[0].local_entity, 0);
}

#[test]
fn unmatched_replication_adds_interpolated_minion() {
    // Another player's minion replicates in: no speculative counterpart
    // waits, so a fresh interpolated copy is added.
    let mut s = ClientState::new(7);
    let authoritative = Minion {
        entity: 90,
        owner: OwnedBy(8),
        pos: MinionPosition(Vec2::new(1, 2)),
        target: MinionTarget(Vec2::new(3, 4)),
        color: PlayerColor(red()),
    };
    s.confirm_prespawn(PreSpawnKey { client: 8, tick: 50, index: 0 }, &authoritative, 52);
    assert_eq!(s.minions.len(), 1);
    assert_eq!(s.minions[0].owner, OwnedBy(8));
    assert_eq!(s.minions[0].confirmed, Some(90));
    assert_eq!(s.minions[0].prespawn, None);
}

#[test]
fn second_spawn_in_one_tick_gets_the_next_index() {
    let mut s = ClientState::new(7);
    s.player_movement(&Inputs::Spawn(Vec2::new(0, 0), red()), 100);
    s.player_movement(&Inputs::Spawn(Vec2::new(1, 1), red()), 100);
    assert_eq!(s.minions[0].prespawn, Some(PreSpawnKey { client: 7, tick: 100, index: 0 }));
    assert_eq!(s.minions[1].prespawn, Some(PreSpawnKey { client: 7, tick: 100, index: 1 }));
}

#[test]
fn prune_rolls_back_only_expired_prespawns() {
    let mut s = ClientState::new(7);
    s.player_movement(&Inputs::Spawn(Vec2::new(0, 0), red()), 10);
    let confirmed = minion_at(&mut s, 7, 5, 5);
    // Timeout of 32 ticks: at tick 43 the speculative minion from tick 10
    // has waited 33 ticks and is rolled back; the confirmed one stays.
    s.prune_prespawns(43, 32);
    assert_eq!(s.minions.len(), 1);
    assert_eq!(s.minions[0].local_entity, confirmed);
    // A younger speculative minion survives the same pass.
    s.player_movement(&Inputs::Spawn(Vec2::new(2, 2), red()), 40);
    s.prune_prespawns(43, 32);
    assert_eq!(s.minions.len(), 2);
}

#[test]
fn player_prediction_applies_own_movement_immediately() {
    let mut s = ClientState::new(7);
    let dir = aoe_core::components::Direction { up: true, down: false, left: true, right: false };
    s.player_movement(&Inputs::Direction(dir), 1);
    assert_eq!(s.player_pos.0, Vec2::new(-10000, 10000));
}

#[test]
fn reconcile_snaps_only_beyond_tolerance() {
    // 0.001 square units is the tolerance: a 100-subunit divergence
    // (10000 square subunits) is kept, a 3000-subunit divergence
    // (9_000_000) snaps.
    let near = reconcile(Vec2::new(100, 0), Vec2::new(0, 0));
    assert_eq!(near, Vec2::new(100, 0));
    let far = reconcile(Vec2::new(3000, 0), Vec2::new(0, 0));
    assert_eq!(far, Vec2::new(0, 0));
}

#[test]
fn client_minions_steer_like_the_server() {
    let mut minions = vec![ClientMinion {
        local_entity: 0,
        owner: OwnedBy(7),
        pos: MinionPosition(Vec2::new(0, 0)),
        target: MinionTarget(Vec2::new(4 * SUBUNITS, 4 * SUBUNITS)),
        color: PlayerColor(red()),
        selected: false,
        prespawn: None,
        confirmed: None,
        spawn_tick: 0,
    }];
    client_minion_movement(&mut minions);
    assert_eq!(minions[0].pos, MinionPosition(Vec2::new(707, 707)));
}

#[test]
fn map_entities_rewrites_known_references() {
    let msg = ClientMessage::Target(vec![1, 2, 3], Vec2::new(5, 5));
    let map = vec![(1, 10), (3, 30)];
    let mapped = msg.map_entities(&map);
    assert_eq!(mapped, ClientMessage::Target(vec![10, 2, 30], Vec2::new(5, 5)));
}
