use aoe_core::components::ClientMessage;
use aoe_core::components::Inputs;
use aoe_core::components::Item;
use aoe_core::components::ItemPos;
use aoe_core::components::MinionPosition;
use aoe_core::components::MinionTarget;
use aoe_core::components::OwnedBy;
use aoe_core::components::PlayerColor;
use aoe_core::components::Rgb;
use aoe_core::components::ScoreEntry;
use aoe_core::components::Scoreboard;
use aoe_core::server::InputEvent;
use aoe_core::server::Minion;
use aoe_core::server::Player;
use aoe_core::server::ServerState;
use aoe_core::server::WorldItem;
use aoe_core::server::minion_movement;
use aoe_core::server::start_server;
use aoe_core::units::SUBUNITS;
use aoe_core::units::Vec2;

fn red() -> Rgb {
    Rgb { r: 255, g: 0, b: 0 }
}

fn state_with_client(client: u64) -> ServerState {
    let mut s = start_server();
    s.accept_connection(client, red());
    s
}

#[test]
fn world_init_spawns_one_apple_at_two_two() {
    let s = start_server();
    assert_eq!(s.players.len(), 0);
    assert_eq!(s.minions.len(), 0);
    assert_eq!(s.items.len(), 1);
    assert_eq!(s.items[0].kind, Item::Apple);
    assert_eq!(s.items[0].pos, ItemPos(Vec2::new(2 * SUBUNITS, 2 * SUBUNITS)));
    assert_eq!(s.scoreboard.0.len(), 0);
}

#[test]
fn connection_registers_player_and_zero_score() {
    let s = state_with_client(7);
    assert_eq!(s.players.len(), 1);
    assert_eq!(s.players[0].id.0, 7);
    assert_eq!(s.players[0].pos.0, Vec2::new(0, 0));
    assert_eq!(s.scoreboard.get(7), Some(0));
}

#[test]
fn duplicate_connection_is_ignored() {
    let mut s = state_with_client(7);
    s.scoreboard.insert(7, 5);
    s.accept_connection(7, red());
    assert_eq!(s.players.len(), 1);
    assert_eq!(s.scoreboard.get(7), Some(5));
}

#[test]
fn direction_input_moves_the_senders_player() {
    let mut s = state_with_client(3);
    let dir = aoe_core::components::Direction { up: true, down: false, left: true, right: false };
    s.handle_inputs(&vec![InputEvent { client: 3, input: Inputs::Direction(dir) }], &vec![]);
    assert_eq!(s.players[0].pos.0, Vec2::new(-10000, 10000));
}

#[test]
fn input_from_unknown_client_is_dropped() {
    let mut s = state_with_client(3);
    let dir = aoe_core::components::Direction { up: true, down: false, left: false, right: false };
    s.handle_inputs(&vec![InputEvent { client: 99, input: Inputs::Direction(dir) }], &vec![]);
    assert_eq!(s.players[0].pos.0, Vec2::new(0, 0));
    assert_eq!(s.minions.len(), 0);
}

#[test]
fn spawn_input_creates_authoritative_minion() {
    let mut s = state_with_client(3);
    let at = Vec2::new(100, 200);
    s.handle_inputs(&vec![InputEvent { client: 3, input: Inputs::Spawn(at, red()) }], &vec![]);
    assert_eq!(s.minions.len(), 1);
    let m = &s.minions[0];
    assert_eq!(m.entity, 0);
    assert_eq!(m.owner, OwnedBy(3));
    assert_eq!(m.pos, MinionPosition(at));
    assert_eq!(m.target, MinionTarget(Vec2::new(256000, 256000)));
    assert_eq!(m.color, PlayerColor(red()));
}

#[test]
fn target_command_retargets_existing_minions() {
    let mut s = state_with_client(3);
    s.handle_inputs(
        &vec![InputEvent { client: 3, input: Inputs::Spawn(Vec2::new(0, 0), red()) }],
        &vec![],
    );
    let dest = Vec2::new(5000, 6000);
    s.handle_inputs(&vec![], &vec![ClientMessage::Target(vec![0], dest)]);
    assert_eq!(s.minions[0].target, MinionTarget(dest));
}

#[test]
fn target_command_for_missing_entity_is_a_noop() {
    let mut s = state_with_client(3);
    s.handle_inputs(
        &vec![InputEvent { client: 3, input: Inputs::Spawn(Vec2::new(0, 0), red()) }],
        &vec![],
    );
    let before = s.minions[0].target;
    s.handle_inputs(&vec![], &vec![ClientMessage::Target(vec![42], Vec2::new(1, 1))]);
    assert_eq!(s.minions.len(), 1);
    assert_eq!(s.minions[0].target, before);
}

#[test]
fn targeting_ignores_ownership_deliberately() {
    // Client 3 owns the minion; a command referencing it — as any other
    // client's selection would after entity mapping — still retargets it.
    // Ownership is not checked in targeting; this is intentional.
    let mut s = state_with_client(3);
    s.accept_connection(8, Rgb { r: 1, g: 2, b: 3 });
    s.handle_inputs(
        &vec![InputEvent { client: 3, input: Inputs::Spawn(Vec2::new(0, 0), red()) }],
        &vec![],
    );
    let dest = Vec2::new(-7000, 9000);
    // The command arrives on client 8's ordered channel.
    s.handle_inputs(&vec![], &vec![ClientMessage::Target(vec![0], dest)]);
    assert_eq!(s.minions[0].owner, OwnedBy(3));
    assert_eq!(s.minions[0].target, MinionTarget(dest));
}

#[test]
fn applying_the_same_target_twice_equals_once() {
    let mut s = state_with_client(3);
    s.handle_inputs(
        &vec![InputEvent { client: 3, input: Inputs::Spawn(Vec2::new(0, 0), red()) }],
        &vec![],
    );
    let msg = ClientMessage::Target(vec![0], Vec2::new(4444, 5555));
    let mut once = s.clone();
    once.handle_inputs(&vec![], &vec![msg.clone()]);
    let mut twice = s.clone();
    twice.handle_inputs(&vec![], &vec![msg.clone()]);
    twice.handle_inputs(&vec![], &vec![msg]);
    assert_eq!(once.minions, twice.minions);
    assert_eq!(once.minions[0].target, MinionTarget(Vec2::new(4444, 5555)));
}

#[test]
fn minion_near_item_scores_every_aggregation_pass() {
    // Item at (2, 2); a minion owned by client 7 sits at (2.0, 2.9),
    // distance 0.9 < 1.0: each aggregation pass awards exactly one point.
    let mut s = state_with_client(7);
    s.handle_inputs(
        &vec![InputEvent {
            client: 7,
            input: Inputs::Spawn(Vec2::new(2 * SUBUNITS, 2 * SUBUNITS + 57600), red()),
        }],
        &vec![],
    );
    s.update_scoreboard();
    assert_eq!(s.scoreboard.get(7), Some(1));
    s.update_scoreboard();
    assert_eq!(s.scoreboard.get(7), Some(2));
}

#[test]
fn minion_out_of_range_does_not_score() {
    // Distance exactly 1.0 is not within range (strictly less than).
    let mut s = state_with_client(7);
    s.handle_inputs(
        &vec![InputEvent {
            client: 7,
            input: Inputs::Spawn(Vec2::new(2 * SUBUNITS + SUBUNITS, 2 * SUBUNITS), red()),
        }],
        &vec![],
    );
    s.update_scoreboard();
    assert_eq!(s.scoreboard.get(7), Some(0));
}

#[test]
fn scoring_saturates_at_the_top() {
    let item_pos = Vec2::new(2 * SUBUNITS, 2 * SUBUNITS);
    let mut s = ServerState {
        players: vec![Player {
            id: aoe_core::components::PlayerId(9),
            pos: aoe_core::components::PlayerPosition(Vec2::new(0, 0)),
            color: PlayerColor(red()),
        }],
        minions: vec![Minion {
            entity: 0,
            owner: OwnedBy(9),
            pos: MinionPosition(item_pos),
            target: MinionTarget(item_pos),
            color: PlayerColor(red()),
        }],
        items: vec![WorldItem { kind: Item::Apple, pos: ItemPos(item_pos) }],
        scoreboard: Scoreboard(vec![ScoreEntry { client: 9, score: u64::MAX }]),
        next_entity: 1,
    };
    s.update_scoreboard();
    assert_eq!(s.scoreboard.get(9), Some(u64::MAX));
}

#[test]
fn minion_movement_steps_toward_targets() {
    let mut minions = vec![Minion {
        entity: 0,
        owner: OwnedBy(1),
        pos: MinionPosition(Vec2::new(0, 0)),
        target: MinionTarget(Vec2::new(4 * SUBUNITS, 4 * SUBUNITS)),
        color: PlayerColor(red()),
    }];
    minion_movement(&mut minions);
    assert_eq!(minions[0].pos, MinionPosition(Vec2::new(707, 707)));
    assert_eq!(minions[0].target, MinionTarget(Vec2::new(4 * SUBUNITS, 4 * SUBUNITS)));
}

#[test]
fn handle_connections_registers_every_client() {
    // Colors are drawn at random; whatever came back, both clients get a
    // player at the origin and a zero scoreboard row.
    let mut s = start_server();
    s.handle_connections(&vec![1, 2]);
    assert_eq!(s.players.len(), 2);
    assert_eq!(s.players[0].id.0, 1);
    assert_eq!(s.players[1].id.0, 2);
    assert_eq!(s.players[0].pos.0, Vec2::new(0, 0));
    assert_eq!(s.scoreboard.get(1), Some(0));
    assert_eq!(s.scoreboard.get(2), Some(0));
}
