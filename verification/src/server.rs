//! The authoritative server simulation: the single writer of world state.
//!
//! Per tick the server applies every buffered input (movement and minion
//! spawning) and every received targeting command, then steers minions.
//! Once per second it awards proximity points. Connection events register a
//! player at the origin with a random color and a zero scoreboard row.
//!
//! Every transition is pinned by a spec-level model: the contract of each
//! mutating function states the new model as a function of the old one.

use vstd::prelude::*;

use crate::components::ClientMessage;
use crate::components::Inputs;
use crate::components::Item;
use crate::components::ItemPos;
use crate::components::MinionPosition;
use crate::components::MinionTarget;
use crate::components::OwnedBy;
use crate::components::PlayerColor;
use crate::components::PlayerId;
use crate::components::PlayerPosition;
use crate::components::Rgb;
use crate::components::ScoreEntry;
use crate::components::Scoreboard;
use crate::components::contains_id;
use crate::components::rows_contain;
use crate::movement::SpawnRequest;
use crate::movement::default_target;
use crate::movement::default_target_spec;
use crate::movement::shared_movement_behaviour;
use crate::steering::steer;
use crate::steering::steer_spec;
use crate::units::MINION_STEP;
use crate::units::SCORE_RANGE_SQ;
use crate::units::SUBUNITS;
use crate::units::Vec2;
use crate::units::dist_sq;
use crate::units::dist_sq_i64;

verus! {

/// A connected player: owning client, position, color.
#[derive(Clone, Copy, Debug, PartialEq, Eq, Structural)]
pub struct Player {
    pub id: PlayerId,
    pub pos: PlayerPosition,
    pub color: PlayerColor,
}

/// A spawned minion: stable entity identifier, owner, position, steering
/// target, inherited color.
#[derive(Clone, Copy, Debug, PartialEq, Eq, Structural)]
pub struct Minion {
    pub entity: u64,
    pub owner: OwnedBy,
    pub pos: MinionPosition,
    pub target: MinionTarget,
    pub color: PlayerColor,
}

/// A static item in the world.
#[derive(Clone, Copy, Debug, PartialEq, Eq, Structural)]
pub struct WorldItem {
    pub kind: Item,
    pub pos: ItemPos,
}

/// One buffered input received from a client for the current tick.
#[derive(Clone, Copy, Debug, PartialEq, Eq, Structural)]
pub struct InputEvent {
    pub client: u64,
    pub input: Inputs,
}

/// The spec-level model of the authoritative world.
pub ghost struct ServerModel {
    pub players: Seq<Player>,
    pub minions: Seq<Minion>,
    pub items: Seq<WorldItem>,
    pub scores: Seq<ScoreEntry>,
    pub next_entity: u64,
}

/// The authoritative world state, held in an explicit context struct and
/// mutated only by the per-tick and per-second systems below.
#[derive(Clone, Debug)]
pub struct ServerState {
    pub players: Vec<Player>,
    pub minions: Vec<Minion>,
    pub items: Vec<WorldItem>,
    pub scoreboard: Scoreboard,
    pub next_entity: u64,
}

impl View for ServerState {
    type V = ServerModel;

    open spec fn view(&self) -> ServerModel {
        ServerModel {
            players: self.players@,
            minions: self.minions@,
            items: self.items@,
            scores: self.scoreboard.0@,
            next_entity: self.next_entity,
        }
    }
}

/// Some player belongs to this client.
pub open spec fn players_contain(players: Seq<Player>, client: u64) -> bool {
    exists|i: int| 0 <= i < players.len() && players[i].id.0 == client
}

/// The index of the first player of this client, or the sequence length
/// where there is none.
pub open spec fn player_index(players: Seq<Player>, client: u64) -> int
    decreases players.len(),
{
    if players.len() == 0 {
        0
    } else if players[0].id.0 == client {
        0
    } else {
        1 + player_index(players.drop_first(), client)
    }
}

/// Where a player of `client` stands at index `i` of a sequence with
/// pairwise distinct clients, `player_index` finds exactly that index.
proof fn lemma_player_index_finds(players: Seq<Player>, client: u64, i: int)
    requires
        0 <= i < players.len(),
        players[i].id.0 == client,
        forall|a: int, b: int|
            0 <= a < b < players.len() ==> players[a].id.0 != players[b].id.0,
    ensures
        player_index(players, client) == i,
    decreases players.len(),
{
    if players[0].id.0 == client {
        if i != 0 {
            assert(players[0].id.0 != players[i].id.0);
        }
    } else {
        assert(i != 0);
        let rest = players.drop_first();
        assert(rest[i - 1].id.0 == client);
        assert forall|a: int, b: int|
            0 <= a < b < rest.len() implies rest[a].id.0 != rest[b].id.0 by {
            assert(players[a + 1].id.0 != players[b + 1].id.0);
        }
        lemma_player_index_finds(rest, client, i - 1);
    }
}

/// The world invariant: distinct clients with exactly matching scoreboard
/// rows, distinct minion identities below the allocation counter, and all
/// positions within the world extent.
pub open spec fn inv(m: ServerModel) -> bool {
    &&& forall|a: int, b: int|
        0 <= a < b < m.players.len() ==> m.players[a].id.0 != m.players[b].id.0
    &&& forall|a: int, b: int|
        0 <= a < b < m.scores.len() ==> m.scores[a].client != m.scores[b].client
    &&& forall|i: int| 0 <= i < m.players.len() ==> (#[trigger] m.players[i]).pos.0.in_bounds()
    &&& forall|i: int|
        0 <= i < m.players.len() ==> rows_contain(m.scores, (#[trigger] m.players[i]).id.0)
    &&& forall|i: int|
        0 <= i < m.scores.len() ==> players_contain(m.players, (#[trigger] m.scores[i]).client)
    &&& forall|i: int| 0 <= i < m.minions.len() ==> (#[trigger] m.minions[i]).entity < m.next_entity
    &&& forall|a: int, b: int|
        0 <= a < b < m.minions.len() ==> m.minions[a].entity != m.minions[b].entity
    &&& forall|i: int| 0 <= i < m.minions.len() ==> (#[trigger] m.minions[i]).pos.0.in_bounds()
    &&& forall|i: int| 0 <= i < m.minions.len() ==> (#[trigger] m.minions[i]).target.0.in_bounds()
    &&& forall|i: int|
        0 <= i < m.minions.len() ==> rows_contain(m.scores, (#[trigger] m.minions[i]).owner.0)
    &&& forall|i: int| 0 <= i < m.items.len() ==> (#[trigger] m.items[i]).pos.0.in_bounds()
}

/// What accepting a connection does to the model: a known client changes
/// nothing; a new client appends a player at the origin with the given
/// color and a zero scoreboard row.
pub open spec fn accept_spec(m: ServerModel, client: u64, color: Rgb) -> ServerModel {
    if players_contain(m.players, client) {
        m
    } else {
        ServerModel {
            players: m.players.push(
                Player {
                    id: PlayerId(client),
                    pos: PlayerPosition(Vec2 { x: 0, y: 0 }),
                    color: PlayerColor(color),
                },
            ),
            minions: m.minions,
            items: m.items,
            scores: m.scores.push(ScoreEntry { client, score: 0 }),
            next_entity: m.next_entity,
        }
    }
}

/// What one buffered input does to the model: movement for the sender's
/// player, or a fresh authoritative minion for a spawn request. Input from
/// a client with no player is dropped.
pub open spec fn apply_event_spec(m: ServerModel, ev: InputEvent) -> ServerModel {
    if !players_contain(m.players, ev.client) {
        m
    } else {
        let i = player_index(m.players, ev.client);
        let p = m.players[i];
        match ev.input {
            Inputs::Direction(dir) => ServerModel {
                players: m.players.update(
                    i,
                    Player {
                        id: p.id,
                        pos: PlayerPosition(crate::movement::dir_moved(p.pos.0, dir)),
                        color: p.color,
                    },
                ),
                minions: m.minions,
                items: m.items,
                scores: m.scores,
                next_entity: m.next_entity,
            },
            Inputs::Spawn(pos, color) => {
                if m.next_entity == u64::MAX {
                    m
                } else {
                    ServerModel {
                        players: m.players,
                        minions: m.minions.push(
                            Minion {
                                entity: m.next_entity,
                                owner: OwnedBy(ev.client),
                                pos: MinionPosition(pos.clamped_spec()),
                                target: MinionTarget(default_target_spec()),
                                color: PlayerColor(color),
                            },
                        ),
                        items: m.items,
                        scores: m.scores,
                        next_entity: (m.next_entity + 1) as u64,
                    }
                }
            },
            Inputs::NoInput => m,
        }
    }
}

/// Buffered inputs applied in arrival order.
pub open spec fn apply_events_spec(m: ServerModel, evs: Seq<InputEvent>) -> ServerModel
    decreases evs.len(),
{
    if evs.len() == 0 {
        m
    } else {
        apply_events_spec(apply_event_spec(m, evs.first()), evs.drop_first())
    }
}

/// Every referenced minion that still exists is retargeted; references to
/// unknown entities are skipped. Ownership plays no role: the sender is not
/// consulted.
pub open spec fn retarget_spec(minions: Seq<Minion>, refs: Seq<u64>, pos: Vec2) -> Seq<Minion> {
    minions.map(
        |_i: int, mn: Minion|
            if refs.contains(mn.entity) {
                Minion { entity: mn.entity, owner: mn.owner, pos: mn.pos, target: MinionTarget(pos), color: mn.color }
            } else {
                mn
            },
    )
}

/// What one targeting command does to the model.
pub open spec fn apply_message_spec(m: ServerModel, msg: ClientMessage) -> ServerModel {
    ServerModel {
        players: m.players,
        minions: retarget_spec(m.minions, msg.entities(), msg.position().clamped_spec()),
        items: m.items,
        scores: m.scores,
        next_entity: m.next_entity,
    }
}

/// Received commands applied in arrival order.
pub open spec fn apply_messages_spec(m: ServerModel, msgs: Seq<ClientMessage>) -> ServerModel
    decreases msgs.len(),
{
    if msgs.len() == 0 {
        m
    } else {
        apply_messages_spec(apply_message_spec(m, msgs.first()), msgs.drop_first())
    }
}

proof fn lemma_apply_events_snoc(m: ServerModel, evs: Seq<InputEvent>, ev: InputEvent)
    ensures
        apply_events_spec(m, evs.push(ev)) == apply_event_spec(apply_events_spec(m, evs), ev),
    decreases evs.len(),
{
    assert(evs.push(ev).len() == evs.len() + 1);
    if evs.len() == 0 {
        assert(evs.push(ev).first() == ev);
        assert(evs.push(ev).drop_first() =~= Seq::<InputEvent>::empty());
        assert(apply_events_spec(m, evs.push(ev)) == apply_events_spec(
            apply_event_spec(m, ev),
            evs.push(ev).drop_first(),
        ));
    } else {
        assert(evs.push(ev).first() == evs.first());
        assert(evs.push(ev).drop_first() =~= evs.drop_first().push(ev));
        lemma_apply_events_snoc(apply_event_spec(m, evs.first()), evs.drop_first(), ev);
    }
}

proof fn lemma_apply_messages_snoc(m: ServerModel, msgs: Seq<ClientMessage>, msg: ClientMessage)
    ensures
        apply_messages_spec(m, msgs.push(msg)) == apply_message_spec(
            apply_messages_spec(m, msgs),
            msg,
        ),
    decreases msgs.len(),
{
    assert(msgs.push(msg).len() == msgs.len() + 1);
    if msgs.len() == 0 {
        assert(msgs.push(msg).first() == msg);
        assert(msgs.push(msg).drop_first() =~= Seq::<ClientMessage>::empty());
        assert(apply_messages_spec(m, msgs.push(msg)) == apply_messages_spec(
            apply_message_spec(m, msg),
            msgs.push(msg).drop_first(),
        ));
    } else {
        assert(msgs.push(msg).first() == msgs.first());
        assert(msgs.push(msg).drop_first() =~= msgs.drop_first().push(msg));
        lemma_apply_messages_snoc(apply_message_spec(m, msgs.first()), msgs.drop_first(), msg);
    }
}

proof fn lemma_accept_inv(m: ServerModel, client: u64, color: Rgb)
    requires
        inv(m),
    ensures
        inv(accept_spec(m, client, color)),
{
    let m2 = accept_spec(m, client, color);
    if !players_contain(m.players, client) {
        if rows_contain(m.scores, client) {
            let w = choose|k: int| 0 <= k < m.scores.len() && m.scores[k].client == client;
            assert(players_contain(m.players, m.scores[w].client));
        }
        assert forall|a: int, b: int|
            0 <= a < b < m2.players.len() implies m2.players[a].id.0 != m2.players[b].id.0 by {
            if b < m.players.len() {
                assert(m.players[a].id.0 != m.players[b].id.0);
            } else {
                if m2.players[a].id.0 == client {
                    assert(players_contain(m.players, client));
                }
            }
        }
        assert forall|a: int, b: int|
            0 <= a < b < m2.scores.len() implies m2.scores[a].client != m2.scores[b].client by {
            if b < m.scores.len() {
                assert(m.scores[a].client != m.scores[b].client);
            } else {
                if m2.scores[a].client == client {
                    assert(rows_contain(m.scores, client));
                }
            }
        }
        assert forall|i: int|
            0 <= i < m2.players.len() implies rows_contain(
            m2.scores,
            (#[trigger] m2.players[i]).id.0,
        ) by {
            if i < m.players.len() {
                assert(rows_contain(m.scores, m.players[i].id.0));
                let w = choose|k: int|
                    0 <= k < m.scores.len() && m.scores[k].client == m.players[i].id.0;
                assert(m2.scores[w].client == m2.players[i].id.0);
            } else {
                assert(m2.scores[m.scores.len() as int].client == client);
            }
        }
        assert forall|i: int|
            0 <= i < m2.scores.len() implies players_contain(
            m2.players,
            (#[trigger] m2.scores[i]).client,
        ) by {
            if i < m.scores.len() {
                let w = choose|k: int|
                    0 <= k < m.players.len() && m.players[k].id.0 == m.scores[i].client;
                assert(m2.players[w].id.0 == m2.scores[i].client);
            } else {
                assert(m2.players[m.players.len() as int].id.0 == client);
            }
        }
        assert forall|i: int|
            0 <= i < m2.minions.len() implies rows_contain(
            m2.scores,
            (#[trigger] m2.minions[i]).owner.0,
        ) by {
            assert(rows_contain(m.scores, m.minions[i].owner.0));
            let w = choose|k: int|
                0 <= k < m.scores.len() && m.scores[k].client == m.minions[i].owner.0;
            assert(m2.scores[w].client == m2.minions[i].owner.0);
        }
    }
}

proof fn lemma_apply_event_inv(m: ServerModel, ev: InputEvent)
    requires
        inv(m),
    ensures
        inv(apply_event_spec(m, ev)),
{
    let m2 = apply_event_spec(m, ev);
    if players_contain(m.players, ev.client) {
        let w = choose|k: int| 0 <= k < m.players.len() && m.players[k].id.0 == ev.client;
        lemma_player_index_finds(m.players, ev.client, w);
        let i = player_index(m.players, ev.client);
        match ev.input {
            Inputs::Direction(dir) => {
                assert forall|a: int, b: int|
                    0 <= a < b < m2.players.len() implies m2.players[a].id.0
                    != m2.players[b].id.0 by {
                    assert(m.players[a].id.0 != m.players[b].id.0);
                }
                assert forall|j: int|
                    0 <= j < m2.players.len() implies (#[trigger] m2.players[j]).pos.0.in_bounds() by {
                    if j != i {
                        assert(m.players[j].pos.0.in_bounds());
                    }
                }
                assert forall|j: int|
                    0 <= j < m2.players.len() implies rows_contain(
                    m2.scores,
                    (#[trigger] m2.players[j]).id.0,
                ) by {
                    assert(m2.players[j].id.0 == m.players[j].id.0);
                    assert(rows_contain(m.scores, m.players[j].id.0));
                }
                assert forall|j: int|
                    0 <= j < m2.scores.len() implies players_contain(
                    m2.players,
                    (#[trigger] m2.scores[j]).client,
                ) by {
                    assert(players_contain(m.players, m.scores[j].client));
                    let wp = choose|k: int|
                        0 <= k < m.players.len() && m.players[k].id.0 == m.scores[j].client;
                    assert(m2.players[wp].id.0 == m.scores[j].client);
                }
            },
            Inputs::Spawn(pos, color) => {
                if m.next_entity != u64::MAX {
                    assert(pos.clamped_spec().in_bounds());
                    assert(default_target_spec().in_bounds());
                    assert forall|a: int, b: int|
                        0 <= a < b < m2.minions.len() implies m2.minions[a].entity
                        != m2.minions[b].entity by {
                        if b < m.minions.len() {
                            assert(m.minions[a].entity != m.minions[b].entity);
                        } else {
                            assert(m.minions[a].entity < m.next_entity);
                        }
                    }
                    assert forall|j: int|
                        0 <= j < m2.minions.len() implies rows_contain(
                        m2.scores,
                        (#[trigger] m2.minions[j]).owner.0,
                    ) by {
                        if j < m.minions.len() {
                            assert(rows_contain(m.scores, m.minions[j].owner.0));
                        } else {
                            assert(m2.minions[j].owner.0 == ev.client);
                            assert(rows_contain(m.scores, m.players[i].id.0));
                        }
                    }
                }
            },
            Inputs::NoInput => {},
        }
    }
}

proof fn lemma_apply_message_inv(m: ServerModel, msg: ClientMessage)
    requires
        inv(m),
    ensures
        inv(apply_message_spec(m, msg)),
{
    let m2 = apply_message_spec(m, msg);
    assert forall|a: int, b: int|
        0 <= a < b < m2.minions.len() implies m2.minions[a].entity != m2.minions[b].entity by {
        assert(m.minions[a].entity != m.minions[b].entity);
    }
    assert forall|j: int|
        0 <= j < m2.minions.len() implies rows_contain(
        m2.scores,
        (#[trigger] m2.minions[j]).owner.0,
    ) by {
        assert(m2.minions[j].owner.0 == m.minions[j].owner.0);
        assert(rows_contain(m.scores, m.minions[j].owner.0));
    }
}

impl ServerState {
    /// The world invariant of the state's model.
    pub open spec fn wf(self) -> bool {
        inv(self@)
    }

    /// The index of this client's player, if any.
    fn find_player(&self, client: u64) -> (r: Option<usize>)
        requires
            self.wf(),
        ensures
            match r {
                Some(i) => i < self.players@.len() && self.players@[i as int].id.0 == client
                    && player_index(self.players@, client) == i,
                None => !players_contain(self.players@, client),
            },
    {
        let mut i: usize = 0;
        while i < self.players.len()
            invariant
                i <= self.players@.len(),
                self.wf(),
                forall|j: int| 0 <= j < i ==> self.players@[j].id.0 != client,
            decreases self.players@.len() - i,
        {
            if self.players.get(i).unwrap().id.0 == client {
                proof {
                    assert(self@.players == self.players@);
                    assert forall|a: int, b: int|
                        0 <= a < b < self.players@.len() implies self.players@[a].id.0
                        != self.players@[b].id.0 by {
                        assert(self@.players[a].id.0 != self@.players[b].id.0);
                    }
                    lemma_player_index_finds(self.players@, client, i as int);
                }
                return Some(i);
            }
            i = i + 1;
        }
        None
    }

    /// Register one connection: a new client gets a player at the origin
    /// with the given color and a zero scoreboard row; a known client is
    /// left untouched.
    pub fn accept_connection(&mut self, client: u64, color: Rgb)
        requires
            old(self).wf(),
        ensures
            final(self).wf(),
            final(self)@ == accept_spec(old(self)@, client, color),
    {
        proof {
            lemma_accept_inv(self@, client, color);
        }
        match self.find_player(client) {
            Some(_) => {},
            None => {
                self.players.push(
                    Player {
                        id: PlayerId(client),
                        pos: PlayerPosition(Vec2 { x: 0, y: 0 }),
                        color: PlayerColor(color),
                    },
                );
                self.scoreboard.0.push(ScoreEntry { client, score: 0 });
            },
        }
    }

    /// Apply one buffered input to the sender's player, spawning a minion
    /// where the input asks for one.
    pub fn apply_event(&mut self, ev: &InputEvent)
        requires
            old(self).wf(),
        ensures
            final(self).wf(),
            final(self)@ == apply_event_spec(old(self)@, *ev),
    {
        proof {
            lemma_apply_event_inv(self@, *ev);
        }
        match self.find_player(ev.client) {
            None => {},
            Some(i) => {
                let mut p: Player = *self.players.get(i).unwrap();
                let spawn: Option<SpawnRequest> = shared_movement_behaviour(&ev.input, &mut p.pos);
                self.players[i] = p;
                proof {
                    if ev.input is Spawn || ev.input is NoInput {
                        assert(self.players@ =~= old(self).players@);
                    }
                }
                match spawn {
                    None => {},
                    Some(req) => {
                        if self.next_entity < u64::MAX {
                            let entity = self.next_entity;
                            self.next_entity = self.next_entity + 1;
                            self.minions.push(
                                Minion {
                                    entity,
                                    owner: OwnedBy(ev.client),
                                    pos: MinionPosition(req.pos),
                                    target: MinionTarget(default_target()),
                                    color: PlayerColor(req.color),
                                },
                            );
                        }
                    },
                }
            },
        }
    }

    /// Retarget every referenced minion that exists to the command's
    /// position; unknown references are skipped and the sender's ownership
    /// of the minions is deliberately not checked.
    pub fn apply_message(&mut self, msg: &ClientMessage)
        requires
            old(self).wf(),
        ensures
            final(self).wf(),
            final(self)@ == apply_message_spec(old(self)@, *msg),
    {
        proof {
            lemma_apply_message_inv(self@, *msg);
        }
        let ClientMessage::Target(refs, pos) = msg;
        let target: Vec2 = pos.clamped();
        let ghost orig = self.minions@;
        let mut k: usize = 0;
        while k < self.minions.len()
            invariant
                k <= self.minions@.len(),
                self.minions@.len() == orig.len(),
                forall|j: int| k <= j < orig.len() ==> self.minions@[j] == orig[j],
                forall|j: int|
                    0 <= j < k ==> self.minions@[j] == (if refs@.contains(orig[j].entity) {
                        Minion {
                            entity: orig[j].entity,
                            owner: orig[j].owner,
                            pos: orig[j].pos,
                            target: MinionTarget(target),
                            color: orig[j].color,
                        }
                    } else {
                        orig[j]
                    }),
                self.players@ == old(self).players@,
                self.items@ == old(self).items@,
                self.scoreboard == old(self).scoreboard,
                self.next_entity == old(self).next_entity,
            decreases self.minions@.len() - k,
        {
            let mn: Minion = *self.minions.get(k).unwrap();
            if contains_id(refs, mn.entity) {
                self.minions[k] = Minion {
                    entity: mn.entity,
                    owner: mn.owner,
                    pos: mn.pos,
                    target: MinionTarget(target),
                    color: mn.color,
                };
            }
            k = k + 1;
        }
        proof {
            assert(self.minions@ =~= retarget_spec(orig, msg.entities(), msg.position().clamped_spec()));
        }
    }

    /// Apply this tick's buffered inputs, then its received commands, in
    /// arrival order.
    pub fn handle_inputs(&mut self, inputs: &Vec<InputEvent>, messages: &Vec<ClientMessage>)
        requires
            old(self).wf(),
        ensures
            final(self).wf(),
            final(self)@ == apply_messages_spec(
                apply_events_spec(old(self)@, inputs@),
                messages@,
            ),
    {
        let ghost m0 = self@;
        let mut k: usize = 0;
        while k < inputs.len()
            invariant
                k <= inputs@.len(),
                self.wf(),
                self@ == apply_events_spec(m0, inputs@.take(k as int)),
            decreases inputs@.len() - k,
        {
            proof {
                assert(inputs@.take(k as int + 1) =~= inputs@.take(k as int).push(inputs@[k as int]));
                lemma_apply_events_snoc(m0, inputs@.take(k as int), inputs@[k as int]);
            }
            self.apply_event(event_at(inputs, k));
            k = k + 1;
        }
        proof {
            assert(inputs@.take(inputs@.len() as int) =~= inputs@);
        }
        let ghost m1 = self@;
        let mut k2: usize = 0;
        while k2 < messages.len()
            invariant
                k2 <= messages@.len(),
                self.wf(),
                self@ == apply_messages_spec(m1, messages@.take(k2 as int)),
            decreases messages@.len() - k2,
        {
            proof {
                assert(messages@.take(k2 as int + 1) =~= messages@.take(k2 as int).push(
                    messages@[k2 as int],
                ));
                lemma_apply_messages_snoc(m1, messages@.take(k2 as int), messages@[k2 as int]);
            }
            self.apply_message(messages.get(k2).unwrap());
            k2 = k2 + 1;
        }
        proof {
            assert(messages@.take(messages@.len() as int) =~= messages@);
        }
    }
}

/// Shared access to one buffered input.
fn event_at(inputs: &Vec<InputEvent>, k: usize) -> (r: &InputEvent)
    requires
        k < inputs@.len(),
    ensures
        *r == inputs@[k as int],
{
    inputs.get(k).unwrap()
}

/// The initial authoritative world: no players or minions yet, one apple
/// at world position (2, 2), an empty scoreboard.
pub fn start_server() -> (s: ServerState)
    ensures
        s.wf(),
        s.players@.len() == 0,
        s.minions@.len() == 0,
        s.items@.len() == 1,
        s.items@[0] == (WorldItem {
            kind: Item::Apple,
            pos: ItemPos(Vec2 { x: ((2 * SUBUNITS) as i64), y: ((2 * SUBUNITS) as i64) }),
        }),
        s.scoreboard.0@.len() == 0,
        s.next_entity == 0,
{
    let mut items: Vec<WorldItem> = Vec::new();
    items.push(
        WorldItem { kind: Item::Apple, pos: ItemPos(Vec2 { x: 2 * SUBUNITS, y: 2 * SUBUNITS }) },
    );
    ServerState {
        players: Vec::new(),
        minions: Vec::new(),
        items,
        scoreboard: Scoreboard::new(),
        next_entity: 0,
    }
}

/// Advance every minion one tick toward its target, identically on the
/// server and on predicting or interpolating clients. Positions follow
/// [`steer_spec`]; every other attribute is untouched, and the distance to
/// the (unchanged) target never grows.
pub fn minion_movement(minions: &mut Vec<Minion>)
    requires
        forall|i: int| 0 <= i < old(minions)@.len() ==> (#[trigger] old(minions)@[i]).pos.0.in_bounds(),
        forall|i: int|
            0 <= i < old(minions)@.len() ==> (#[trigger] old(minions)@[i]).target.0.in_bounds(),
    ensures
        final(minions)@.len() == old(minions)@.len(),
        forall|i: int|
            0 <= i < old(minions)@.len() ==> {
                let pre = old(minions)@[i];
                let post = #[trigger] final(minions)@[i];
                &&& post.entity == pre.entity
                &&& post.owner == pre.owner
                &&& post.target == pre.target
                &&& post.color == pre.color
                &&& post.pos.0.x == steer_spec(pre.pos.0, pre.target.0, MINION_STEP as int).0
                &&& post.pos.0.y == steer_spec(pre.pos.0, pre.target.0, MINION_STEP as int).1
                &&& post.pos.0.in_bounds()
                &&& dist_sq(post.pos.0, pre.target.0) <= dist_sq(pre.pos.0, pre.target.0)
                &&& dist_sq(pre.pos.0, pre.target.0) < crate::units::SNAP_EPSILON_SQ
                    ==> post.pos.0 == pre.target.0
            },
{
    let ghost orig = minions@;
    let mut k: usize = 0;
    while k < minions.len()
        invariant
            k <= minions@.len(),
            minions@.len() == orig.len(),
            forall|i: int| 0 <= i < orig.len() ==> (#[trigger] orig[i]).pos.0.in_bounds(),
            forall|i: int| 0 <= i < orig.len() ==> (#[trigger] orig[i]).target.0.in_bounds(),
            forall|j: int| k <= j < orig.len() ==> minions@[j] == orig[j],
            forall|j: int|
                0 <= j < k ==> {
                    let pre = orig[j];
                    let post = #[trigger] minions@[j];
                    &&& post.entity == pre.entity
                    &&& post.owner == pre.owner
                    &&& post.target == pre.target
                    &&& post.color == pre.color
                    &&& post.pos.0.x == steer_spec(pre.pos.0, pre.target.0, MINION_STEP as int).0
                    &&& post.pos.0.y == steer_spec(pre.pos.0, pre.target.0, MINION_STEP as int).1
                    &&& post.pos.0.in_bounds()
                    &&& dist_sq(post.pos.0, pre.target.0) <= dist_sq(pre.pos.0, pre.target.0)
                    &&& dist_sq(pre.pos.0, pre.target.0) < crate::units::SNAP_EPSILON_SQ
                        ==> post.pos.0 == pre.target.0
                },
        decreases minions@.len() - k,
    {
        let mn: Minion = *minions.get(k).unwrap();
        proof {
            assert(minions@[k as int] == orig[k as int]);
            assert(orig[k as int].pos.0.in_bounds());
            assert(orig[k as int].target.0.in_bounds());
        }
        let np: Vec2 = steer(mn.pos.0, mn.target.0, MINION_STEP);
        minions[k] = Minion {
            entity: mn.entity,
            owner: mn.owner,
            pos: MinionPosition(np),
            target: mn.target,
            color: mn.color,
        };
        k = k + 1;
    }
}


/// Relies on `rand::random`: a value drawn from the thread-local generator.
/// Nothing is promised of the result; every caller states what holds of
/// every outcome.
pub assume_specification<T>[ rand::random::<T> ]() -> (r: T)
    where
        rand::distributions::Standard: rand::distributions::Distribution<T>,
;

/// Connections applied in arrival order, one color per connection.
pub open spec fn apply_connections_spec(
    m: ServerModel,
    clients: Seq<u64>,
    colors: Seq<Rgb>,
) -> ServerModel
    recommends
        clients.len() == colors.len(),
    decreases clients.len(),
{
    if clients.len() == 0 {
        m
    } else {
        apply_connections_spec(
            accept_spec(m, clients.first(), colors.first()),
            clients.drop_first(),
            colors.drop_first(),
        )
    }
}

proof fn lemma_apply_connections_snoc(
    m: ServerModel,
    clients: Seq<u64>,
    colors: Seq<Rgb>,
    cl: u64,
    co: Rgb,
)
    requires
        clients.len() == colors.len(),
    ensures
        apply_connections_spec(m, clients.push(cl), colors.push(co)) == accept_spec(
            apply_connections_spec(m, clients, colors),
            cl,
            co,
        ),
    decreases clients.len(),
{
    assert(clients.push(cl).len() == clients.len() + 1);
    if clients.len() == 0 {
        assert(clients.push(cl).first() == cl);
        assert(colors.push(co).first() == co);
        assert(clients.push(cl).drop_first() =~= Seq::<u64>::empty());
        assert(colors.push(co).drop_first() =~= Seq::<Rgb>::empty());
        assert(apply_connections_spec(m, clients.push(cl), colors.push(co))
            == apply_connections_spec(
            accept_spec(m, cl, co),
            clients.push(cl).drop_first(),
            colors.push(co).drop_first(),
        ));
    } else {
        assert(clients.push(cl).first() == clients.first());
        assert(colors.push(co).first() == colors.first());
        assert(clients.push(cl).drop_first() =~= clients.drop_first().push(cl));
        assert(colors.push(co).drop_first() =~= colors.drop_first().push(co));
        lemma_apply_connections_snoc(
            accept_spec(m, clients.first(), colors.first()),
            clients.drop_first(),
            colors.drop_first(),
            cl,
            co,
        );
    }
}

impl ServerState {
    /// Register every connection event of this tick, each with a random
    /// color. The contract states what holds whatever colors came back:
    /// the new model is the fold of [`accept_spec`] over the events under
    /// some sequence of colors.
    pub fn handle_connections(&mut self, connections: &Vec<u64>)
        requires
            old(self).wf(),
        ensures
            final(self).wf(),
            exists|colors: Seq<Rgb>|
                colors.len() == connections@.len() && final(self)@ == apply_connections_spec(
                    old(self)@,
                    connections@,
                    colors,
                ),
    {
        let ghost m0 = self@;
        let ghost mut colors: Seq<Rgb> = Seq::empty();
        let mut k: usize = 0;
        proof {
            assert(connections@.take(0) =~= Seq::<u64>::empty());
        }
        while k < connections.len()
            invariant
                k <= connections@.len(),
                colors.len() == k,
                self.wf(),
                self@ == apply_connections_spec(m0, connections@.take(k as int), colors),
            decreases connections@.len() - k,
        {
            let color = Rgb { r: rand::random::<u8>(), g: rand::random::<u8>(), b: rand::random::<u8>() };
            proof {
                assert(connections@.take(k as int + 1) =~= connections@.take(k as int).push(
                    connections@[k as int],
                ));
                lemma_apply_connections_snoc(
                    m0,
                    connections@.take(k as int),
                    colors,
                    connections@[k as int],
                    color,
                );
                colors = colors.push(color);
            }
            self.accept_connection(*connections.get(k).unwrap(), color);
            k = k + 1;
        }
        proof {
            assert(connections@.take(connections@.len() as int) =~= connections@);
        }
    }
}

/// How many items lie within scoring range of this position.
pub open spec fn items_in_range(pos: Vec2, items: Seq<WorldItem>) -> int
    decreases items.len(),
{
    if items.len() == 0 {
        0
    } else {
        items_in_range(pos, items.drop_last()) + (if dist_sq(pos, items.last().pos.0)
            < SCORE_RANGE_SQ {
            1int
        } else {
            0int
        })
    }
}

/// How many (minion, item) pairs score for this client: pairs whose minion
/// the client owns and whose distance is under one world unit.
pub open spec fn pair_count(minions: Seq<Minion>, items: Seq<WorldItem>, client: u64) -> int
    decreases minions.len(),
{
    if minions.len() == 0 {
        0
    } else {
        pair_count(minions.drop_last(), items, client) + (if minions.last().owner.0 == client {
            items_in_range(minions.last().pos.0, items)
        } else {
            0int
        })
    }
}

/// Addition into a `u64` score, saturating at the top.
pub open spec fn sat_add_u64(a: u64, b: int) -> u64
    recommends
        b >= 0,
{
    if a + b > u64::MAX {
        u64::MAX
    } else {
        ((a + b) as u64)
    }
}

proof fn lemma_items_in_range_bounds(pos: Vec2, items: Seq<WorldItem>)
    ensures
        0 <= items_in_range(pos, items) <= items.len(),
    decreases items.len(),
{
    if items.len() > 0 {
        lemma_items_in_range_bounds(pos, items.drop_last());
    }
}

proof fn lemma_pair_count_nonneg(minions: Seq<Minion>, items: Seq<WorldItem>, client: u64)
    ensures
        0 <= pair_count(minions, items, client),
    decreases minions.len(),
{
    if minions.len() > 0 {
        lemma_pair_count_nonneg(minions.drop_last(), items, client);
        lemma_items_in_range_bounds(minions.last().pos.0, items);
    }
}

impl ServerState {
    /// The index of this client's scoreboard row, if any.
    fn find_row(&self, client: u64) -> (r: Option<usize>)
        ensures
            match r {
                Some(i) => i < self.scoreboard.0@.len() && self.scoreboard.0@[i as int].client
                    == client,
                None => forall|j: int|
                    0 <= j < self.scoreboard.0@.len() ==> self.scoreboard.0@[j].client != client,
            },
    {
        let mut i: usize = 0;
        while i < self.scoreboard.0.len()
            invariant
                i <= self.scoreboard.0@.len(),
                forall|j: int| 0 <= j < i ==> self.scoreboard.0@[j].client != client,
            decreases self.scoreboard.0@.len() - i,
        {
            if self.scoreboard.0.get(i).unwrap().client == client {
                return Some(i);
            }
            i = i + 1;
        }
        None
    }

    /// The once-per-second proximity scan: every (minion, item) pair within
    /// one world unit awards the minion's owner one point, saturating at
    /// the top of the score range. A minion parked on an item scores again
    /// on every pass, deliberately. Everything but the scores is untouched.
    pub fn update_scoreboard(&mut self)
        requires
            old(self).wf(),
        ensures
            final(self).wf(),
            final(self).players@ == old(self).players@,
            final(self).minions@ == old(self).minions@,
            final(self).items@ == old(self).items@,
            final(self).next_entity == old(self).next_entity,
            final(self).scoreboard.0@.len() == old(self).scoreboard.0@.len(),
            forall|j: int|
                0 <= j < old(self).scoreboard.0@.len() ==> #[trigger] final(self).scoreboard.0@[j]
                    == (ScoreEntry {
                    client: old(self).scoreboard.0@[j].client,
                    score: sat_add_u64(
                        old(self).scoreboard.0@[j].score,
                        pair_count(
                            old(self).minions@,
                            old(self).items@,
                            old(self).scoreboard.0@[j].client,
                        ),
                    ),
                }),
    {
        let ghost pre = self.scoreboard.0@;
        let ghost minions0 = self.minions@;
        let ghost items0 = self.items@;
        proof {
            assert(minions0.take(0) =~= Seq::<Minion>::empty());
        }
        let mut k: usize = 0;
        while k < self.minions.len()
            invariant
                k <= self.minions@.len(),
                inv(old(self)@),
                self.players@ == old(self).players@,
                self.minions@ == minions0,
                minions0 == old(self).minions@,
                self.items@ == items0,
                items0 == old(self).items@,
                self.next_entity == old(self).next_entity,
                pre == old(self).scoreboard.0@,
                self.scoreboard.0@.len() == pre.len(),
                forall|j: int|
                    0 <= j < pre.len() ==> #[trigger] self.scoreboard.0@[j] == (ScoreEntry {
                        client: pre[j].client,
                        score: sat_add_u64(
                            pre[j].score,
                            pair_count(minions0.take(k as int), items0, pre[j].client),
                        ),
                    }),
            decreases self.minions@.len() - k,
        {
            let mn: Minion = *self.minions.get(k).unwrap();
            proof {
                assert(old(self)@.minions == old(self).minions@);
                assert(old(self)@.scores == old(self).scoreboard.0@);
                assert(minions0[k as int].pos.0.in_bounds());
            }
            let mut cnt: u64 = 0;
            let mut j: usize = 0;
            proof {
                assert(items0.take(0) =~= Seq::<WorldItem>::empty());
            }
            while j < self.items.len()
                invariant
                    j <= self.items@.len(),
                    self.items@ == items0,
                    inv(old(self)@),
                    items0 == old(self).items@,
                    mn.pos.0.in_bounds(),
                    cnt <= j,
                    cnt == items_in_range(mn.pos.0, items0.take(j as int)),
                decreases self.items@.len() - j,
            {
                proof {
                    assert(old(self)@.items == old(self).items@);
                    assert(items0.take(j as int + 1).drop_last() =~= items0.take(j as int));
                    assert(items0.take(j as int + 1).last() == items0[j as int]);
                    assert(items0[j as int].pos.0.in_bounds());
                }
                let it: WorldItem = *self.items.get(j).unwrap();
                if dist_sq_i64(mn.pos.0, it.pos.0) < SCORE_RANGE_SQ {
                    cnt = cnt + 1;
                }
                j = j + 1;
            }
            proof {
                assert(items0.take(items0.len() as int) =~= items0);
                assert(cnt == items_in_range(mn.pos.0, items0));
            }
            let owner: u64 = mn.owner.0;
            match self.find_row(owner) {
                Some(ri) => {
                    let cur: u64 = self.scoreboard.0.get(ri).unwrap().score;
                    let ns: u64 = if cur > u64::MAX - cnt {
                        u64::MAX
                    } else {
                        cur + cnt
                    };
                    proof {
                        assert(old(self)@.scores == old(self).scoreboard.0@);
                        assert(old(self)@.minions == old(self).minions@);
                        assert(minions0.take(k as int + 1).drop_last() =~= minions0.take(k as int));
                        assert(minions0.take(k as int + 1).last() == minions0[k as int]);
                        lemma_pair_count_nonneg(minions0.take(k as int), items0, pre[ri as int].client);
                        assert forall|c: u64|
                            c != owner implies pair_count(minions0.take(k as int + 1), items0, c)
                            == pair_count(minions0.take(k as int), items0, c) by {}
                    }
                    self.scoreboard.0[ri] = ScoreEntry { client: owner, score: ns };
                    proof {
                        assert forall|j2: int|
                            0 <= j2 < pre.len() implies #[trigger] self.scoreboard.0@[j2]
                            == (ScoreEntry {
                            client: pre[j2].client,
                            score: sat_add_u64(
                                pre[j2].score,
                                pair_count(minions0.take(k as int + 1), items0, pre[j2].client),
                            ),
                        }) by {
                            lemma_pair_count_nonneg(minions0.take(k as int), items0, pre[j2].client);
                            if j2 != ri {
                                if pre[j2].client == owner {
                                    assert(pre[j2].client != pre[ri as int].client);
                                }
                            }
                        }
                    }
                },
                None => {
                    proof {
                        assert(old(self)@.scores == old(self).scoreboard.0@);
                        assert(old(self)@.minions == old(self).minions@);
                        assert(rows_contain(old(self)@.scores, minions0[k as int].owner.0));
                        let w = choose|x: int|
                            0 <= x < pre.len() && pre[x].client == owner;
                        assert(self.scoreboard.0@[w].client == pre[w].client);
                        assert(false);
                    }
                },
            }
            k = k + 1;
        }
        proof {
            assert(old(self)@.minions == old(self).minions@);
            assert(old(self)@.scores == old(self).scoreboard.0@);
            assert(old(self)@.players == old(self).players@);
            assert(old(self)@.items == old(self).items@);
            assert(minions0.take(minions0.len() as int) =~= minions0);
            let post = self.scoreboard.0@;
            assert forall|a: int, b: int|
                0 <= a < b < post.len() implies post[a].client != post[b].client by {
                assert(pre[a].client != pre[b].client);
            }
            assert forall|i: int|
                0 <= i < self.players@.len() implies rows_contain(
                post,
                (#[trigger] self.players@[i]).id.0,
            ) by {
                assert(rows_contain(pre, self.players@[i].id.0));
                let w = choose|x: int| 0 <= x < pre.len() && pre[x].client == self.players@[i].id.0;
                assert(post[w].client == self.players@[i].id.0);
            }
            assert forall|i: int|
                0 <= i < self.minions@.len() implies rows_contain(
                post,
                (#[trigger] self.minions@[i]).owner.0,
            ) by {
                assert(rows_contain(pre, self.minions@[i].owner.0));
                let w = choose|x: int|
                    0 <= x < pre.len() && pre[x].client == self.minions@[i].owner.0;
                assert(post[w].client == self.minions@[i].owner.0);
            }
            assert forall|i: int|
                0 <= i < post.len() implies players_contain(
                self.players@,
                (#[trigger] post[i]).client,
            ) by {
                assert(post[i].client == pre[i].client);
                assert(players_contain(old(self)@.players, pre[i].client));
            }
        }
    }
}

/// Applying the same targeting command twice in a row leaves exactly the
/// state that applying it once leaves: retargeting is idempotent.
pub proof fn lemma_target_idempotent(m: ServerModel, msg: ClientMessage)
    ensures
        apply_message_spec(apply_message_spec(m, msg), msg) == apply_message_spec(m, msg),
{
    let once = apply_message_spec(m, msg).minions;
    let twice = apply_message_spec(apply_message_spec(m, msg), msg).minions;
    assert forall|i: int| 0 <= i < once.len() implies twice[i] == once[i] by {}
    assert(twice =~= once);
}

/// The server applies a targeting command to every referenced minion that
/// exists, whoever owns it: ownership is deliberately not checked, so a
/// command from one client retargets another client's minion all the same.
pub proof fn lemma_target_ignores_ownership(m: ServerModel, msg: ClientMessage, i: int)
    requires
        0 <= i < m.minions.len(),
        msg.entities().contains(m.minions[i].entity),
    ensures
        apply_message_spec(m, msg).minions[i].target == MinionTarget(
            msg.position().clamped_spec(),
        ),
{
}

} // verus!
