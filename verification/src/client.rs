//! The client-side simulation: per-tick input capture, box selection,
//! command issue with entity translation, prediction of the local player
//! and of optimistically pre-spawned minions, and reconciliation against
//! authoritative snapshots.

use vstd::prelude::*;

use crate::components::ClientMessage;
use crate::components::Direction;
use crate::components::Inputs;
use crate::components::MinionPosition;
use crate::components::MinionTarget;
use crate::components::OwnedBy;
use crate::components::PlayerColor;
use crate::components::PlayerPosition;
use crate::units::RECONCILE_TOLERANCE_SQ;
use crate::units::Vec2;
use crate::units::dist_sq;
use crate::units::dist_sq_i64;

verus! {

/// The world position where a box drag began.
#[derive(Clone, Copy, Debug, PartialEq, Eq, Structural)]
pub struct StartDrag(pub Vec2);

/// The box-selection state machine: idle, or dragging from a recorded
/// origin.
#[derive(Clone, Copy, Debug, PartialEq, Eq, Structural)]
pub enum DragState {
    Idle,
    Dragging(StartDrag),
}

/// The client-local handles of the currently selected minions.
#[derive(Clone, Debug, PartialEq, Eq)]
pub struct SelectedMinions(pub Vec<u64>);

/// The deterministic correlation key of a speculative spawn: both sides
/// construct entities in the same order from the same input stream, so the
/// key (owner, spawning tick, insertion index within that tick) names the
/// same logical entity on client and server.
#[derive(Clone, Copy, Debug, PartialEq, Eq, Structural)]
pub struct PreSpawnKey {
    pub client: u64,
    pub tick: u64,
    pub index: u64,
}

/// A minion as the client sees it: a local handle, the replicated
/// attributes, the local-only `selected` marker (never sent over the
/// wire), and the pre-spawn bookkeeping.
#[derive(Clone, Copy, Debug, PartialEq, Eq, Structural)]
pub struct ClientMinion {
    /// Client-local handle, never sent over the wire.
    pub local_entity: u64,
    pub owner: OwnedBy,
    pub pos: MinionPosition,
    pub target: MinionTarget,
    pub color: PlayerColor,
    /// Local-only selection marker.
    pub selected: bool,
    /// Set while the minion is a speculative pre-spawn.
    pub prespawn: Option<PreSpawnKey>,
    /// The authoritative entity, once the server's copy has been matched.
    pub confirmed: Option<u64>,
    /// The tick this minion was created locally, for the rollback timeout.
    pub spawn_tick: u64,
}

/// The per-tick input buffer: exactly one input value per captured tick,
/// keyed by tick number, in tick order.
#[derive(Clone, Debug, PartialEq, Eq)]
pub struct InputBuffer {
    pub entries: Vec<(u64, Inputs)>,
}

impl InputBuffer {
    /// Ticks strictly increase: at most one input per tick.
    pub open spec fn wf(self) -> bool {
        forall|i: int, j: int|
            0 <= i < j < self.entries@.len() ==> self.entries@[i].0 < self.entries@[j].0
    }

    /// A new capture for this tick may be buffered: the buffer is empty or
    /// ends at or before the tick.
    pub open spec fn can_accept(self, tick: u64) -> bool {
        self.entries@.len() == 0 || self.entries@.last().0 <= tick
    }

    /// The buffer after capturing `input` for `tick`: a repeated tick is
    /// overwritten (still exactly one input per tick), a later tick is
    /// appended.
    pub open spec fn add_input_spec(self, input: Inputs, tick: u64) -> Seq<(u64, Inputs)> {
        if self.entries@.len() > 0 && self.entries@.last().0 == tick {
            self.entries@.update(self.entries@.len() - 1, (tick, input))
        } else {
            self.entries@.push((tick, input))
        }
    }

    pub fn new() -> (r: InputBuffer)
        ensures
            r.entries@.len() == 0,
            r.wf(),
    {
        InputBuffer { entries: Vec::new() }
    }

    /// Buffer exactly one input for this tick.
    pub fn add_input(&mut self, input: Inputs, tick: u64)
        requires
            old(self).wf(),
            old(self).can_accept(tick),
        ensures
            final(self).wf(),
            final(self).entries@ == old(self).add_input_spec(input, tick),
            final(self).entries@.len() > 0,
            final(self).entries@.last() == (tick, input),
    {
        let n = self.entries.len();
        if n > 0 && self.entries.get(n - 1).unwrap().0 == tick {
            self.entries[n - 1] = (tick, input);
        } else {
            self.entries.push((tick, input));
        }
    }

    /// Drain the buffer, handing every captured input over in tick order.
    pub fn drain(&mut self) -> (r: Vec<(u64, Inputs)>)
        ensures
            r@ == old(self).entries@,
            final(self).entries@.len() == 0,
            final(self).wf(),
    {
        let mut out: Vec<(u64, Inputs)> = Vec::new();
        core::mem::swap(&mut out, &mut self.entries);
        out
    }
}

/// The raw device state a client samples for one tick; gathered outside
/// the simulation and handed in as plain values.
#[derive(Clone, Copy, Debug, PartialEq, Eq, Structural)]
pub struct InputSample {
    pub up: bool,
    pub down: bool,
    pub left: bool,
    pub right: bool,
    /// The spawn key was just pressed.
    pub spawn_pressed: bool,
    /// The pointer's world position, where a window and cursor exist.
    pub cursor: Option<Vec2>,
    /// Primary pointer just pressed.
    pub select_pressed: bool,
    /// Primary pointer held down.
    pub select_held: bool,
    /// Primary pointer just released.
    pub select_released: bool,
    /// Secondary pointer just pressed.
    pub command_pressed: bool,
}

/// The single input value derived from one tick's raw sample: movement if
/// any movement key is held, else a spawn if the spawn key was just
/// pressed (and a cursor position and player color exist), else nothing.
pub open spec fn derive_input_spec(sample: InputSample, color: Option<PlayerColor>) -> Inputs {
    let dir = Direction {
        up: sample.up,
        down: sample.down,
        left: sample.left,
        right: sample.right,
    };
    if dir.any_spec() {
        Inputs::Direction(dir)
    } else if sample.spawn_pressed && sample.cursor is Some && color is Some {
        Inputs::Spawn(sample.cursor->0, (color->0).0)
    } else {
        Inputs::NoInput
    }
}

pub fn derive_input(sample: &InputSample, color: Option<PlayerColor>) -> (r: Inputs)
    ensures
        r == derive_input_spec(*sample, color),
{
    let dir = Direction {
        up: sample.up,
        down: sample.down,
        left: sample.left,
        right: sample.right,
    };
    if dir.any() {
        Inputs::Direction(dir)
    } else {
        match (sample.cursor, color) {
            (Some(pos), Some(c)) => {
                if sample.spawn_pressed {
                    Inputs::Spawn(pos, c.0)
                } else {
                    Inputs::NoInput
                }
            },
            _ => Inputs::NoInput,
        }
    }
}

/// Whether `p` lies in the axis-aligned rectangle spanned by the two
/// corners `a` and `b`, edges included. A zero-area rectangle contains
/// exactly its single point.
pub open spec fn rect_contains(a: Vec2, b: Vec2, p: Vec2) -> bool {
    &&& (if a.x <= b.x { a.x <= p.x <= b.x } else { b.x <= p.x <= a.x })
    &&& (if a.y <= b.y { a.y <= p.y <= b.y } else { b.y <= p.y <= a.y })
}

/// The local handles of the minions inside the rectangle that the local
/// player owns, in the order they are stored.
pub open spec fn selected_ids_spec(
    minions: Seq<ClientMinion>,
    a: Vec2,
    b: Vec2,
    local: u64,
) -> Seq<u64>
    decreases minions.len(),
{
    if minions.len() == 0 {
        Seq::empty()
    } else {
        selected_ids_spec(minions.drop_last(), a, b, local) + (if rect_contains(
            a,
            b,
            minions.last().pos.0,
        ) && minions.last().owner.0 == local {
            seq![minions.last().local_entity]
        } else {
            Seq::empty()
        })
    }
}

/// The selection that releasing a box drag produces: exactly the minions
/// whose position lies within the rectangle and whose owner is the local
/// player; minions of other players are never selected, wherever they
/// stand.
pub proof fn lemma_selection_characterization(
    minions: Seq<ClientMinion>,
    a: Vec2,
    b: Vec2,
    local: u64,
    id: u64,
)
    ensures
        selected_ids_spec(minions, a, b, local).contains(id) <==> exists|i: int|
            0 <= i < minions.len() && (#[trigger] minions[i]).local_entity == id
                && rect_contains(a, b, minions[i].pos.0) && minions[i].owner.0 == local,
    decreases minions.len(),
{
    if minions.len() == 0 {
    } else {
        let rest = minions.drop_last();
        lemma_selection_characterization(rest, a, b, local, id);
        let s = selected_ids_spec(minions, a, b, local);
        let sr = selected_ids_spec(rest, a, b, local);
        let hit = rect_contains(a, b, minions.last().pos.0) && minions.last().owner.0 == local;
        if s.contains(id) {
            let w = choose|k: int| 0 <= k < s.len() && s[k] == id;
            if w < sr.len() {
                assert(sr.contains(id));
                let wi = choose|i: int|
                    0 <= i < rest.len() && (#[trigger] rest[i]).local_entity == id
                        && rect_contains(a, b, rest[i].pos.0) && rest[i].owner.0 == local;
                assert(minions[wi].local_entity == id && rect_contains(a, b, minions[wi].pos.0)
                    && minions[wi].owner.0 == local);
            } else {
                assert(hit && id == minions.last().local_entity);
                assert(minions[minions.len() - 1].local_entity == id);
            }
        }
        if exists|i: int|
            0 <= i < minions.len() && (#[trigger] minions[i]).local_entity == id && rect_contains(
            a,
            b,
            minions[i].pos.0,
        ) && minions[i].owner.0 == local {
            let i = choose|i: int|
                0 <= i < minions.len() && (#[trigger] minions[i]).local_entity == id
                    && rect_contains(a, b, minions[i].pos.0) && minions[i].owner.0 == local;
            if i < minions.len() - 1 {
                assert(rest[i].local_entity == id && rect_contains(a, b, rest[i].pos.0)
                    && rest[i].owner.0 == local);
                assert(sr.contains(id));
                let w = choose|k: int| 0 <= k < sr.len() && sr[k] == id;
                assert(s[w] == id);
            } else {
                assert(hit);
                assert(s[s.len() - 1] == id);
            }
        }
    }
}

/// Compute the selection for a released box drag.
pub fn select_in_rect(minions: &Vec<ClientMinion>, a: Vec2, b: Vec2, local: u64) -> (r: Vec<u64>)
    ensures
        r@ == selected_ids_spec(minions@, a, b, local),
{
    let mut out: Vec<u64> = Vec::new();
    let mut k: usize = 0;
    proof {
        assert(minions@.take(0) =~= Seq::<ClientMinion>::empty());
        assert(out@ =~= selected_ids_spec(minions@.take(0), a, b, local));
    }
    while k < minions.len()
        invariant
            k <= minions@.len(),
            out@ == selected_ids_spec(minions@.take(k as int), a, b, local),
        decreases minions@.len() - k,
    {
        proof {
            assert(minions@.take(k as int + 1).drop_last() =~= minions@.take(k as int));
            assert(minions@.take(k as int + 1).last() == minions@[k as int]);
        }
        let mn: ClientMinion = *minions.get(k).unwrap();
        let inside_x: bool = if a.x <= b.x {
            a.x <= mn.pos.0.x && mn.pos.0.x <= b.x
        } else {
            b.x <= mn.pos.0.x && mn.pos.0.x <= a.x
        };
        let inside_y: bool = if a.y <= b.y {
            a.y <= mn.pos.0.y && mn.pos.0.y <= b.y
        } else {
            b.y <= mn.pos.0.y && mn.pos.0.y <= a.y
        };
        if inside_x && inside_y && mn.owner.0 == local {
            out.push(mn.local_entity);
            proof {
                assert(out@ =~= selected_ids_spec(minions@.take(k as int + 1), a, b, local));
            }
        } else {
            proof {
                assert(out@ =~= selected_ids_spec(minions@.take(k as int + 1), a, b, local));
            }
        }
        k = k + 1;
    }
    proof {
        assert(minions@.take(minions@.len() as int) =~= minions@);
    }
    out
}

/// Correct a predicted position against the authoritative one: a
/// divergence beyond the tolerance snaps to the authoritative value, a
/// smaller one keeps the prediction. Deterministic, and monotone in tick
/// order because it depends only on the two positions.
pub fn reconcile(predicted: Vec2, authoritative: Vec2) -> (r: Vec2)
    requires
        predicted.in_bounds(),
        authoritative.in_bounds(),
    ensures
        r == (if dist_sq(predicted, authoritative) > RECONCILE_TOLERANCE_SQ {
            authoritative
        } else {
            predicted
        }),
{
    if dist_sq_i64(predicted, authoritative) > RECONCILE_TOLERANCE_SQ {
        authoritative
    } else {
        predicted
    }
}


/// The index of the first minion with this local handle, or the sequence
/// length where there is none.
pub open spec fn local_index(minions: Seq<ClientMinion>, id: u64) -> int
    decreases minions.len(),
{
    if minions.len() == 0 {
        0
    } else if minions[0].local_entity == id {
        0
    } else {
        1 + local_index(minions.drop_first(), id)
    }
}

proof fn lemma_local_index_prefix(minions: Seq<ClientMinion>, id: u64, i: int)
    requires
        0 <= i <= minions.len(),
        forall|j: int| 0 <= j < i ==> minions[j].local_entity != id,
        i < minions.len() ==> minions[i].local_entity == id,
    ensures
        local_index(minions, id) == i,
    decreases minions.len(),
{
    if minions.len() == 0 {
    } else if minions[0].local_entity == id {
        assert(i == 0);
    } else {
        assert(i != 0);
        let rest = minions.drop_first();
        assert forall|j: int| 0 <= j < i - 1 implies rest[j].local_entity != id by {
            assert(minions[j + 1].local_entity != id);
        }
        lemma_local_index_prefix(rest, id, i - 1);
    }
}

/// The index of the first minion with this local handle, if any.
fn find_local(minions: &Vec<ClientMinion>, id: u64) -> (r: Option<usize>)
    ensures
        match r {
            Some(i) => i < minions@.len() && minions@[i as int].local_entity == id && local_index(
                minions@,
                id,
            ) == i,
            None => local_index(minions@, id) == minions@.len(),
        },
{
    let mut i: usize = 0;
    while i < minions.len()
        invariant
            i <= minions@.len(),
            forall|j: int| 0 <= j < i ==> minions@[j].local_entity != id,
        decreases minions@.len() - i,
    {
        if minions.get(i).unwrap().local_entity == id {
            proof {
                lemma_local_index_prefix(minions@, id, i as int);
            }
            return Some(i);
        }
        i = i + 1;
    }
    proof {
        lemma_local_index_prefix(minions@, id, minions@.len() as int);
    }
    None
}

/// The authoritative references of the selected minions, in selection
/// order: each selected handle whose minion has a confirmed authoritative
/// counterpart contributes that counterpart; handles with no confirmed
/// counterpart yet (or no minion at all) are silently omitted.
pub open spec fn confirmed_refs_spec(minions: Seq<ClientMinion>, selected: Seq<u64>) -> Seq<u64>
    decreases selected.len(),
{
    if selected.len() == 0 {
        Seq::empty()
    } else {
        confirmed_refs_spec(minions, selected.drop_last()) + ({
            let i = local_index(minions, selected.last());
            if i < minions.len() && minions[i].confirmed is Some {
                seq![minions[i].confirmed->0]
            } else {
                Seq::empty()
            }
        })
    }
}

/// Translate the selection to authoritative references for an outgoing
/// command.
pub fn confirmed_refs(minions: &Vec<ClientMinion>, selected: &Vec<u64>) -> (r: Vec<u64>)
    ensures
        r@ == confirmed_refs_spec(minions@, selected@),
{
    let mut out: Vec<u64> = Vec::new();
    let mut k: usize = 0;
    proof {
        assert(selected@.take(0) =~= Seq::<u64>::empty());
        assert(out@ =~= confirmed_refs_spec(minions@, selected@.take(0)));
    }
    while k < selected.len()
        invariant
            k <= selected@.len(),
            out@ == confirmed_refs_spec(minions@, selected@.take(k as int)),
        decreases selected@.len() - k,
    {
        proof {
            assert(selected@.take(k as int + 1).drop_last() =~= selected@.take(k as int));
            assert(selected@.take(k as int + 1).last() == selected@[k as int]);
        }
        match find_local(minions, *selected.get(k).unwrap()) {
            Some(i) => {
                match minions.get(i).unwrap().confirmed {
                    Some(entity) => {
                        out.push(entity);
                        proof {
                            assert(out@ =~= confirmed_refs_spec(
                                minions@,
                                selected@.take(k as int + 1),
                            ));
                        }
                    },
                    None => {
                        proof {
                            assert(out@ =~= confirmed_refs_spec(
                                minions@,
                                selected@.take(k as int + 1),
                            ));
                        }
                    },
                }
            },
            None => {
                proof {
                    assert(out@ =~= confirmed_refs_spec(minions@, selected@.take(k as int + 1)));
                }
            },
        }
        k = k + 1;
    }
    proof {
        assert(selected@.take(selected@.len() as int) =~= selected@);
    }
    out
}

/// Every selected minion retargeted to `pos`; everything else untouched.
pub open spec fn retarget_selected_spec(
    minions: Seq<ClientMinion>,
    selected: Seq<u64>,
    pos: Vec2,
) -> Seq<ClientMinion> {
    minions.map(
        |_i: int, mn: ClientMinion|
            if selected.contains(mn.local_entity) {
                ClientMinion { target: MinionTarget(pos), ..mn }
            } else {
                mn
            },
    )
}

/// Optimistically retarget the locally selected minions, without waiting
/// for the server.
fn retarget_selected(minions: &mut Vec<ClientMinion>, selected: &Vec<u64>, pos: Vec2)
    ensures
        final(minions)@ == retarget_selected_spec(old(minions)@, selected@, pos),
{
    let ghost orig = minions@;
    let mut k: usize = 0;
    while k < minions.len()
        invariant
            k <= minions@.len(),
            minions@.len() == orig.len(),
            forall|j: int| k <= j < orig.len() ==> minions@[j] == orig[j],
            forall|j: int|
                0 <= j < k ==> minions@[j] == (if selected@.contains(orig[j].local_entity) {
                    ClientMinion { target: MinionTarget(pos), ..orig[j] }
                } else {
                    orig[j]
                }),
        decreases minions@.len() - k,
    {
        let mn: ClientMinion = *minions.get(k).unwrap();
        if crate::components::contains_id(selected, mn.local_entity) {
            minions[k] = ClientMinion { target: MinionTarget(pos), ..mn };
        }
        k = k + 1;
    }
    proof {
        assert(minions@ =~= retarget_selected_spec(orig, selected@, pos));
    }
}

/// Every minion's `selected` marker set to whether the new selection
/// names it: selection is a full replace, never additive.
pub open spec fn set_selected_spec(minions: Seq<ClientMinion>, sel: Seq<u64>) -> Seq<ClientMinion> {
    minions.map(
        |_i: int, mn: ClientMinion|
            ClientMinion { selected: sel.contains(mn.local_entity), ..mn },
    )
}

/// Replace the selection markers wholesale.
fn apply_selection(minions: &mut Vec<ClientMinion>, sel: &Vec<u64>)
    ensures
        final(minions)@ == set_selected_spec(old(minions)@, sel@),
{
    let ghost orig = minions@;
    let mut k: usize = 0;
    while k < minions.len()
        invariant
            k <= minions@.len(),
            minions@.len() == orig.len(),
            forall|j: int| k <= j < orig.len() ==> minions@[j] == orig[j],
            forall|j: int|
                0 <= j < k ==> minions@[j] == (ClientMinion {
                    selected: sel@.contains(orig[j].local_entity),
                    ..orig[j]
                }),
        decreases minions@.len() - k,
    {
        let mn: ClientMinion = *minions.get(k).unwrap();
        let flag: bool = crate::components::contains_id(sel, mn.local_entity);
        minions[k] = ClientMinion { selected: flag, ..mn };
        k = k + 1;
    }
    proof {
        assert(minions@ =~= set_selected_spec(orig, sel@));
    }
}

/// The client-side simulation state for one process: the predicted local
/// player, the locally visible minions, the selection machinery, and the
/// per-tick input buffer.
#[derive(Clone, Debug)]
pub struct ClientState {
    pub client_id: u64,
    /// The locally predicted position of the own player.
    pub player_pos: PlayerPosition,
    /// Known once the own player has replicated in.
    pub player_color: Option<PlayerColor>,
    pub minions: Vec<ClientMinion>,
    pub selected_minions: SelectedMinions,
    pub drag: DragState,
    pub input_buffer: InputBuffer,
    /// Allocator for client-local handles.
    pub next_local_entity: u64,
}

impl ClientState {
    /// Positions within the world extent, buffered ticks in order, local
    /// handles distinct and below the allocator.
    pub open spec fn wf(self) -> bool {
        &&& self.player_pos.0.in_bounds()
        &&& forall|i: int|
            0 <= i < self.minions@.len() ==> (#[trigger] self.minions@[i]).pos.0.in_bounds()
        &&& forall|i: int|
            0 <= i < self.minions@.len() ==> (#[trigger] self.minions@[i]).target.0.in_bounds()
        &&& forall|i: int|
            0 <= i < self.minions@.len() ==> (#[trigger] self.minions@[i]).local_entity
                < self.next_local_entity
        &&& forall|a: int, b: int|
            0 <= a < b < self.minions@.len() ==> self.minions@[a].local_entity
                != self.minions@[b].local_entity
        &&& self.input_buffer.wf()
    }

    pub fn new(client_id: u64) -> (r: ClientState)
        ensures
            r.wf(),
            r.client_id == client_id,
            r.player_pos == PlayerPosition(Vec2 { x: 0, y: 0 }),
            r.player_color is None,
            r.minions@.len() == 0,
            r.selected_minions.0@.len() == 0,
            r.drag == DragState::Idle,
            r.input_buffer.entries@.len() == 0,
            r.next_local_entity == 0,
    {
        ClientState {
            client_id,
            player_pos: PlayerPosition(Vec2 { x: 0, y: 0 }),
            player_color: None,
            minions: Vec::new(),
            selected_minions: SelectedMinions(Vec::new()),
            drag: DragState::Idle,
            input_buffer: InputBuffer::new(),
            next_local_entity: 0,
        }
    }
}

/// The drag origin, where one is recorded.
pub open spec fn drag_origin(d: DragState) -> Vec2
    recommends
        d is Dragging,
{
    match d {
        DragState::Dragging(sd) => sd.0,
        DragState::Idle => Vec2 { x: 0, y: 0 },
    }
}

/// The corner with the smaller coordinates on both axes.
pub open spec fn corner_min(a: Vec2, b: Vec2) -> Vec2 {
    Vec2 { x: if a.x <= b.x { a.x } else { b.x }, y: if a.y <= b.y { a.y } else { b.y } }
}

/// The corner with the larger coordinates on both axes.
pub open spec fn corner_max(a: Vec2, b: Vec2) -> Vec2 {
    Vec2 { x: if a.x <= b.x { b.x } else { a.x }, y: if a.y <= b.y { b.y } else { a.y } }
}

/// The pointer-derived effect of one tick on the client state: what the
/// minions, the selection list, the drag state and the visual rectangle
/// become. Without a cursor every pointer-derived action is suppressed for
/// the tick.
pub ghost struct FrameResult {
    pub minions: Seq<ClientMinion>,
    pub selected: Seq<u64>,
    pub drag: DragState,
    pub rect: Option<(Vec2, Vec2)>,
}

pub open spec fn frame_spec(s: ClientState, sample: InputSample) -> FrameResult {
    if !(sample.cursor is Some) {
        FrameResult { minions: s.minions@, selected: s.selected_minions.0@, drag: s.drag, rect: None }
    } else {
        let mp = sample.cursor->0;
        let m1 = if sample.command_pressed {
            retarget_selected_spec(s.minions@, s.selected_minions.0@, mp.clamped_spec())
        } else {
            s.minions@
        };
        if sample.select_pressed {
            FrameResult {
                minions: m1,
                selected: s.selected_minions.0@,
                drag: DragState::Dragging(StartDrag(mp)),
                rect: None,
            }
        } else if s.drag is Dragging {
            let o = drag_origin(s.drag);
            if sample.select_held {
                FrameResult {
                    minions: m1,
                    selected: s.selected_minions.0@,
                    drag: s.drag,
                    rect: Some((corner_min(o, mp), corner_max(o, mp))),
                }
            } else if sample.select_released {
                let sel = selected_ids_spec(m1, o, mp, s.client_id);
                FrameResult {
                    minions: set_selected_spec(m1, sel),
                    selected: sel,
                    drag: DragState::Idle,
                    rect: None,
                }
            } else {
                FrameResult { minions: m1, selected: s.selected_minions.0@, drag: s.drag, rect: None }
            }
        } else {
            FrameResult { minions: m1, selected: s.selected_minions.0@, drag: s.drag, rect: None }
        }
    }
}

/// What one tick of input capture hands outward: the buffered input, the
/// outgoing command (if the secondary pointer was pressed), and the
/// rectangle to draw while a drag is held.
#[derive(Clone, Debug)]
pub struct TickOutput {
    pub input: Inputs,
    pub message: Option<ClientMessage>,
    pub drag_rect: Option<(Vec2, Vec2)>,
}

impl ClientState {
    /// One tick of input capture and pointer handling. Derives and buffers
    /// exactly one input value for the tick; on a secondary-pointer press
    /// builds the outgoing targeting command (translating selected handles
    /// to confirmed authoritative references and omitting unconfirmed
    /// ones) and optimistically retargets the selected minions locally; on
    /// primary-pointer press, hold and release drives the box-selection
    /// state machine, replacing the selection wholesale on release.
    pub fn buffer_input(&mut self, sample: &InputSample, tick: u64) -> (out: TickOutput)
        requires
            old(self).wf(),
            old(self).input_buffer.can_accept(tick),
        ensures
            final(self).wf(),
            out.input == derive_input_spec(*sample, old(self).player_color),
            final(self).input_buffer.entries@ == old(self).input_buffer.add_input_spec(
                out.input,
                tick,
            ),
            final(self).minions@ == frame_spec(*old(self), *sample).minions,
            final(self).selected_minions.0@ == frame_spec(*old(self), *sample).selected,
            final(self).drag == frame_spec(*old(self), *sample).drag,
            out.drag_rect == frame_spec(*old(self), *sample).rect,
            sample.cursor is Some && sample.command_pressed ==> out.message is Some
                && (out.message->0).entities() == confirmed_refs_spec(
                old(self).minions@,
                old(self).selected_minions.0@,
            ) && (out.message->0).position() == sample.cursor->0,
            !(sample.cursor is Some && sample.command_pressed) ==> out.message is None,
            final(self).client_id == old(self).client_id,
            final(self).player_pos == old(self).player_pos,
            final(self).player_color == old(self).player_color,
            final(self).next_local_entity == old(self).next_local_entity,
    {
        let input = derive_input(sample, self.player_color);
        self.input_buffer.add_input(input, tick);
        let mut message: Option<ClientMessage> = None;
        let mut drag_rect: Option<(Vec2, Vec2)> = None;
        match sample.cursor {
            None => {},
            Some(mp) => {
                if sample.command_pressed {
                    let refs = confirmed_refs(&self.minions, &self.selected_minions.0);
                    message = Some(ClientMessage::Target(refs, mp));
                    let clamped = mp.clamped();
                    retarget_selected(&mut self.minions, &self.selected_minions.0, clamped);
                }
                if sample.select_pressed {
                    self.drag = DragState::Dragging(StartDrag(mp));
                } else {
                    match self.drag {
                        DragState::Idle => {},
                        DragState::Dragging(sd) => {
                            if sample.select_held {
                                let lo = Vec2 {
                                    x: if sd.0.x <= mp.x { sd.0.x } else { mp.x },
                                    y: if sd.0.y <= mp.y { sd.0.y } else { mp.y },
                                };
                                let hi = Vec2 {
                                    x: if sd.0.x <= mp.x { mp.x } else { sd.0.x },
                                    y: if sd.0.y <= mp.y { mp.y } else { sd.0.y },
                                };
                                drag_rect = Some((lo, hi));
                            } else if sample.select_released {
                                let sel = select_in_rect(&self.minions, sd.0, mp, self.client_id);
                                apply_selection(&mut self.minions, &sel);
                                self.selected_minions = SelectedMinions(sel);
                                self.drag = DragState::Idle;
                            }
                        },
                    }
                }
            },
        }
        TickOutput { input, message, drag_rect }
    }
}


/// How many speculative spawns this client has already made for this
/// tick: the insertion index of the next one within the tick.
pub open spec fn spawn_index_spec(minions: Seq<ClientMinion>, client: u64, tick: u64) -> int
    decreases minions.len(),
{
    if minions.len() == 0 {
        0
    } else {
        spawn_index_spec(minions.drop_last(), client, tick) + (match minions.last().prespawn {
            Some(key) => if key.client == client && key.tick == tick {
                1int
            } else {
                0int
            },
            None => 0int,
        })
    }
}

proof fn lemma_spawn_index_bounds(minions: Seq<ClientMinion>, client: u64, tick: u64)
    ensures
        0 <= spawn_index_spec(minions, client, tick) <= minions.len(),
    decreases minions.len(),
{
    if minions.len() > 0 {
        lemma_spawn_index_bounds(minions.drop_last(), client, tick);
    }
}

/// Count this tick's speculative spawns so far.
fn count_spawns(minions: &Vec<ClientMinion>, client: u64, tick: u64) -> (r: u64)
    ensures
        r == spawn_index_spec(minions@, client, tick),
        r <= minions@.len(),
{
    let mut cnt: u64 = 0;
    let mut k: usize = 0;
    proof {
        assert(minions@.take(0) =~= Seq::<ClientMinion>::empty());
    }
    while k < minions.len()
        invariant
            k <= minions@.len(),
            cnt <= k,
            cnt == spawn_index_spec(minions@.take(k as int), client, tick),
        decreases minions@.len() - k,
    {
        proof {
            assert(minions@.take(k as int + 1).drop_last() =~= minions@.take(k as int));
            assert(minions@.take(k as int + 1).last() == minions@[k as int]);
        }
        match minions.get(k).unwrap().prespawn {
            Some(key) => {
                if key.client == client && key.tick == tick {
                    cnt = cnt + 1;
                }
            },
            None => {},
        }
        k = k + 1;
    }
    proof {
        assert(minions@.take(minions@.len() as int) =~= minions@);
        lemma_spawn_index_bounds(minions@, client, tick);
    }
    cnt
}

impl ClientState {
    /// Apply the own buffered input to the predicted player immediately,
    /// before any round trip: movement adjusts the predicted position with
    /// the shared rule, a spawn creates a speculative pre-spawned minion
    /// keyed by (client, tick, insertion index) for later correlation with
    /// the server's authoritative copy.
    pub fn player_movement(&mut self, input: &Inputs, tick: u64)
        requires
            old(self).wf(),
        ensures
            final(self).wf(),
            final(self).client_id == old(self).client_id,
            final(self).player_color == old(self).player_color,
            final(self).selected_minions == old(self).selected_minions,
            final(self).drag == old(self).drag,
            final(self).input_buffer == old(self).input_buffer,
            match *input {
                Inputs::Direction(dir) => {
                    &&& final(self).player_pos.0 == crate::movement::dir_moved(
                        old(self).player_pos.0,
                        dir,
                    )
                    &&& final(self).minions@ == old(self).minions@
                    &&& final(self).next_local_entity == old(self).next_local_entity
                },
                Inputs::Spawn(pos, color) => {
                    &&& final(self).player_pos == old(self).player_pos
                    &&& (old(self).next_local_entity < u64::MAX ==> {
                        &&& final(self).minions@ == old(self).minions@.push(
                            ClientMinion {
                                local_entity: old(self).next_local_entity,
                                owner: OwnedBy(old(self).client_id),
                                pos: MinionPosition(pos.clamped_spec()),
                                target: MinionTarget(crate::movement::default_target_spec()),
                                color: PlayerColor(color),
                                selected: false,
                                prespawn: Some(
                                    PreSpawnKey {
                                        client: old(self).client_id,
                                        tick,
                                        index: spawn_index_spec(
                                            old(self).minions@,
                                            old(self).client_id,
                                            tick,
                                        ) as u64,
                                    },
                                ),
                                confirmed: None,
                                spawn_tick: tick,
                            },
                        )
                        &&& final(self).next_local_entity == old(self).next_local_entity + 1
                    })
                    &&& (old(self).next_local_entity == u64::MAX ==> final(self).minions@ == old(
                        self,
                    ).minions@ && final(self).next_local_entity == old(self).next_local_entity)
                },
                Inputs::NoInput => {
                    &&& final(self).player_pos == old(self).player_pos
                    &&& final(self).minions@ == old(self).minions@
                    &&& final(self).next_local_entity == old(self).next_local_entity
                },
            },
    {
        let spawn = crate::movement::shared_movement_behaviour(input, &mut self.player_pos);
        match spawn {
            None => {},
            Some(req) => {
                if self.next_local_entity < u64::MAX {
                    let index = count_spawns(&self.minions, self.client_id, tick);
                    let local_entity = self.next_local_entity;
                    self.next_local_entity = self.next_local_entity + 1;
                    self.minions.push(
                        ClientMinion {
                            local_entity,
                            owner: OwnedBy(self.client_id),
                            pos: MinionPosition(req.pos),
                            target: MinionTarget(crate::movement::default_target()),
                            color: PlayerColor(req.color),
                            selected: false,
                            prespawn: Some(
                                PreSpawnKey { client: self.client_id, tick, index },
                            ),
                            confirmed: None,
                            spawn_tick: tick,
                        },
                    );
                }
            },
        }
    }
}

/// A speculative minion still waiting under this key.
pub open spec fn is_waiting(mn: ClientMinion, key: PreSpawnKey) -> bool {
    mn.prespawn == Some(key) && mn.confirmed is None
}

/// Some speculative minion is still waiting under this key.
pub open spec fn has_prespawn(minions: Seq<ClientMinion>, key: PreSpawnKey) -> bool {
    exists|i: int| 0 <= i < minions.len() && is_waiting(#[trigger] minions[i], key)
}

/// The index of the first speculative minion waiting under this key, or
/// the sequence length where there is none.
pub open spec fn prespawn_index(minions: Seq<ClientMinion>, key: PreSpawnKey) -> int
    decreases minions.len(),
{
    if minions.len() == 0 {
        0
    } else if is_waiting(minions[0], key) {
        0
    } else {
        1 + prespawn_index(minions.drop_first(), key)
    }
}

proof fn lemma_prespawn_index_prefix(minions: Seq<ClientMinion>, key: PreSpawnKey, i: int)
    requires
        0 <= i <= minions.len(),
        forall|j: int| 0 <= j < i ==> !is_waiting(#[trigger] minions[j], key),
        i < minions.len() ==> is_waiting(minions[i], key),
    ensures
        prespawn_index(minions, key) == i,
    decreases minions.len(),
{
    if minions.len() == 0 {
    } else if is_waiting(minions[0], key) {
        assert(i == 0);
    } else {
        assert(i != 0);
        let rest = minions.drop_first();
        assert forall|j: int| 0 <= j < i - 1 implies !is_waiting(#[trigger] rest[j], key) by {
            assert(!is_waiting(minions[j + 1], key));
        }
        lemma_prespawn_index_prefix(rest, key, i - 1);
    }
}

impl ClientState {
    /// Correlate a replicated authoritative minion with its speculative
    /// counterpart. The first local minion still waiting under the same
    /// deterministic key is recognized as the same logical entity and
    /// marked confirmed — no duplicate appears. Where no speculative
    /// counterpart waits (another player's minion), a fresh interpolated
    /// copy is added instead.
    pub fn confirm_prespawn(&mut self, key: PreSpawnKey, mn: &crate::server::Minion, tick: u64)
        requires
            old(self).wf(),
        ensures
            final(self).wf(),
            final(self).client_id == old(self).client_id,
            final(self).player_pos == old(self).player_pos,
            final(self).player_color == old(self).player_color,
            final(self).selected_minions == old(self).selected_minions,
            final(self).drag == old(self).drag,
            final(self).input_buffer == old(self).input_buffer,
            has_prespawn(old(self).minions@, key) ==> {
                &&& final(self).minions@ == old(self).minions@.update(
                    prespawn_index(old(self).minions@, key),
                    ClientMinion {
                        confirmed: Some(mn.entity),
                        ..old(self).minions@[prespawn_index(old(self).minions@, key)]
                    },
                )
                &&& final(self).next_local_entity == old(self).next_local_entity
            },
            !has_prespawn(old(self).minions@, key) && old(self).next_local_entity < u64::MAX ==> {
                &&& final(self).minions@ == old(self).minions@.push(
                    ClientMinion {
                        local_entity: old(self).next_local_entity,
                        owner: mn.owner,
                        pos: MinionPosition(mn.pos.0.clamped_spec()),
                        target: MinionTarget(mn.target.0.clamped_spec()),
                        color: mn.color,
                        selected: false,
                        prespawn: None,
                        confirmed: Some(mn.entity),
                        spawn_tick: tick,
                    },
                )
                &&& final(self).next_local_entity == old(self).next_local_entity + 1
            },
            !has_prespawn(old(self).minions@, key) && old(self).next_local_entity == u64::MAX
                ==> final(self).minions@ == old(self).minions@ && final(self).next_local_entity
                == old(self).next_local_entity,
    {
        let n = self.minions.len();
        let mut i: usize = 0;
        while i < n
            invariant
                n == self.minions@.len(),
                i <= n,
                self.wf(),
                self.minions@ == old(self).minions@,
                self.client_id == old(self).client_id,
                self.player_pos == old(self).player_pos,
                self.player_color == old(self).player_color,
                self.selected_minions == old(self).selected_minions,
                self.drag == old(self).drag,
                self.input_buffer == old(self).input_buffer,
                self.next_local_entity == old(self).next_local_entity,
                forall|j: int| 0 <= j < i ==> !is_waiting(#[trigger] self.minions@[j], key),
            decreases n - i,
        {
            let cand: ClientMinion = *self.minions.get(i).unwrap();
            let waiting: bool = match (cand.prespawn, cand.confirmed) {
                (Some(k), None) => k.client == key.client && k.tick == key.tick && k.index
                    == key.index,
                _ => false,
            };
            if waiting {
                proof {
                    assert(is_waiting(self.minions@[i as int], key));
                    lemma_prespawn_index_prefix(self.minions@, key, i as int);
                }
                self.minions[i] = ClientMinion { confirmed: Some(mn.entity), ..cand };
                return ;
            }
            i = i + 1;
        }
        proof {
            lemma_prespawn_index_prefix(self.minions@, key, self.minions@.len() as int);
            if has_prespawn(self.minions@, key) {
                let w = choose|j: int|
                    0 <= j < self.minions@.len() && is_waiting(#[trigger] self.minions@[j], key);
                assert(!is_waiting(self.minions@[w], key));
            }
        }
        if self.next_local_entity < u64::MAX {
            let local_entity = self.next_local_entity;
            self.next_local_entity = self.next_local_entity + 1;
            self.minions.push(
                ClientMinion {
                    local_entity,
                    owner: mn.owner,
                    pos: MinionPosition(mn.pos.0.clamped()),
                    target: MinionTarget(mn.target.0.clamped()),
                    color: mn.color,
                    selected: false,
                    prespawn: None,
                    confirmed: Some(mn.entity),
                    spawn_tick: tick,
                },
            );
        }
    }
}

/// A speculative minion that has waited past the timeout without its
/// authoritative counterpart arriving.
pub open spec fn expired(mn: ClientMinion, now: u64, timeout: u64) -> bool {
    mn.prespawn is Some && mn.confirmed is None && mn.spawn_tick + timeout < now
}

/// The minions that survive a rollback pass: everything except expired
/// speculative entities, in order.
pub open spec fn prune_spec(minions: Seq<ClientMinion>, now: u64, timeout: u64) -> Seq<ClientMinion>
    decreases minions.len(),
{
    if minions.len() == 0 {
        Seq::empty()
    } else {
        prune_spec(minions.drop_last(), now, timeout) + (if expired(minions.last(), now, timeout) {
            Seq::empty()
        } else {
            seq![minions.last()]
        })
    }
}

proof fn lemma_prune_subset(minions: Seq<ClientMinion>, now: u64, timeout: u64)
    ensures
        forall|x: ClientMinion|
            #[trigger] prune_spec(minions, now, timeout).contains(x) ==> minions.contains(x),
    decreases minions.len(),
{
    if minions.len() > 0 {
        let rest = minions.drop_last();
        lemma_prune_subset(rest, now, timeout);
        assert forall|x: ClientMinion|
            #[trigger] prune_spec(minions, now, timeout).contains(x) implies minions.contains(
            x,
        ) by {
            let p = prune_spec(minions, now, timeout);
            let pr = prune_spec(rest, now, timeout);
            let w = choose|k: int| 0 <= k < p.len() && p[k] == x;
            if w < pr.len() {
                assert(pr.contains(x));
                let wr = choose|k: int| 0 <= k < rest.len() && rest[k] == x;
                assert(minions[wr] == x);
            } else {
                assert(x == minions.last());
                assert(minions[minions.len() - 1] == x);
            }
        }
    }
}

impl ClientState {
    /// Roll back speculative entities whose authoritative counterpart has
    /// not arrived within `timeout` ticks of their spawn: they are
    /// destroyed; everything else is kept in order.
    pub fn prune_prespawns(&mut self, now: u64, timeout: u64)
        requires
            old(self).wf(),
        ensures
            final(self).wf(),
            final(self).minions@ == prune_spec(old(self).minions@, now, timeout),
            final(self).client_id == old(self).client_id,
            final(self).player_pos == old(self).player_pos,
            final(self).player_color == old(self).player_color,
            final(self).selected_minions == old(self).selected_minions,
            final(self).drag == old(self).drag,
            final(self).input_buffer == old(self).input_buffer,
            final(self).next_local_entity == old(self).next_local_entity,
    {
        let ghost orig = self.minions@;
        let mut out: Vec<ClientMinion> = Vec::new();
        let mut k: usize = 0;
        proof {
            assert(orig.take(0) =~= Seq::<ClientMinion>::empty());
            assert(out@ =~= prune_spec(orig.take(0), now, timeout));
        }
        while k < self.minions.len()
            invariant
                k <= self.minions@.len(),
                self.minions@ == orig,
                out@ == prune_spec(orig.take(k as int), now, timeout),
            decreases self.minions@.len() - k,
        {
            proof {
                assert(orig.take(k as int + 1).drop_last() =~= orig.take(k as int));
                assert(orig.take(k as int + 1).last() == orig[k as int]);
            }
            let mn: ClientMinion = *self.minions.get(k).unwrap();
            let is_expired: bool = match (mn.prespawn, mn.confirmed) {
                (Some(_), None) => now > mn.spawn_tick && now - mn.spawn_tick > timeout,
                _ => false,
            };
            if !is_expired {
                out.push(mn);
                proof {
                    assert(out@ =~= prune_spec(orig.take(k as int + 1), now, timeout));
                }
            } else {
                proof {
                    assert(out@ =~= prune_spec(orig.take(k as int + 1), now, timeout));
                }
            }
            k = k + 1;
        }
        proof {
            assert(orig.take(orig.len() as int) =~= orig);
        }
        self.minions = out;
        proof {
            lemma_prune_subset(orig, now, timeout);
            let p = prune_spec(orig, now, timeout);
            assert forall|i: int|
                0 <= i < self.minions@.len() implies (#[trigger] self.minions@[i]).pos.0.in_bounds()
                && self.minions@[i].target.0.in_bounds() && self.minions@[i].local_entity
                < self.next_local_entity by {
                assert(p.contains(p[i]));
                let w = choose|j: int| 0 <= j < orig.len() && orig[j] == p[i];
            }
            assert forall|a: int, b: int|
                0 <= a < b < self.minions@.len() implies self.minions@[a].local_entity
                != self.minions@[b].local_entity by {
                lemma_prune_distinct_at(orig, now, timeout, a, b);
            }
        }
    }
}

/// Pruning keeps the surviving minions' relative order, so two survivors
/// stand at two distinct positions of the source sequence.
proof fn lemma_prune_distinct_at(
    minions: Seq<ClientMinion>,
    now: u64,
    timeout: u64,
    a: int,
    b: int,
)
    requires
        forall|x: int, y: int|
            0 <= x < y < minions.len() ==> minions[x].local_entity != minions[y].local_entity,
        0 <= a < b < prune_spec(minions, now, timeout).len(),
    ensures
        prune_spec(minions, now, timeout)[a].local_entity != prune_spec(
            minions,
            now,
            timeout,
        )[b].local_entity,
    decreases minions.len(),
{
    let p = prune_spec(minions, now, timeout);
    let rest = minions.drop_last();
    let pr = prune_spec(rest, now, timeout);
    if b < pr.len() {
        lemma_prune_distinct_at(rest, now, timeout, a, b);
    } else {
        assert(!expired(minions.last(), now, timeout));
        assert(p[b] == minions.last());
        assert(a < pr.len());
        lemma_prune_subset(rest, now, timeout);
        assert(pr.contains(pr[a]));
        let w = choose|j: int| 0 <= j < rest.len() && rest[j] == pr[a];
        assert(minions[w].local_entity != minions[minions.len() - 1].local_entity);
    }
}

/// Advance every locally visible minion one tick toward its target with
/// the shared steering rule — prediction for owned minions, visual
/// interpolation for the others. Positions follow the steering spec;
/// every other attribute is untouched.
pub fn client_minion_movement(minions: &mut Vec<ClientMinion>)
    requires
        forall|i: int|
            0 <= i < old(minions)@.len() ==> (#[trigger] old(minions)@[i]).pos.0.in_bounds(),
        forall|i: int|
            0 <= i < old(minions)@.len() ==> (#[trigger] old(minions)@[i]).target.0.in_bounds(),
    ensures
        final(minions)@.len() == old(minions)@.len(),
        forall|i: int|
            0 <= i < old(minions)@.len() ==> {
                let pre = old(minions)@[i];
                let post = #[trigger] final(minions)@[i];
                &&& post == (ClientMinion {
                    pos: MinionPosition(
                        Vec2 {
                            x: crate::steering::steer_spec(
                                pre.pos.0,
                                pre.target.0,
                                crate::units::MINION_STEP as int,
                            ).0 as i64,
                            y: crate::steering::steer_spec(
                                pre.pos.0,
                                pre.target.0,
                                crate::units::MINION_STEP as int,
                            ).1 as i64,
                        },
                    ),
                    ..pre
                })
                &&& post.pos.0.in_bounds()
                &&& dist_sq(post.pos.0, pre.target.0) <= dist_sq(pre.pos.0, pre.target.0)
            },
{
    let ghost orig = minions@;
    let mut k: usize = 0;
    while k < minions.len()
        invariant
            k <= minions@.len(),
            minions@.len() == orig.len(),
            forall|i: int| 0 <= i < orig.len() ==> (#[trigger] orig[i]).pos.0.in_bounds(),
            forall|i: int| 0 <= i < orig.len() ==> (#[trigger] orig[i]).target.0.in_bounds(),
            forall|j: int| k <= j < orig.len() ==> minions@[j] == orig[j],
            forall|j: int|
                0 <= j < k ==> {
                    let pre = orig[j];
                    let post = #[trigger] minions@[j];
                    &&& post == (ClientMinion {
                        pos: MinionPosition(
                            Vec2 {
                                x: crate::steering::steer_spec(
                                    pre.pos.0,
                                    pre.target.0,
                                    crate::units::MINION_STEP as int,
                                ).0 as i64,
                                y: crate::steering::steer_spec(
                                    pre.pos.0,
                                    pre.target.0,
                                    crate::units::MINION_STEP as int,
                                ).1 as i64,
                            },
                        ),
                        ..pre
                    })
                    &&& post.pos.0.in_bounds()
                    &&& dist_sq(post.pos.0, pre.target.0) <= dist_sq(pre.pos.0, pre.target.0)
                },
        decreases minions@.len() - k,
    {
        let mn: ClientMinion = *minions.get(k).unwrap();
        proof {
            assert(minions@[k as int] == orig[k as int]);
            assert(orig[k as int].pos.0.in_bounds());
            assert(orig[k as int].target.0.in_bounds());
        }
        let np: Vec2 = crate::steering::steer(mn.pos.0, mn.target.0, crate::units::MINION_STEP);
        minions[k] = ClientMinion { pos: MinionPosition(np), ..mn };
        k = k + 1;
    }
}

impl ClientState {
    /// Reconcile the predicted player position against an authoritative
    /// snapshot: snap to the authoritative value where the two diverge
    /// beyond the tolerance, keep the prediction otherwise.
    pub fn reconcile_player(&mut self, authoritative: Vec2)
        requires
            old(self).wf(),
            authoritative.in_bounds(),
        ensures
            final(self).wf(),
            final(self).player_pos.0 == (if dist_sq(old(self).player_pos.0, authoritative)
                > RECONCILE_TOLERANCE_SQ {
                authoritative
            } else {
                old(self).player_pos.0
            }),
            final(self).minions@ == old(self).minions@,
            final(self).client_id == old(self).client_id,
            final(self).player_color == old(self).player_color,
            final(self).selected_minions == old(self).selected_minions,
            final(self).drag == old(self).drag,
            final(self).input_buffer == old(self).input_buffer,
            final(self).next_local_entity == old(self).next_local_entity,
    {
        let np = reconcile(self.player_pos.0, authoritative);
        self.player_pos = PlayerPosition(np);
    }
}

} // verus!
