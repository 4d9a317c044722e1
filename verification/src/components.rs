//! The replicated data model: entity attributes, per-tick inputs, the
//! client-to-server command message, the scoreboard, and the static table of
//! per-attribute synchronization policies.

use vstd::prelude::*;

use crate::units::Vec2;

verus! {

/// A color as three channels. The simulation only carries colors through;
/// it never computes with them.
#[derive(Clone, Copy, Debug, PartialEq, Eq, Structural)]
pub struct Rgb {
    pub r: u8,
    pub g: u8,
    pub b: u8,
}

/// The owning client of a player entity.
#[derive(Clone, Copy, Debug, PartialEq, Eq, Structural)]
pub struct PlayerId(pub u64);

/// A player's world position.
#[derive(Clone, Copy, Debug, PartialEq, Eq, Structural)]
pub struct PlayerPosition(pub Vec2);

/// A player's color; minions inherit it from their owner.
#[derive(Clone, Copy, Debug, PartialEq, Eq, Structural)]
pub struct PlayerColor(pub Rgb);

/// A minion's world position.
#[derive(Clone, Copy, Debug, PartialEq, Eq, Structural)]
pub struct MinionPosition(pub Vec2);

/// The position a minion steers toward.
#[derive(Clone, Copy, Debug, PartialEq, Eq, Structural)]
pub struct MinionTarget(pub Vec2);

/// The client that owns a minion.
#[derive(Clone, Copy, Debug, PartialEq, Eq, Structural)]
pub struct OwnedBy(pub u64);

/// A static scoring trigger.
#[derive(Clone, Copy, Debug, PartialEq, Eq, Structural)]
pub enum Item {
    Apple,
}

/// An item's static world position.
#[derive(Clone, Copy, Debug, PartialEq, Eq, Structural)]
pub struct ItemPos(pub Vec2);

/// Directional input: four independent flags, one per movement key.
#[derive(Clone, Copy, Debug, PartialEq, Eq, Structural)]
pub struct Direction {
    pub up: bool,
    pub down: bool,
    pub left: bool,
    pub right: bool,
}

impl Direction {
    /// At least one movement flag is held.
    pub open spec fn any_spec(self) -> bool {
        self.up || self.down || self.left || self.right
    }

    pub fn any(&self) -> (r: bool)
        ensures
            r == self.any_spec(),
    {
        self.up || self.down || self.left || self.right
    }
}

/// The single input value a client captures for one tick.
#[derive(Clone, Copy, Debug, PartialEq, Eq, Structural)]
pub enum Inputs {
    /// Movement keys held this tick.
    Direction(Direction),
    /// Spawn a minion at the given world position with the player's color.
    Spawn(Vec2, Rgb),
    /// Nothing pressed this tick.
    NoInput,
}

/// An ordered-reliable message from client to server.
#[derive(Clone, Debug, PartialEq, Eq)]
pub enum ClientMessage {
    /// Retarget the referenced minions to the given world position.
    Target(Vec<u64>, Vec2),
}

/// The image of `id` under an entity mapping: the second half of the first
/// pair whose first half is `id`, or `id` itself where no pair matches.
pub open spec fn map_lookup(map: Seq<(u64, u64)>, id: u64) -> u64
    decreases map.len(),
{
    if map.len() == 0 {
        id
    } else if map[0].0 == id {
        map[0].1
    } else {
        map_lookup(map.drop_first(), id)
    }
}

/// Translate one entity reference through a mapping.
fn lookup_entity(map: &Vec<(u64, u64)>, id: u64) -> (r: u64)
    ensures
        r == map_lookup(map@, id),
{
    let mut i: usize = 0;
    proof {
        assert(map@.skip(0) =~= map@);
    }
    while i < map.len()
        invariant
            i <= map.len(),
            map_lookup(map@, id) == map_lookup(map@.skip(i as int), id),
        decreases map.len() - i,
    {
        proof {
            assert(map@.skip(i as int).drop_first() =~= map@.skip(i as int + 1));
        }
        if map.get(i).unwrap().0 == id {
            proof {
                assert(map@.skip(i as int)[0] == map@[i as int]);
            }
            return map.get(i).unwrap().1;
        }
        i = i + 1;
    }
    proof {
        assert(map@.skip(map@.len() as int).len() == 0);
    }
    id
}

impl ClientMessage {
    /// The entity references carried by the message.
    pub open spec fn entities(self) -> Seq<u64> {
        match self {
            ClientMessage::Target(refs, _) => refs@,
        }
    }

    /// The target position carried by the message.
    pub open spec fn position(self) -> Vec2 {
        match self {
            ClientMessage::Target(_, pos) => pos,
        }
    }

    /// Rewrite every entity reference through the given identity mapping;
    /// references absent from the mapping stay as they are. This is how a
    /// command built in one identity space is read in another.
    pub fn map_entities(self, map: &Vec<(u64, u64)>) -> (r: ClientMessage)
        ensures
            r.entities() == self.entities().map(|_i: int, e: u64| map_lookup(map@, e)),
            r.position() == self.position(),
    {
        match self {
            ClientMessage::Target(refs, pos) => {
                let mut out: Vec<u64> = Vec::new();
                let mut i: usize = 0;
                while i < refs.len()
                    invariant
                        i <= refs@.len(),
                        out@.len() == i,
                        forall|j: int|
                            0 <= j < i ==> out@[j] == map_lookup(map@, refs@[j]),
                    decreases refs@.len() - i,
                {
                    out.push(lookup_entity(map, *refs.get(i).unwrap()));
                    i = i + 1;
                }
                proof {
                    assert(out@ =~= refs@.map(|_i: int, e: u64| map_lookup(map@, e)));
                }
                ClientMessage::Target(out, pos)
            }
        }
    }
}

/// One scoreboard row: accumulated points of one client.
#[derive(Clone, Copy, Debug, PartialEq, Eq, Structural)]
pub struct ScoreEntry {
    pub client: u64,
    pub score: u64,
}

/// The index of the first entry for `client`, or the sequence length where
/// there is none.
pub open spec fn score_index(rows: Seq<ScoreEntry>, client: u64) -> int
    decreases rows.len(),
{
    if rows.len() == 0 {
        0
    } else if rows[0].client == client {
        0
    } else {
        1 + score_index(rows.drop_first(), client)
    }
}

/// Some row names this client.
pub open spec fn rows_contain(rows: Seq<ScoreEntry>, client: u64) -> bool {
    exists|i: int| 0 <= i < rows.len() && rows[i].client == client
}

/// The process-wide map from client identifier to accumulated score,
/// held as rows with pairwise distinct clients.
#[derive(Clone, Debug, PartialEq, Eq)]
pub struct Scoreboard(pub Vec<ScoreEntry>);

impl Scoreboard {
    /// Rows name pairwise distinct clients.
    pub open spec fn wf(self) -> bool {
        forall|i: int, j: int|
            0 <= i < j < self.0@.len() ==> self.0@[i].client != self.0@[j].client
    }

    /// Whether the client has a row.
    pub open spec fn contains_client(self, client: u64) -> bool {
        rows_contain(self.0@, client)
    }

    /// The client's score; meaningful only where the client has a row.
    pub open spec fn score_of(self, client: u64) -> u64 {
        self.0@[score_index(self.0@, client)].score
    }

    pub fn new() -> (r: Scoreboard)
        ensures
            r.0@.len() == 0,
            r.wf(),
    {
        Scoreboard(Vec::new())
    }

    /// The row index of `client`, if any.
    fn find(&self, client: u64) -> (r: Option<usize>)
        ensures
            match r {
                Some(i) => i < self.0@.len() && self.0@[i as int].client == client,
                None => !self.contains_client(client),
            },
    {
        let mut i: usize = 0;
        while i < self.0.len()
            invariant
                i <= self.0@.len(),
                forall|j: int| 0 <= j < i ==> self.0@[j].client != client,
            decreases self.0@.len() - i,
        {
            if self.0.get(i).unwrap().client == client {
                return Some(i);
            }
            i = i + 1;
        }
        None
    }

    /// The client's score, or `None` where the client has no row.
    pub fn get(&self, client: u64) -> (r: Option<u64>)
        requires
            self.wf(),
        ensures
            match r {
                Some(s) => self.contains_client(client) && s == self.score_of(client),
                None => !self.contains_client(client),
            },
    {
        match self.find(client) {
            Some(i) => {
                proof {
                    lemma_score_index_finds(self.0@, client, i as int);
                }
                Some(self.0.get(i).unwrap().score)
            }
            None => None,
        }
    }

    /// Set the client's score, overwriting an existing row or appending a
    /// new one, as a map insertion does.
    pub fn insert(&mut self, client: u64, score: u64)
        requires
            old(self).wf(),
        ensures
            final(self).wf(),
            final(self).contains_client(client),
            final(self).score_of(client) == score,
            forall|c: u64|
                c != client ==> #[trigger] final(self).contains_client(c)
                    == old(self).contains_client(c),
            forall|c: u64|
                c != client && old(self).contains_client(c)
                    ==> #[trigger] final(self).score_of(c) == old(self).score_of(c),
            old(self).contains_client(client) ==> final(self).0@.len() == old(self).0@.len(),
            !old(self).contains_client(client) ==> final(self).0@ == old(self).0@.push(
                ScoreEntry { client, score },
            ),
    {
        let ghost pre = self.0@;
        match self.find(client) {
            Some(i) => {
                self.0[i] = ScoreEntry { client, score };
                proof {
                    lemma_scoreboard_lookup(pre, self.0@, client, score, i as int);
                }
            }
            None => {
                self.0.push(ScoreEntry { client, score });
                proof {
                    lemma_scoreboard_append(pre, self.0@, client, score);
                }
            }
        }
    }
}

/// Where a row for `client` stands at index `i` of a well-formed sequence,
/// `score_index` finds exactly that index.
proof fn lemma_score_index_finds(rows: Seq<ScoreEntry>, client: u64, i: int)
    requires
        0 <= i < rows.len(),
        rows[i].client == client,
        forall|a: int, b: int| 0 <= a < b < rows.len() ==> rows[a].client != rows[b].client,
    ensures
        score_index(rows, client) == i,
    decreases rows.len(),
{
    if rows[0].client == client {
        if i != 0 {
            assert(rows[0].client != rows[i].client);
        }
    } else {
        assert(i != 0);
        let rest = rows.drop_first();
        assert(rest[i - 1].client == client);
        assert forall|a: int, b: int|
            0 <= a < b < rest.len() implies rest[a].client != rest[b].client by {
            assert(rows[a + 1].client != rows[b + 1].client);
        }
        lemma_score_index_finds(rest, client, i - 1);
    }
}

proof fn lemma_scoreboard_lookup(
    pre: Seq<ScoreEntry>,
    post: Seq<ScoreEntry>,
    client: u64,
    score: u64,
    i: int,
)
    requires
        0 <= i < pre.len(),
        pre[i].client == client,
        forall|a: int, b: int| 0 <= a < b < pre.len() ==> pre[a].client != pre[b].client,
        post == pre.update(i, ScoreEntry { client, score }),
    ensures
        forall|a: int, b: int| 0 <= a < b < post.len() ==> post[a].client != post[b].client,
        post[score_index(post, client)].score == score,
        rows_contain(post, client),
        forall|c: u64|
            c != client && rows_contain(pre, c) ==> #[trigger] post[score_index(post, c)].score
                == pre[score_index(pre, c)].score,
        forall|c: u64| c != client ==> (rows_contain(post, c) <==> rows_contain(pre, c)),
{
    assert forall|a: int, b: int|
        0 <= a < b < post.len() implies post[a].client != post[b].client by {
        assert(pre[a].client != pre[b].client);
    }
    lemma_score_index_finds(post, client, i);
    assert forall|c: u64|
        c != client && rows_contain(pre, c) implies #[trigger] post[score_index(post, c)].score
        == pre[score_index(pre, c)].score by {
        let w = choose|k: int| 0 <= k < pre.len() && pre[k].client == c;
        lemma_score_index_finds(pre, c, w);
        assert(post[w].client == c);
        lemma_score_index_finds(post, c, w);
    }
    assert forall|c: u64| c != client implies (rows_contain(post, c) <==> rows_contain(
        pre,
        c,
    )) by {
        if rows_contain(post, c) {
            let w = choose|k: int| 0 <= k < post.len() && post[k].client == c;
            assert(pre[w].client == c);
        }
        if rows_contain(pre, c) {
            let w = choose|k: int| 0 <= k < pre.len() && pre[k].client == c;
            assert(post[w].client == c);
        }
    }
}

proof fn lemma_scoreboard_append(
    pre: Seq<ScoreEntry>,
    post: Seq<ScoreEntry>,
    client: u64,
    score: u64,
)
    requires
        !rows_contain(pre, client),
        forall|a: int, b: int| 0 <= a < b < pre.len() ==> pre[a].client != pre[b].client,
        post == pre.push(ScoreEntry { client, score }),
    ensures
        forall|a: int, b: int| 0 <= a < b < post.len() ==> post[a].client != post[b].client,
        post[score_index(post, client)].score == score,
        rows_contain(post, client),
        forall|c: u64|
            c != client && rows_contain(pre, c) ==> #[trigger] post[score_index(post, c)].score
                == pre[score_index(pre, c)].score,
        forall|c: u64| c != client ==> (rows_contain(post, c) <==> rows_contain(pre, c)),
{
    assert forall|a: int, b: int|
        0 <= a < b < post.len() implies post[a].client != post[b].client by {
        if b < pre.len() {
            assert(pre[a].client != pre[b].client);
        } else {
            if post[a].client == client {
                assert(pre[a].client == client);
            }
        }
    }
    assert(post[pre.len() as int].client == client);
    lemma_score_index_finds(post, client, pre.len() as int);
    assert forall|c: u64|
        c != client && rows_contain(pre, c) implies #[trigger] post[score_index(post, c)].score
        == pre[score_index(pre, c)].score by {
        let w = choose|k: int| 0 <= k < pre.len() && pre[k].client == c;
        lemma_score_index_finds(pre, c, w);
        assert(post[w].client == c);
        lemma_score_index_finds(post, c, w);
    }
    assert forall|c: u64| c != client implies (rows_contain(post, c) <==> rows_contain(
        pre,
        c,
    )) by {
        if rows_contain(post, c) {
            let w = choose|k: int| 0 <= k < post.len() && post[k].client == c;
            assert(pre[w].client == c);
        }
        if rows_contain(pre, c) {
            let w = choose|k: int| 0 <= k < pre.len() && pre[k].client == c;
            assert(post[w].client == c);
        }
    }
}


/// Whether a list of entity references names this identifier.
pub fn contains_id(ids: &Vec<u64>, id: u64) -> (r: bool)
    ensures
        r == ids@.contains(id),
{
    let mut i: usize = 0;
    while i < ids.len()
        invariant
            i <= ids@.len(),
            forall|j: int| 0 <= j < i ==> ids@[j] != id,
        decreases ids@.len() - i,
    {
        if *ids.get(i).unwrap() == id {
            return true;
        }
        i = i + 1;
    }
    proof {
        if ids@.contains(id) {
            let w = choose|j: int| 0 <= j < ids@.len() && ids@[j] == id;
            assert(ids@[w] != id);
        }
    }
    false
}

} // verus!
