//! The session core: the registry of authenticated sessions, the
//! dispatcher that enqueues broadcast and unicast messages, and the tick
//! that advances every player's state and fans out update messages.
//!
//! The registry owns every registered session exclusively; all access goes
//! through its methods. Its mathematical value is a map from session
//! identity to player state, and every method states exactly how it moves
//! that map.

use vstd::prelude::*;
use crate::grid::{MapGrid, is_starting_map, starting_map};
use crate::msg::{Response, Update, encode_response, update_wire};

verus! {

/// One registered session: its identity, its player state (the balance),
/// and its outbound message queue. Messages are enqueued here by the
/// dispatcher and the tick, and drained to the transport outside this
/// crate.
pub struct Player {
    pub client_id: u128,
    pub money: isize,
    pub queue: Vec<String>,
}

/// The mathematical value of a player: the balance as an unbounded
/// integer and the queue as the sequence of queued wire messages.
#[verifier::ext_equal]
pub ghost struct PlayerV {
    pub client_id: u128,
    pub money: int,
    pub queue: Seq<Seq<char>>,
}

/// The sequence of wire messages held by a queue.
pub open spec fn queue_view(q: Seq<String>) -> Seq<Seq<char>> {
    q.map_values(|x: String| x@)
}

impl View for Player {
    type V = PlayerV;

    open spec fn view(&self) -> PlayerV {
        PlayerV {
            client_id: self.client_id,
            money: self.money as int,
            queue: queue_view(self.queue@),
        }
    }
}

/// A registry entry: the key the session was registered under, and the
/// session itself.
struct Entry {
    key: u128,
    player: Player,
}

/// A per-session map-data entry.
struct GridEntry {
    key: u128,
    cells: Vec<MapGrid>,
}

/// The map described by a sequence of key-value pairs, later pairs
/// overriding earlier ones with the same key.
pub open spec fn assoc_map<V>(s: Seq<(u128, V)>) -> Map<u128, V>
    decreases s.len(),
{
    if s.len() == 0 {
        Map::<u128, V>::empty()
    } else {
        assoc_map(s.drop_last()).insert(s.last().0, s.last().1)
    }
}

/// Whether no two pairs share a key.
pub open spec fn keys_unique<V>(s: Seq<(u128, V)>) -> bool {
    forall|i: int, j: int| 0 <= i < j < s.len() ==> s[i].0 != s[j].0
}

/// Whether some pair carries the key.
pub open spec fn has_key<V>(s: Seq<(u128, V)>, id: u128) -> bool {
    exists|i: int| 0 <= i < s.len() && s[i].0 == id
}

/// The domain of the association map is exactly the keys of the pairs.
proof fn lemma_assoc_map_dom<V>(s: Seq<(u128, V)>)
    ensures
        forall|id: u128| #[trigger] assoc_map(s).contains_key(id) <==> has_key(s, id),
    decreases s.len(),
{
    if s.len() > 0 {
        lemma_assoc_map_dom(s.drop_last());
        assert forall|id: u128| #[trigger] assoc_map(s).contains_key(id) implies has_key(
            s,
            id,
        ) by {
            if id == s.last().0 {
                assert(s[s.len() - 1].0 == id);
            } else {
                assert(assoc_map(s.drop_last()).contains_key(id));
                assert(has_key(s.drop_last(), id));
                let i = choose|i: int| 0 <= i < s.drop_last().len() && s.drop_last()[i].0 == id;
                assert(s.drop_last()[i] == s[i]);
                assert(s[i].0 == id);
            }
        }
        assert forall|id: u128| has_key(s, id) implies #[trigger] assoc_map(s).contains_key(
            id,
        ) by {
            let i = choose|i: int| 0 <= i < s.len() && s[i].0 == id;
            if i < s.len() - 1 {
                assert(s.drop_last()[i] == s[i]);
                assert(s.drop_last()[i].0 == id);
                assert(has_key(s.drop_last(), id));
                assert(assoc_map(s.drop_last()).contains_key(id));
            } else {
                assert(id == s.last().0);
            }
        }
    }
}

/// With unique keys, the association map sends each pair's key to its
/// value.
proof fn lemma_assoc_map_index<V>(s: Seq<(u128, V)>, i: int)
    requires
        keys_unique(s),
        0 <= i < s.len(),
    ensures
        assoc_map(s).contains_key(s[i].0),
        assoc_map(s)[s[i].0] == s[i].1,
    decreases s.len(),
{
    if i == s.len() - 1 {
    } else {
        assert(keys_unique(s.drop_last()));
        assert(s.drop_last()[i] == s[i]);
        lemma_assoc_map_index(s.drop_last(), i);
        assert(s[i].0 != s.last().0);
    }
}

/// Replacing the value of one pair, key kept, inserts into the map.
proof fn lemma_assoc_map_update<V>(s: Seq<(u128, V)>, i: int, p: (u128, V))
    requires
        keys_unique(s),
        0 <= i < s.len(),
        p.0 == s[i].0,
    ensures
        assoc_map(s.update(i, p)) == assoc_map(s).insert(p.0, p.1),
    decreases s.len(),
{
    if i == s.len() - 1 {
        assert(s.update(i, p).drop_last() =~= s.drop_last());
        assert(s.update(i, p).last() == p);
        assert(assoc_map(s.drop_last()).insert(p.0, p.1) =~= assoc_map(s.drop_last()).insert(
            s.last().0,
            s.last().1,
        ).insert(p.0, p.1));
    } else {
        assert(keys_unique(s.drop_last()));
        assert(s.drop_last()[i] == s[i]);
        lemma_assoc_map_update(s.drop_last(), i, p);
        assert(s.update(i, p).drop_last() =~= s.drop_last().update(i, p));
        assert(s.update(i, p).last() == s.last());
        assert(p.0 != s.last().0);
        assert(assoc_map(s.drop_last()).insert(p.0, p.1).insert(s.last().0, s.last().1)
            =~= assoc_map(s.drop_last()).insert(s.last().0, s.last().1).insert(p.0, p.1));
    }
}

/// Removing one pair, keys unique, removes its key from the map.
proof fn lemma_assoc_map_remove<V>(s: Seq<(u128, V)>, i: int)
    requires
        keys_unique(s),
        0 <= i < s.len(),
    ensures
        assoc_map(s.remove(i)) == assoc_map(s).remove(s[i].0),
    decreases s.len(),
{
    if i == s.len() - 1 {
        assert(s.remove(i) =~= s.drop_last());
        lemma_assoc_map_dom(s.drop_last());
        assert forall|j: int| 0 <= j < s.drop_last().len() implies s.drop_last()[j].0
            != s.last().0 by {
            assert(s[j] == s.drop_last()[j]);
        }
        assert(!has_key(s.drop_last(), s.last().0));
        assert(!assoc_map(s.drop_last()).contains_key(s.last().0));
        assert(assoc_map(s.drop_last()) =~= assoc_map(s.drop_last()).insert(
            s.last().0,
            s.last().1,
        ).remove(s.last().0));
    } else {
        assert(keys_unique(s.drop_last()));
        assert(s.drop_last()[i] == s[i]);
        lemma_assoc_map_remove(s.drop_last(), i);
        assert(s.remove(i).drop_last() =~= s.drop_last().remove(i));
        assert(s.remove(i).last() == s.last());
        assert(s[i].0 != s.last().0);
        assert(assoc_map(s.drop_last()).remove(s[i].0).insert(s.last().0, s.last().1)
            =~= assoc_map(s.drop_last()).insert(s.last().0, s.last().1).remove(s[i].0));
    }
}

/// Appending a fresh pair inserts into the map.
proof fn lemma_assoc_map_push<V>(s: Seq<(u128, V)>, p: (u128, V))
    ensures
        assoc_map(s.push(p)) == assoc_map(s).insert(p.0, p.1),
{
    assert(s.push(p).drop_last() =~= s);
    assert(s.push(p).last() == p);
}

/// Pushing onto a queue appends the message's characters to the queue's
/// value.
proof fn lemma_queue_view_push(q: Seq<String>, s: String)
    ensures
        queue_view(q.push(s)) == queue_view(q).push(s@),
{
    assert(queue_view(q.push(s)) =~= queue_view(q).push(s@));
}

/// Two pair sequences with the same keys in the same positions describe
/// maps with the same domain, each key sent to the pair's value.
proof fn lemma_pointwise_maps<V>(pre: Seq<(u128, V)>, post: Seq<(u128, V)>)
    requires
        keys_unique(pre),
        post.len() == pre.len(),
        forall|j: int| 0 <= j < pre.len() ==> post[j].0 == pre[j].0,
    ensures
        keys_unique(post),
        assoc_map(post).dom() == assoc_map(pre).dom(),
        forall|j: int|
            0 <= j < pre.len() ==> assoc_map(pre).contains_key(pre[j].0) && assoc_map(pre)[
                pre[j].0
            ] == pre[j].1 && assoc_map(post)[pre[j].0] == post[j].1,
        forall|id: u128| #[trigger] assoc_map(pre).contains_key(id) ==> has_key(pre, id),
{
    assert(keys_unique(post));
    lemma_assoc_map_dom(pre);
    lemma_assoc_map_dom(post);
    assert forall|id: u128| assoc_map(post).contains_key(id) <==> assoc_map(pre).contains_key(
        id,
    ) by {
        if has_key(pre, id) {
            let j = choose|j: int| 0 <= j < pre.len() && pre[j].0 == id;
            assert(post[j].0 == id);
        }
        if has_key(post, id) {
            let j = choose|j: int| 0 <= j < post.len() && post[j].0 == id;
            assert(pre[j].0 == id);
        }
    }
    assert(assoc_map(post).dom() =~= assoc_map(pre).dom());
    assert forall|j: int|
        0 <= j < pre.len() implies assoc_map(pre).contains_key(pre[j].0) && assoc_map(pre)[
        pre[j].0
    ] == pre[j].1 && assoc_map(post)[pre[j].0] == post[j].1 by {
        lemma_assoc_map_index(pre, j);
        lemma_assoc_map_index(post, j);
    }
}

/// The key-value pairs of the registry's entries.
spec fn entry_pairs(s: Seq<Entry>) -> Seq<(u128, PlayerV)> {
    s.map_values(|e: Entry| (e.key, e.player@))
}

/// The key-value pairs of the per-session map data.
spec fn grid_pairs(s: Seq<GridEntry>) -> Seq<(u128, Seq<MapGrid>)> {
    s.map_values(|e: GridEntry| (e.key, e.cells@))
}

/// The session registry, the dispatcher and the tick in one component.
/// It exclusively owns all registered sessions and their map data; its
/// value is the map from session identity to player state.
pub struct GameHandler {
    sessions: Vec<Entry>,
    game_maps: Vec<GridEntry>,
}

impl View for GameHandler {
    type V = Map<u128, PlayerV>;

    closed spec fn view(&self) -> Map<u128, PlayerV> {
        assoc_map(entry_pairs(self.sessions@))
    }
}

impl GameHandler {
    /// The per-session map data, keyed by session identity.
    pub closed spec fn grids(&self) -> Map<u128, Seq<MapGrid>> {
        assoc_map(grid_pairs(self.game_maps@))
    }

    /// Well-formedness: session keys are unique, and the map data carries
    /// exactly the registered identities.
    pub closed spec fn wf(&self) -> bool {
        &&& keys_unique(entry_pairs(self.sessions@))
        &&& self.game_maps@.len() == self.sessions@.len()
        &&& forall|i: int|
            0 <= i < self.sessions@.len() ==> self.game_maps@[i].key == self.sessions@[i].key
    }

    /// An empty registry.
    pub fn new() -> (r: Self)
        ensures
            r.wf(),
            r@ == Map::<u128, PlayerV>::empty(),
            r.grids() == Map::<u128, Seq<MapGrid>>::empty(),
    {
        let r = GameHandler { sessions: Vec::new(), game_maps: Vec::new() };
        proof {
            assert(entry_pairs(r.sessions@).len() == 0);
            assert(grid_pairs(r.game_maps@).len() == 0);
        }
        r
    }

    /// The position of a session under this identity, if one is
    /// registered.
    fn find_index(&self, client_id: u128) -> (r: Option<usize>)
        ensures
            match r {
                Option::Some(i) => i < self.sessions@.len() && self.sessions@[i as int].key
                    == client_id,
                Option::None => forall|j: int|
                    0 <= j < self.sessions@.len() ==> self.sessions@[j].key != client_id,
            },
    {
        let mut i: usize = 0;
        while i < self.sessions.len()
            invariant
                i <= self.sessions@.len(),
                forall|j: int| 0 <= j < i ==> self.sessions@[j].key != client_id,
            decreases self.sessions@.len() - i,
        {
            if self.sessions[i].key == client_id {
                return Some(i);
            }
            i += 1;
        }
        None
    }

    /// In a well-formed registry the map-data keys are unique too.
    proof fn lemma_grid_keys_unique(h: GameHandler)
        requires
            h.wf(),
        ensures
            keys_unique(grid_pairs(h.game_maps@)),
    {
        let ep = entry_pairs(h.sessions@);
        let gp = grid_pairs(h.game_maps@);
        assert forall|a: int, b: int| 0 <= a < b < gp.len() implies gp[a].0 != gp[b].0 by {
            assert(gp[a].0 == h.game_maps@[a].key);
            assert(gp[b].0 == h.game_maps@[b].key);
            assert(ep[a].0 == h.sessions@[a].key);
            assert(ep[b].0 == h.sessions@[b].key);
            assert(ep[a].0 != ep[b].0);
        }
    }

    /// The registered identities carry no entry under this identity.
    proof fn lemma_absent(&self, client_id: u128)
        requires
            forall|j: int| 0 <= j < self.sessions@.len() ==> self.sessions@[j].key != client_id,
        ensures
            !self@.contains_key(client_id),
    {
        let pairs = entry_pairs(self.sessions@);
        lemma_assoc_map_dom(pairs);
        assert forall|j: int| 0 <= j < pairs.len() implies pairs[j].0 != client_id by {
            assert(pairs[j].0 == self.sessions@[j].key);
        }
        assert(!has_key(pairs, client_id));
    }

    /// Looks the session up: the registered session under this identity,
    /// or nothing. "Not found" is a normal outcome, not a fault.
    pub fn get(&self, client_id: u128) -> (r: Option<&Player>)
        requires
            self.wf(),
        ensures
            match r {
                Option::Some(p) => self@.contains_key(client_id) && p@ == self@[client_id],
                Option::None => !self@.contains_key(client_id),
            },
    {
        match self.find_index(client_id) {
            Some(i) => {
                proof {
                    lemma_assoc_map_index(entry_pairs(self.sessions@), i as int);
                }
                Some(&self.sessions[i].player)
            },
            None => {
                proof {
                    self.lemma_absent(client_id);
                }
                None
            },
        }
    }

    /// Adds or replaces the session under this identity and hands it the
    /// starting map. Always succeeds.
    pub fn register_client(&mut self, client_id: u128, player: Player)
        requires
            old(self).wf(),
        ensures
            final(self).wf(),
            final(self)@ == old(self)@.insert(client_id, player@),
            final(self).grids().dom() == old(self).grids().dom().insert(client_id),
            is_starting_map(final(self).grids()[client_id]),
            forall|id: u128|
                id != client_id && old(self).grids().contains_key(id)
                    ==> final(self).grids().contains_key(id)
                    && final(self).grids()[id] == old(self).grids()[id],
    {
        let ghost pv = player@;
        let cells = starting_map();
        let ghost cv = cells@;
        match self.find_index(client_id) {
            Some(i) => {
                self.sessions[i] = Entry { key: client_id, player };
                self.game_maps[i] = GridEntry { key: client_id, cells };
                proof {
                    let pre = entry_pairs(old(self).sessions@);
                    let post = entry_pairs(self.sessions@);
                    assert(post =~= pre.update(i as int, (client_id, pv)));
                    lemma_assoc_map_update(pre, i as int, (client_id, pv));
                    assert forall|a: int, b: int|
                        0 <= a < b < post.len() implies post[a].0 != post[b].0 by {
                        assert(pre[a].0 != pre[b].0);
                        assert(pre[i as int].0 == client_id);
                        assert(post[a].0 == pre[a].0);
                        assert(post[b].0 == pre[b].0);
                    }
                    Self::lemma_grid_keys_unique(*old(self));
                    let gpre = grid_pairs(old(self).game_maps@);
                    let gpost = grid_pairs(self.game_maps@);
                    assert(gpost =~= gpre.update(i as int, (client_id, cv)));
                    assert(old(self).game_maps@[i as int].key == client_id);
                    assert(gpre[i as int].0 == client_id);
                    lemma_assoc_map_update(gpre, i as int, (client_id, cv));
                    assert(final(self).grids().dom() =~= old(self).grids().dom().insert(
                        client_id,
                    ));
                }
            },
            None => {
                self.sessions.push(Entry { key: client_id, player });
                self.game_maps.push(GridEntry { key: client_id, cells });
                proof {
                    let pre = entry_pairs(old(self).sessions@);
                    let post = entry_pairs(self.sessions@);
                    assert(post =~= pre.push((client_id, pv)));
                    lemma_assoc_map_push(pre, (client_id, pv));
                    assert forall|a: int, b: int|
                        0 <= a < b < post.len() implies post[a].0 != post[b].0 by {
                        if b < post.len() - 1 {
                            assert(pre[a].0 != pre[b].0);
                        } else {
                            assert(pre[a].0 == old(self).sessions@[a].key);
                            assert(old(self).sessions@[a].key != client_id);
                        }
                    }
                    let gpre = grid_pairs(old(self).game_maps@);
                    let gpost = grid_pairs(self.game_maps@);
                    assert(gpost =~= gpre.push((client_id, cv)));
                    lemma_assoc_map_push(gpre, (client_id, cv));
                    assert(final(self).grids().dom() =~= old(self).grids().dom().insert(
                        client_id,
                    ));
                }
            },
        }
    }

    /// Deletes the session and its map data if present; a missing
    /// identity is a no-op, never an error.
    pub fn unregister_client(&mut self, client_id: u128)
        requires
            old(self).wf(),
        ensures
            final(self).wf(),
            final(self)@ == old(self)@.remove(client_id),
            final(self).grids() == old(self).grids().remove(client_id),
    {
        match self.find_index(client_id) {
            Some(i) => {
                let _removed = self.sessions.remove(i);
                let _removed_grid = self.game_maps.remove(i);
                proof {
                    let pre = entry_pairs(old(self).sessions@);
                    let post = entry_pairs(self.sessions@);
                    assert(post =~= pre.remove(i as int));
                    lemma_assoc_map_remove(pre, i as int);
                    assert forall|a: int, b: int|
                        0 <= a < b < post.len() implies post[a].0 != post[b].0 by {
                        if b < i as int {
                            assert(pre[a].0 != pre[b].0);
                        } else if a < i as int {
                            assert(pre[a].0 != pre[b + 1].0);
                        } else {
                            assert(pre[a + 1].0 != pre[b + 1].0);
                        }
                    }
                    Self::lemma_grid_keys_unique(*old(self));
                    let gpre = grid_pairs(old(self).game_maps@);
                    let gpost = grid_pairs(self.game_maps@);
                    assert(gpost =~= gpre.remove(i as int));
                    assert(old(self).game_maps@[i as int].key == client_id);
                    assert(gpre[i as int].0 == client_id);
                    lemma_assoc_map_remove(gpre, i as int);
                }
            },
            None => {
                proof {
                    self.lemma_absent(client_id);
                    assert(final(self)@ =~= old(self)@.remove(client_id));
                    let gpairs = grid_pairs(self.game_maps@);
                    lemma_assoc_map_dom(gpairs);
                    assert forall|j: int| 0 <= j < gpairs.len() implies gpairs[j].0
                        != client_id by {
                        assert(gpairs[j].0 == self.game_maps@[j].key);
                        assert(self.game_maps@[j].key == self.sessions@[j].key);
                    }
                    assert(!has_key(gpairs, client_id));
                    assert(final(self).grids() =~= old(self).grids().remove(client_id));
                }
            },
        }
    }

    /// Enqueues one already-serialized message onto every registered
    /// session's queue: every recipient gets the same characters, one
    /// message each, and no player state changes. Best effort applies at
    /// the transport, outside this crate; enqueueing itself never fails.
    pub fn broadcast(&mut self, msg: &str)
        requires
            old(self).wf(),
        ensures
            final(self).wf(),
            final(self)@.dom() == old(self)@.dom(),
            forall|id: u128|
                old(self)@.contains_key(id) ==> final(self)@[id].client_id == old(self)@[id].client_id && final(self)@[id].money == old(self)@[id].money && final(self)@[id].queue == old(self)@[id].queue.push(msg@),
            final(self)@ == enqueue_all(old(self)@, msg@),
            final(self).grids() == old(self).grids(),
    {
        let n = self.sessions.len();
        let mut i: usize = 0;
        while i < n
            invariant
                old(self).wf(),
                i <= n,
                n == old(self).sessions@.len(),
                self.sessions@.len() == n,
                self.game_maps@ == old(self).game_maps@,
                forall|j: int|
                    0 <= j < i ==> (#[trigger] self.sessions@[j]).key == old(self).sessions@[j].key && self.sessions@[j].player@.client_id == old(self).sessions@[j].player@.client_id && self.sessions@[j].player@.money == old(self).sessions@[j].player@.money && self.sessions@[j].player@.queue == old(self).sessions@[j].player@.queue.push(msg@),
                forall|j: int| i <= j < n ==> self.sessions@[j] == old(self).sessions@[j],
            decreases n - i,
        {
            let ghost pre_seq = self.sessions@;
            let text = msg.to_owned();
            let ghost tv = text;
            let mut entry = self.sessions.remove(i);
            let ghost qv = entry.player.queue@;
            entry.player.queue.push(text);
            proof {
                lemma_queue_view_push(qv, tv);
            }
            self.sessions.insert(i, entry);
            proof {
                assert(self.sessions@ =~= pre_seq.update(i as int, self.sessions@[i as int]));
            }
            i += 1;
        }
        proof {
            self.lemma_pointwise_close(*old(self));
            assert forall|id: u128| #[trigger] old(self)@.contains_key(id) implies self@[id]
                == enqueue_all(old(self)@, msg@)[id] by {
                assert(self@[id] =~= enqueue_all(old(self)@, msg@)[id]);
            }
            assert(self@ =~= enqueue_all(old(self)@, msg@));
        }
    }

    /// From a state whose sessions keep the keys of `pre`'s sessions in
    /// place and whose map data is unchanged, carries the pointwise facts
    /// up to the map value and re-establishes well-formedness.
    proof fn lemma_pointwise_close(&self, pre: GameHandler)
        requires
            pre.wf(),
            self.sessions@.len() == pre.sessions@.len(),
            self.game_maps@ == pre.game_maps@,
            forall|j: int|
                0 <= j < pre.sessions@.len() ==> (#[trigger] self.sessions@[j]).key
                    == pre.sessions@[j].key,
        ensures
            self.wf(),
            self@.dom() == pre@.dom(),
            forall|id: u128| #[trigger] pre@.contains_key(id) ==> has_key(entry_pairs(pre.sessions@), id),
            forall|j: int|
                0 <= j < pre.sessions@.len() ==> pre@.contains_key(pre.sessions@[j].key) && pre@[
                    (#[trigger] pre.sessions@[j]).key
                ] == pre.sessions@[j].player@ && self@[pre.sessions@[j].key]
                    == self.sessions@[j].player@,
            self.grids() == pre.grids(),
    {
        let ep = entry_pairs(pre.sessions@);
        let sp = entry_pairs(self.sessions@);
        lemma_pointwise_maps(ep, sp);
        assert forall|j: int|
            0 <= j < pre.sessions@.len() implies pre@.contains_key(pre.sessions@[j].key) && pre@[
            (#[trigger] pre.sessions@[j]).key
        ] == pre.sessions@[j].player@ && self@[pre.sessions@[j].key]
            == self.sessions@[j].player@ by {
            assert(ep[j].0 == pre.sessions@[j].key);
            assert(ep[j].1 == pre.sessions@[j].player@);
            assert(sp[j].1 == self.sessions@[j].player@);
        }
        assert forall|id: u128| #[trigger] pre@.contains_key(id) implies has_key(ep, id) by {}
    }

    /// Enqueues one message onto the session under this identity; a
    /// missing identity is a silent no-op.
    pub fn send_to(&mut self, client_id: u128, msg: &str)
        requires
            old(self).wf(),
        ensures
            final(self).wf(),
            old(self)@.contains_key(client_id) ==> final(self)@ == old(self)@.insert(
                client_id,
                (PlayerV {
                    client_id: old(self)@[client_id].client_id,
                    money: old(self)@[client_id].money,
                    queue: old(self)@[client_id].queue.push(msg@),
                }),
            ),
            !old(self)@.contains_key(client_id) ==> final(self)@ == old(self)@,
            final(self).grids() == old(self).grids(),
    {
        match self.find_index(client_id) {
            Some(i) => {
                let ghost pre_seq = self.sessions@;
                let text = msg.to_owned();
                let ghost tv = text;
                let mut entry = self.sessions.remove(i);
                let ghost qv = entry.player.queue@;
                entry.player.queue.push(text);
                proof {
                    lemma_queue_view_push(qv, tv);
                }
                self.sessions.insert(i, entry);
                proof {
                    assert(self.sessions@ =~= pre_seq.update(i as int, self.sessions@[i as int]));
                    let ep = entry_pairs(old(self).sessions@);
                    let sp = entry_pairs(self.sessions@);
                    lemma_assoc_map_index(ep, i as int);
                    assert(sp =~= ep.update(
                        i as int,
                        (client_id, self.sessions@[i as int].player@),
                    ));
                    lemma_assoc_map_update(ep, i as int, (client_id, self.sessions@[i as int].player@));
                    assert(self.sessions@[i as int].player@ =~= (PlayerV {
                        client_id: old(self)@[client_id].client_id,
                        money: old(self)@[client_id].money,
                        queue: old(self)@[client_id].queue.push(msg@),
                    }));
                    self.lemma_pointwise_close(*old(self));
                }
            },
            None => {
                proof {
                    self.lemma_absent(client_id);
                }
            },
        }
    }

    /// Whether a tick can fire without any balance leaving the machine
    /// range.
    pub fn can_tick(&self) -> (r: bool)
        requires
            self.wf(),
        ensures
            r <==> forall|id: u128|
                #[trigger] self@.contains_key(id) ==> self@[id].money < isize::MAX as int,
    {
        let n = self.sessions.len();
        let mut i: usize = 0;
        while i < n
            invariant
                self.wf(),
                i <= n,
                n == self.sessions@.len(),
                forall|j: int|
                    0 <= j < i ==> (#[trigger] self.sessions@[j]).player@.money < isize::MAX as int,
            decreases n - i,
        {
            if self.sessions[i].player.money >= isize::MAX {
                proof {
                    lemma_assoc_map_index(entry_pairs(self.sessions@), i as int);
                    assert(self@.contains_key(self.sessions@[i as int].key));
                    assert(self@[self.sessions@[i as int].key].money >= isize::MAX as int);
                }
                return false;
            }
            i += 1;
        }
        proof {
            self.lemma_pointwise_close(*self);
            assert forall|id: u128| #[trigger] self@.contains_key(id) implies self@[id].money
                < isize::MAX as int by {
                let ep = entry_pairs(self.sessions@);
                let j = choose|j: int| 0 <= j < ep.len() && ep[j].0 == id;
                assert(self@[self.sessions@[j].key] == self.sessions@[j].player@);
            }
        }
        true
    }

    /// The per-tick state mutation: every registered player's balance
    /// rises by one. No messages move.
    pub fn process_player_updates(&mut self)
        requires
            old(self).wf(),
            forall|id: u128|
                #[trigger] old(self)@.contains_key(id) ==> old(self)@[id].money < isize::MAX as int,
        ensures
            final(self).wf(),
            final(self)@.dom() == old(self)@.dom(),
            forall|id: u128|
                old(self)@.contains_key(id) ==> final(self)@[id].client_id == old(self)@[id].client_id && final(self)@[id].money == old(self)@[id].money + 1 && final(self)@[id].queue == old(self)@[id].queue,
            final(self).grids() == old(self).grids(),
    {
        let n = self.sessions.len();
        let mut i: usize = 0;
        while i < n
            invariant
                old(self).wf(),
                forall|id: u128|
                    #[trigger] old(self)@.contains_key(id) ==> old(self)@[id].money < isize::MAX as int,
                i <= n,
                n == old(self).sessions@.len(),
                self.sessions@.len() == n,
                self.game_maps@ == old(self).game_maps@,
                forall|j: int|
                    0 <= j < i ==> (#[trigger] self.sessions@[j]).key == old(self).sessions@[j].key && self.sessions@[j].player@.client_id == old(self).sessions@[j].player@.client_id && self.sessions@[j].player@.money == old(self).sessions@[j].player@.money + 1 && self.sessions@[j].player@.queue == old(self).sessions@[j].player@.queue,
                forall|j: int| i <= j < n ==> self.sessions@[j] == old(self).sessions@[j],
            decreases n - i,
        {
            let ghost pre_seq = self.sessions@;
            proof {
                lemma_assoc_map_index(entry_pairs(old(self).sessions@), i as int);
                assert(old(self)@.contains_key(old(self).sessions@[i as int].key));
            }
            let mut entry = self.sessions.remove(i);
            entry.player.money = entry.player.money + 1;
            self.sessions.insert(i, entry);
            proof {
                assert(self.sessions@ =~= pre_seq.update(i as int, self.sessions@[i as int]));
            }
            i += 1;
        }
        proof {
            self.lemma_pointwise_close(*old(self));
        }
    }

    /// The per-tick fan-out: builds each session's individualized update
    /// message from its now-current balance and enqueues it. Balances do
    /// not change.
    pub fn broadcast_game_update(&mut self)
        requires
            old(self).wf(),
        ensures
            final(self).wf(),
            final(self)@.dom() == old(self)@.dom(),
            forall|id: u128|
                old(self)@.contains_key(id) ==> final(self)@[id].client_id == old(self)@[id].client_id && final(self)@[id].money == old(self)@[id].money && final(self)@[id].queue == old(self)@[id].queue.push(
                    update_wire(Option::Some(old(self)@[id].money)),
                ),
            final(self).grids() == old(self).grids(),
    {
        let n = self.sessions.len();
        let mut i: usize = 0;
        while i < n
            invariant
                old(self).wf(),
                i <= n,
                n == old(self).sessions@.len(),
                self.sessions@.len() == n,
                self.game_maps@ == old(self).game_maps@,
                forall|j: int|
                    0 <= j < i ==> (#[trigger] self.sessions@[j]).key == old(self).sessions@[j].key && self.sessions@[j].player@.client_id == old(self).sessions@[j].player@.client_id && self.sessions@[j].player@.money == old(self).sessions@[j].player@.money && self.sessions@[j].player@.queue == old(self).sessions@[j].player@.queue.push(
                        update_wire(Option::Some(old(self).sessions@[j].player@.money)),
                    ),
                forall|j: int| i <= j < n ==> self.sessions@[j] == old(self).sessions@[j],
            decreases n - i,
        {
            let ghost pre_seq = self.sessions@;
            let mut entry = self.sessions.remove(i);
            let text = build_game_update_message(&entry.player);
            let ghost tv = text;
            let ghost qv = entry.player.queue@;
            entry.player.queue.push(text);
            proof {
                lemma_queue_view_push(qv, tv);
            }
            self.sessions.insert(i, entry);
            proof {
                assert(self.sessions@ =~= pre_seq.update(i as int, self.sessions@[i as int]));
            }
            i += 1;
        }
        proof {
            self.lemma_pointwise_close(*old(self));
        }
    }

    /// One tick: first every balance rises, then every session gets an
    /// update message carrying its new balance. The mutation of all
    /// sessions completes before any message is built, so no session is
    /// told about a partially applied tick.
    pub fn tick(&mut self)
        requires
            old(self).wf(),
            forall|id: u128|
                #[trigger] old(self)@.contains_key(id) ==> old(self)@[id].money < isize::MAX as int,
        ensures
            final(self).wf(),
            final(self)@ == tick_map(old(self)@),
            final(self).grids() == old(self).grids(),
    {
        self.process_player_updates();
        self.broadcast_game_update();
        proof {
            assert forall|id: u128| #[trigger] old(self)@.contains_key(id) implies self@.contains_key(id)
                && self@[id] == tick_player(old(self)@[id]) by {
                assert(self@[id] =~= tick_player(old(self)@[id]));
            }
            assert(self@ =~= tick_map(old(self)@));
        }
    }

    /// Hands the session's queued messages out in order, oldest first,
    /// and leaves its queue empty; a missing identity hands out nothing.
    /// The caller bridges them to the transport.
    pub fn take_outbox(&mut self, client_id: u128) -> (msgs: Vec<String>)
        requires
            old(self).wf(),
        ensures
            final(self).wf(),
            old(self)@.contains_key(client_id) ==> final(self)@ == old(self)@.insert(
                client_id,
                (PlayerV {
                    client_id: old(self)@[client_id].client_id,
                    money: old(self)@[client_id].money,
                    queue: Seq::empty(),
                }),
            ) && queue_view(msgs@) == old(self)@[client_id].queue,
            !old(self)@.contains_key(client_id) ==> final(self)@ == old(self)@ && msgs@.len() == 0,
            final(self).grids() == old(self).grids(),
    {
        match self.find_index(client_id) {
            Some(i) => {
                let ghost pre_seq = self.sessions@;
                let mut entry = self.sessions.remove(i);
                let mut msgs: Vec<String> = Vec::new();
                core::mem::swap(&mut msgs, &mut entry.player.queue);
                self.sessions.insert(i, entry);
                proof {
                    assert(self.sessions@ =~= pre_seq.update(i as int, self.sessions@[i as int]));
                    let ep = entry_pairs(old(self).sessions@);
                    let sp = entry_pairs(self.sessions@);
                    lemma_assoc_map_index(ep, i as int);
                    assert(sp =~= ep.update(
                        i as int,
                        (client_id, self.sessions@[i as int].player@),
                    ));
                    lemma_assoc_map_update(ep, i as int, (client_id, self.sessions@[i as int].player@));
                    assert(queue_view(Seq::<String>::empty()) =~= Seq::<Seq<char>>::empty());
                    assert(self.sessions@[i as int].player@ =~= (PlayerV {
                        client_id: old(self)@[client_id].client_id,
                        money: old(self)@[client_id].money,
                        queue: Seq::empty(),
                    }));
                    self.lemma_pointwise_close(*old(self));
                }
                msgs
            },
            None => {
                proof {
                    self.lemma_absent(client_id);
                }
                Vec::new()
            },
        }
    }
}

/// What one tick does to one player's value: the balance rises by one and
/// an update message carrying the new balance joins the queue.
pub open spec fn tick_player(p: PlayerV) -> PlayerV {
    PlayerV {
        client_id: p.client_id,
        money: p.money + 1,
        queue: p.queue.push(update_wire(Option::Some(p.money + 1))),
    }
}

/// What one tick does to the whole registry value.
pub open spec fn tick_map(m: Map<u128, PlayerV>) -> Map<u128, PlayerV> {
    Map::new(|id: u128| m.contains_key(id), |id: u128| tick_player(m[id]))
}

/// What a broadcast pass does to the whole registry value: every
/// session's queue grows by the one message, and nothing else moves.
pub open spec fn enqueue_all(m: Map<u128, PlayerV>, msg: Seq<char>) -> Map<u128, PlayerV> {
    Map::new(
        |id: u128| m.contains_key(id),
        |id: u128| PlayerV { queue: m[id].queue.push(msg), ..m[id] },
    )
}

/// Builds a session's individualized update message from its current
/// balance.
pub fn build_game_update_message(player: &Player) -> (s: String)
    ensures
        s@ == update_wire(Option::Some(player.money as int)),
{
    encode_response(&Response::Update(Update { money: Some(player.money) }))
}

} // verus!
