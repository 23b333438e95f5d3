//! The registry-wide laws: consequences of the method contracts in
//! `game`, stated and proved once so a reader sees them rather than
//! having to derive them.

use vstd::prelude::*;
use crate::game::{PlayerV, enqueue_all, tick_map, tick_player};
use crate::msg::update_wire;

verus! {

/// After a remove, the registry holds no entry under the removed
/// identity — no dangling entry — every other entry is untouched, and
/// removing again changes nothing.
pub proof fn lemma_remove_leaves_no_entry(m: Map<u128, PlayerV>, id: u128)
    ensures
        !m.remove(id).contains_key(id),
        m.remove(id).remove(id) == m.remove(id),
        forall|o: u128| o != id ==> ((#[trigger] m.remove(id).contains_key(o)) <==> m.contains_key(
            o,
        )),
        forall|o: u128| o != id && m.contains_key(o) ==> #[trigger] m.remove(id)[o] == m[o],
{
    assert(m.remove(id).remove(id) =~= m.remove(id));
}

/// A broadcast over a registry with N sessions enqueues exactly N
/// messages — one per session, none elsewhere — and every session's new
/// last message holds the same characters, whatever order the sessions
/// were registered in.
pub proof fn lemma_broadcast_uniform(
    pre: Map<u128, PlayerV>,
    post: Map<u128, PlayerV>,
    msg: Seq<char>,
)
    requires
        post.dom() == pre.dom(),
        forall|id: u128|
            #[trigger] pre.contains_key(id) ==> post[id].queue == pre[id].queue.push(msg),
    ensures
        forall|id: u128|
            #[trigger] post.contains_key(id) ==> post[id].queue.len() == pre[id].queue.len() + 1
                && post[id].queue.last() == msg,
{
}

/// A registry pass and a removal commute: a pass over the registry after
/// a removal gives the same value as removing after the pass. So a
/// session is either fully visible to a pass — it receives the pass's
/// whole effect — or fully invisible to it; no pass sees a partial view.
/// (Passes themselves are atomic here: the exclusion of mid-pass
/// structural changes is the lock of the shell that drives this core.)
pub proof fn lemma_pass_removal_all_or_nothing(m: Map<u128, PlayerV>, id: u128, msg: Seq<char>)
    ensures
        enqueue_all(m.remove(id), msg) == enqueue_all(m, msg).remove(id),
        tick_map(m.remove(id)) == tick_map(m).remove(id),
{
    assert(enqueue_all(m.remove(id), msg) =~= enqueue_all(m, msg).remove(id));
    assert(tick_map(m.remove(id)) =~= tick_map(m).remove(id));
}

/// The registry value after `k` consecutive ticks.
pub open spec fn ticks_map(m: Map<u128, PlayerV>, k: nat) -> Map<u128, PlayerV>
    decreases k,
{
    if k == 0 {
        m
    } else {
        tick_map(ticks_map(m, (k - 1) as nat))
    }
}

/// After exactly `k` ticks, a continuously registered session's balance
/// is its initial balance plus `k`, its queue has grown by exactly `k`
/// update messages and by nothing else, and the `j`-th new message
/// carries the balance after the `j`-th tick — so the carried values
/// rise by one per tick, in tick order.
pub proof fn lemma_k_ticks(m: Map<u128, PlayerV>, k: nat, id: u128)
    requires
        m.contains_key(id),
    ensures
        ticks_map(m, k).contains_key(id),
        ticks_map(m, k)[id].client_id == m[id].client_id,
        ticks_map(m, k)[id].money == m[id].money + k,
        ticks_map(m, k)[id].queue.len() == m[id].queue.len() + k,
        forall|j: int|
            0 <= j < m[id].queue.len() ==> #[trigger] ticks_map(m, k)[id].queue[j]
                == m[id].queue[j],
        forall|j: int|
            0 <= j < k ==> #[trigger] ticks_map(m, k)[id].queue[m[id].queue.len() + j]
                == update_wire(Option::Some(m[id].money + j + 1)),
    decreases k,
{
    if k > 0 {
        lemma_k_ticks(m, (k - 1) as nat, id);
        let prev = ticks_map(m, (k - 1) as nat);
        assert(ticks_map(m, k) == tick_map(prev));
        assert(ticks_map(m, k)[id] == tick_player(prev[id]));
        assert forall|j: int|
            0 <= j < k implies #[trigger] ticks_map(m, k)[id].queue[m[id].queue.len() + j]
            == update_wire(Option::Some(m[id].money + j + 1)) by {
            if j < k - 1 {
                assert(prev[id].queue[m[id].queue.len() + j] == update_wire(
                    Option::Some(m[id].money + j + 1),
                ));
            } else {
                assert(prev[id].money == m[id].money + k - 1);
            }
        }
    }
}

} // verus!
