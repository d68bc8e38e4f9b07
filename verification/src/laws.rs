//! Session-level laws: properties of whole controller runs, proved over the
//! `step` function that `CycleState::handle_event` implements exactly.

use vstd::prelude::*;
use crate::controller::ActionView;
use crate::controller::CycleView;
use crate::controller::EventView;
use crate::controller::end_cycle_spec;
use crate::controller::expired_ids;
use crate::controller::has_peer;
use crate::controller::init_cycle_view;
use crate::controller::live_peers;
use crate::controller::peer_timed_out;
use crate::controller::peers_distinct;
use crate::controller::remove_peer;
use crate::controller::set_ping;
use crate::controller::step;
use crate::controller::step_hello;
use crate::controller::step_leave;
use crate::controller::step_remote_description;
use crate::controller::step_timeout;
use crate::controller::PeerView;
use crate::text::lex_gt;
use crate::text::lemma_lex_trichotomy;
use crate::wire::MessageView;

verus! {

/// A whole run: fold `step` over a sequence of events, each with the time
/// in milliseconds at which it arrived, concatenating the decided actions.
pub open spec fn run(
    st: CycleView,
    evs: Seq<(EventView, int)>,
    local: Seq<char>,
    room: Seq<char>,
) -> (CycleView, Seq<ActionView>)
    decreases evs.len(),
{
    if evs.len() == 0 {
        (st, Seq::empty())
    } else {
        let first = step(st, evs[0].0, local, room, evs[0].1);
        let rest = run(first.0, evs.drop_first(), local, room);
        (rest.0, first.1 + rest.1)
    }
}

/// How often `peer-joined` is announced for `p` in a trace.
pub open spec fn count_joined(tr: Seq<ActionView>, p: Seq<char>) -> int
    decreases tr.len(),
{
    if tr.len() == 0 {
        0
    } else {
        (match tr[0] {
            ActionView::EmitPeerJoined { client_id } => if client_id == p {
                1int
            } else {
                0int
            },
            _ => 0int,
        }) + count_joined(tr.drop_first(), p)
    }
}

/// How often `peer-left` is announced for `p` in a trace.
pub open spec fn count_left(tr: Seq<ActionView>, p: Seq<char>) -> int
    decreases tr.len(),
{
    if tr.len() == 0 {
        0
    } else {
        (match tr[0] {
            ActionView::EmitPeerLeft { client_id } => if client_id == p {
                1int
            } else {
                0int
            },
            _ => 0int,
        }) + count_left(tr.drop_first(), p)
    }
}

/// How many offers a trace starts.
pub open spec fn count_offers(tr: Seq<ActionView>) -> int
    decreases tr.len(),
{
    if tr.len() == 0 {
        0
    } else {
        (match tr[0] {
            ActionView::CreateAndSendOffer => 1int,
            _ => 0int,
        }) + count_offers(tr.drop_first(), )
    }
}

/// 1 when the table holds `p`, else 0.
pub open spec fn peer_bit(peers: Seq<PeerView>, p: Seq<char>) -> int {
    if has_peer(peers, p) {
        1
    } else {
        0
    }
}

/// 1 when the flag is set, else 0.
pub open spec fn flag_bit(b: bool) -> int {
    if b {
        1
    } else {
        0
    }
}

/// Counts are additive over concatenation.
pub proof fn lemma_counts_append(a: Seq<ActionView>, b: Seq<ActionView>, p: Seq<char>)
    ensures
        count_joined(a + b, p) == count_joined(a, p) + count_joined(b, p),
        count_left(a + b, p) == count_left(a, p) + count_left(b, p),
        count_offers(a + b) == count_offers(a) + count_offers(b),
    decreases a.len(),
{
    if a.len() == 0 {
        assert(a + b =~= b);
    } else {
        assert((a + b).drop_first() =~= a.drop_first() + b);
        assert((a + b)[0] == a[0]);
        lemma_counts_append(a.drop_first(), b, p);
    }
}

/// A trace of nothing but `EmitPeerLeft` announcements, one per id: no
/// joins, no offers, and one `peer-left` per occurrence of the id.
proof fn lemma_counts_of_left_only(tr: Seq<ActionView>, p: Seq<char>)
    requires
        forall|i: int|
            0 <= i < tr.len() ==> #[trigger] tr[i] matches ActionView::EmitPeerLeft { .. },
    ensures
        count_joined(tr, p) == 0,
        count_offers(tr) == 0,
    decreases tr.len(),
{
    if tr.len() > 0 {
        assert forall|i: int|
            0 <= i < tr.drop_first().len() implies #[trigger] tr.drop_first()[i] matches
            ActionView::EmitPeerLeft { .. } by {
            assert(tr.drop_first()[i] == tr[i + 1]);
        }
        lemma_counts_of_left_only(tr.drop_first(), p);
    }
}

/// A trace of nothing but `ApplyCandidate` actions: no joins, no leaves,
/// no offers.
proof fn lemma_counts_of_apply_only(tr: Seq<ActionView>, p: Seq<char>)
    requires
        forall|i: int|
            0 <= i < tr.len() ==> #[trigger] tr[i] matches ActionView::ApplyCandidate { .. },
    ensures
        count_joined(tr, p) == 0,
        count_left(tr, p) == 0,
        count_offers(tr) == 0,
    decreases tr.len(),
{
    if tr.len() > 0 {
        assert forall|i: int|
            0 <= i < tr.drop_first().len() implies #[trigger] tr.drop_first()[i] matches
            ActionView::ApplyCandidate { .. } by {
            assert(tr.drop_first()[i] == tr[i + 1]);
        }
        lemma_counts_of_apply_only(tr.drop_first(), p);
    }
}

/// `set_ping` adds the id or refreshes it; every other membership stays,
/// and distinctness is preserved.
proof fn lemma_set_ping_membership(peers: Seq<PeerView>, id: Seq<char>, now: int, q: Seq<char>)
    ensures
        has_peer(set_ping(peers, id, now), q) == (has_peer(peers, q) || q == id),
        peers_distinct(peers) ==> peers_distinct(set_ping(peers, id, now)),
    decreases peers.len(),
{
    let r = set_ping(peers, id, now);
    if peers.len() == 0 {
        assert(r.drop_first() =~= Seq::<PeerView>::empty());
        assert(r[0].client_id == id);
        assert(!has_peer(r.drop_first(), q));
        assert(has_peer(r, q) == (q == id));
    } else if peers[0].client_id == id {
        assert(r.drop_first() =~= peers.drop_first());
        assert(r[0].client_id == id);
        assert(has_peer(r, q) == (q == id || has_peer(peers.drop_first(), q)));
        assert(has_peer(peers, q) == (q == id || has_peer(peers.drop_first(), q)));
        if peers_distinct(peers) {
            assert forall|i: int, j: int|
                0 <= i < j < r.len() implies r[i].client_id != r[j].client_id by {
                if i > 0 {
                    assert(r[i] == peers[i]);
                }
                assert(r[j] == peers[j]);
            }
        }
    } else {
        lemma_set_ping_membership(peers.drop_first(), id, now, q);
        assert(r[0] == peers[0]);
        assert(r.drop_first() =~= set_ping(peers.drop_first(), id, now));
        assert(has_peer(r, q) == (peers[0].client_id == q || has_peer(
            set_ping(peers.drop_first(), id, now),
            q,
        )));
        assert(has_peer(peers, q) == (peers[0].client_id == q || has_peer(
            peers.drop_first(),
            q,
        )));
        if peers_distinct(peers) {
            assert forall|i: int, j: int|
                0 <= i < j < peers.drop_first().len() implies peers.drop_first()[i].client_id
                != peers.drop_first()[j].client_id by {
                assert(peers.drop_first()[i] == peers[i + 1]);
                assert(peers.drop_first()[j] == peers[j + 1]);
            }
            assert(peers_distinct(peers.drop_first()));
            let r1 = set_ping(peers.drop_first(), id, now);
            assert forall|i: int, j: int|
                0 <= i < j < r.len() implies r[i].client_id != r[j].client_id by {
                if i == 0 {
                    assert(r[j] == r1[j - 1]);
                    lemma_set_ping_head_ids(peers.drop_first(), id, now, j - 1, peers[0].client_id);
                } else {
                    assert(r[i] == r1[i - 1]);
                    assert(r[j] == r1[j - 1]);
                    assert(peers_distinct(r1));
                }
            }
        }
    }
}

/// Every id in `set_ping(peers, id, now)` is `id` or an id of `peers`; in
/// particular an id different from all of them and from `id` does not occur.
proof fn lemma_set_ping_head_ids(
    peers: Seq<PeerView>,
    id: Seq<char>,
    now: int,
    k: int,
    other: Seq<char>,
)
    requires
        0 <= k < set_ping(peers, id, now).len(),
        other != id,
        forall|t: int| 0 <= t < peers.len() ==> peers[t].client_id != other,
    ensures
        set_ping(peers, id, now)[k].client_id != other,
    decreases peers.len(),
{
    let r = set_ping(peers, id, now);
    if peers.len() == 0 {
    } else if peers[0].client_id == id {
        if k > 0 {
            assert(r[k] == peers[k]);
        }
    } else {
        if k > 0 {
            assert(r[k] == set_ping(peers.drop_first(), id, now)[k - 1]);
            assert forall|t: int|
                0 <= t < peers.drop_first().len() implies peers.drop_first()[t].client_id
                != other by {
                assert(peers.drop_first()[t] == peers[t + 1]);
            }
            lemma_set_ping_head_ids(peers.drop_first(), id, now, k - 1, other);
        }
    }
}

/// Removing an id from a distinct table removes exactly that id.
proof fn lemma_remove_peer_membership(peers: Seq<PeerView>, id: Seq<char>, q: Seq<char>)
    requires
        peers_distinct(peers),
    ensures
        has_peer(remove_peer(peers, id), q) == (has_peer(peers, q) && q != id),
        peers_distinct(remove_peer(peers, id)),
    decreases peers.len(),
{
    let r = remove_peer(peers, id);
    if peers.len() == 0 {
    } else {
        assert forall|i: int, j: int|
            0 <= i < j < peers.drop_first().len() implies peers.drop_first()[i].client_id
            != peers.drop_first()[j].client_id by {
            assert(peers.drop_first()[i] == peers[i + 1]);
            assert(peers.drop_first()[j] == peers[j + 1]);
        }
        assert(peers_distinct(peers.drop_first()));
        if peers[0].client_id == id {
            assert(r =~= peers.drop_first());
            lemma_has_peer_means_index(peers.drop_first(), id);
            if has_peer(peers.drop_first(), id) {
                let w = choose|w: int|
                    0 <= w < peers.drop_first().len() && peers.drop_first()[w].client_id == id;
                assert(peers.drop_first()[w] == peers[w + 1]);
                assert(false);
            }
        } else {
            lemma_remove_peer_membership(peers.drop_first(), id, q);
            assert(r[0] == peers[0]);
            assert(r.drop_first() =~= remove_peer(peers.drop_first(), id));
            let r1 = remove_peer(peers.drop_first(), id);
            assert forall|i: int, j: int|
                0 <= i < j < r.len() implies r[i].client_id != r[j].client_id by {
                if i == 0 {
                    assert(r[j] == r1[j - 1]);
                    lemma_remove_keeps_ids(peers.drop_first(), id, j - 1);
                } else {
                    assert(r[i] == r1[i - 1]);
                    assert(r[j] == r1[j - 1]);
                }
            }
        }
    }
}

/// Every entry of `remove_peer(peers, id)` is an entry of `peers`.
proof fn lemma_remove_keeps_ids(peers: Seq<PeerView>, id: Seq<char>, k: int)
    requires
        0 <= k < remove_peer(peers, id).len(),
    ensures
        exists|t: int|
            0 <= t < peers.len() && peers[t] == #[trigger] remove_peer(peers, id)[k],
    decreases peers.len(),
{
    let r = remove_peer(peers, id);
    if peers.len() == 0 {
    } else if peers[0].client_id == id {
        assert(r[k] == peers[k + 1]);
    } else {
        if k == 0 {
            assert(r[0] == peers[0]);
        } else {
            assert(r[k] == remove_peer(peers.drop_first(), id)[k - 1]);
            lemma_remove_keeps_ids(peers.drop_first(), id, k - 1);
            let t = choose|t: int|
                0 <= t < peers.drop_first().len() && peers.drop_first()[t] == remove_peer(
                    peers.drop_first(),
                    id,
                )[k - 1];
            assert(peers[t + 1] == r[k]);
        }
    }
}

/// Counts over a one-action trace.
proof fn lemma_counts_singleton(a: ActionView, p: Seq<char>)
    ensures
        count_joined(seq![a], p) == (match a {
            ActionView::EmitPeerJoined { client_id } => if client_id == p {
                1int
            } else {
                0int
            },
            _ => 0int,
        }),
        count_left(seq![a], p) == (match a {
            ActionView::EmitPeerLeft { client_id } => if client_id == p {
                1int
            } else {
                0int
            },
            _ => 0int,
        }),
        count_offers(seq![a]) == (match a {
            ActionView::CreateAndSendOffer => 1int,
            _ => 0int,
        }),
{
    assert(seq![a].drop_first() =~= Seq::<ActionView>::empty());
    assert(count_joined(Seq::<ActionView>::empty(), p) == 0);
    assert(count_left(Seq::<ActionView>::empty(), p) == 0);
    assert(count_offers(Seq::<ActionView>::empty()) == 0);
}

/// The time of the last `Ping` recorded for `p`; 0 when `p` is not tracked.
pub open spec fn last_ping_of(peers: Seq<PeerView>, p: Seq<char>) -> int
    decreases peers.len(),
{
    if peers.len() == 0 {
        0
    } else if peers[0].client_id == p {
        peers[0].last_ping_ms
    } else {
        last_ping_of(peers.drop_first(), p)
    }
}

/// The `peer-left` announcements of a timeout scan.
pub open spec fn timeout_leaves(peers: Seq<PeerView>, now: int) -> Seq<ActionView> {
    expired_ids(peers, now).map_values(
        |id: Seq<char>| ActionView::EmitPeerLeft { client_id: id },
    )
}

/// Every entry of `live_peers` is an entry of the original table.
proof fn lemma_live_keeps_ids(peers: Seq<PeerView>, now: int, k: int)
    requires
        0 <= k < live_peers(peers, now).len(),
    ensures
        exists|t: int|
            0 <= t < peers.len() && peers[t] == #[trigger] live_peers(peers, now)[k],
    decreases peers.len(),
{
    let r = live_peers(peers, now);
    if peers.len() == 0 {
    } else if peer_timed_out(peers[0], now) {
        assert(r == live_peers(peers.drop_first(), now));
        lemma_live_keeps_ids(peers.drop_first(), now, k);
        let t = choose|t: int|
            0 <= t < peers.drop_first().len() && peers.drop_first()[t] == live_peers(
                peers.drop_first(),
                now,
            )[k];
        assert(peers[t + 1] == r[k]);
    } else {
        if k == 0 {
            assert(r[0] == peers[0]);
        } else {
            assert(r[k] == live_peers(peers.drop_first(), now)[k - 1]);
            lemma_live_keeps_ids(peers.drop_first(), now, k - 1);
            let t = choose|t: int|
                0 <= t < peers.drop_first().len() && peers.drop_first()[t] == live_peers(
                    peers.drop_first(),
                    now,
                )[k - 1];
            assert(peers[t + 1] == r[k]);
        }
    }
}

/// What the timeout scan does to membership and to the `peer-left` count:
/// `p` is announced exactly when it was tracked and has timed out, it stays
/// exactly when it was tracked and has not, and distinctness is preserved.
proof fn lemma_timeout_counts(peers: Seq<PeerView>, now: int, p: Seq<char>)
    requires
        peers_distinct(peers),
    ensures
        peers_distinct(live_peers(peers, now)),
        count_left(timeout_leaves(peers, now), p) == peer_bit(peers, p) - peer_bit(
            live_peers(peers, now),
            p,
        ),
        has_peer(live_peers(peers, now), p) == (has_peer(peers, p) && !(now - last_ping_of(
            peers,
            p,
        ) > 6000)),
        count_joined(timeout_leaves(peers, now), p) == 0,
        count_offers(timeout_leaves(peers, now)) == 0,
        forall|i: int|
            0 <= i < timeout_leaves(peers, now).len() ==> #[trigger] timeout_leaves(peers, now)[i]
                matches ActionView::EmitPeerLeft { .. },
    decreases peers.len(),
{
    let tl = timeout_leaves(peers, now);
    assert forall|i: int|
        0 <= i < tl.len() implies #[trigger] tl[i] matches ActionView::EmitPeerLeft {
        ..
    } by {
        assert(tl[i] == ActionView::EmitPeerLeft { client_id: expired_ids(peers, now)[i] });
    }
    lemma_counts_of_left_only(tl, p);
    if peers.len() == 0 {
        assert(tl =~= Seq::<ActionView>::empty());
    } else {
        let h = peers[0];
        let t = peers.drop_first();
        assert forall|i: int, j: int|
            0 <= i < j < t.len() implies t[i].client_id != t[j].client_id by {
            assert(t[i] == peers[i + 1]);
            assert(t[j] == peers[j + 1]);
        }
        assert(peers_distinct(t));
        lemma_timeout_counts(t, now, p);
        lemma_has_peer_means_index(t, p);
        lemma_has_peer_means_index(t, h.client_id);
        if h.client_id == p {
            if has_peer(t, p) {
                let w = choose|w: int| 0 <= w < t.len() && t[w].client_id == p;
                assert(t[w] == peers[w + 1]);
                assert(false);
            }
        }
        if peer_timed_out(h, now) {
            assert(expired_ids(peers, now) == seq![h.client_id] + expired_ids(t, now));
            assert(tl =~= seq![ActionView::EmitPeerLeft { client_id: h.client_id }]
                + timeout_leaves(t, now));
            lemma_counts_append(
                seq![ActionView::EmitPeerLeft { client_id: h.client_id }],
                timeout_leaves(t, now),
                p,
            );
            lemma_counts_singleton(ActionView::EmitPeerLeft { client_id: h.client_id }, p);
            assert(live_peers(peers, now) == live_peers(t, now));
        } else {
            assert(expired_ids(peers, now) == expired_ids(t, now));
            assert(tl =~= timeout_leaves(t, now));
            let lv = live_peers(peers, now);
            assert(lv == seq![h] + live_peers(t, now));
            assert(lv[0] == h);
            assert(lv.drop_first() =~= live_peers(t, now));
            assert forall|i: int, j: int|
                0 <= i < j < lv.len() implies lv[i].client_id != lv[j].client_id by {
                if i == 0 {
                    lemma_live_keeps_ids(t, now, j - 1);
                    let w = choose|w: int|
                        0 <= w < t.len() && t[w] == live_peers(t, now)[j - 1];
                    assert(t[w] == peers[w + 1]);
                    assert(lv[j] == live_peers(t, now)[j - 1]);
                } else {
                    assert(lv[i] == live_peers(t, now)[i - 1]);
                    assert(lv[j] == live_peers(t, now)[j - 1]);
                }
            }
        }
    }
}

/// `has_peer` through an index witness.
proof fn lemma_has_peer_means_index(peers: Seq<PeerView>, id: Seq<char>)
    ensures
        has_peer(peers, id) <==> exists|k: int|
            0 <= k < peers.len() && peers[k].client_id == id,
    decreases peers.len(),
{
    if peers.len() > 0 {
        lemma_has_peer_means_index(peers.drop_first(), id);
        if peers[0].client_id == id {
        } else if has_peer(peers.drop_first(), id) {
            let k = choose|k: int|
                0 <= k < peers.drop_first().len() && peers.drop_first()[k].client_id == id;
            assert(peers[k + 1].client_id == id);
        } else {
            assert forall|k: int|
                0 <= k < peers.len() implies peers[k].client_id != id by {
                if k > 0 {
                    assert(peers.drop_first()[k - 1] == peers[k]);
                }
            }
        }
    }
}

/// Balance of a `Join`/`Welcome`/`Ping`: `peer-joined` is announced for `p`
/// exactly when `p` enters the table.
proof fn lemma_hello_balance(
    st: CycleView,
    remote: Seq<char>,
    local: Seq<char>,
    room: Seq<char>,
    now: int,
    reply_welcome: bool,
    elect: bool,
    p: Seq<char>,
)
    requires
        peers_distinct(st.peers),
    ensures
        ({
            let (st2, acts) = step_hello(st, remote, local, room, now, reply_welcome, elect);
            &&& peers_distinct(st2.peers)
            &&& count_joined(acts, p) - count_left(acts, p) == peer_bit(st2.peers, p) - peer_bit(
                st.peers,
                p,
            )
        }),
{
    let (st2, acts) = step_hello(st, remote, local, room, now, reply_welcome, elect);
    if remote == local {
        assert(count_joined(acts, p) == 0);
        assert(count_left(acts, p) == 0);
    } else {
        lemma_set_ping_membership(st.peers, remote, now, p);
        let newly = !has_peer(st.peers, remote);
        let offers = elect && !st.did_offer && lex_gt(local, remote);
        let join_acts: Seq<ActionView> = if newly {
            seq![ActionView::EmitPeerJoined { client_id: remote }]
        } else {
            Seq::empty()
        };
        let welcome_acts: Seq<ActionView> = if reply_welcome {
            seq![
                ActionView::Send {
                    message: MessageView::Welcome { room_id: room, client_id: local },
                },
            ]
        } else {
            Seq::empty()
        };
        let offer_acts: Seq<ActionView> = if offers {
            seq![ActionView::CreateAndSendOffer]
        } else {
            Seq::empty()
        };
        lemma_counts_append(join_acts, welcome_acts, p);
        lemma_counts_append(join_acts + welcome_acts, offer_acts, p);
        if newly {
            lemma_counts_singleton(ActionView::EmitPeerJoined { client_id: remote }, p);
        }
        if reply_welcome {
            lemma_counts_singleton(
                ActionView::Send {
                    message: MessageView::Welcome { room_id: room, client_id: local },
                },
                p,
            );
        }
        if offers {
            lemma_counts_singleton(ActionView::CreateAndSendOffer, p);
        }
        assert(count_joined(Seq::<ActionView>::empty(), p) == 0);
        assert(count_left(Seq::<ActionView>::empty(), p) == 0);
        if p == remote {
            lemma_set_ping_membership(st.peers, remote, now, remote);
        }
    }
}

/// Balance of a `Leave`: `peer-left` is announced for `p` exactly when `p`
/// leaves the table.
proof fn lemma_leave_balance(
    st: CycleView,
    remote: Seq<char>,
    local: Seq<char>,
    p: Seq<char>,
)
    requires
        peers_distinct(st.peers),
    ensures
        ({
            let (st2, acts) = step_leave(st, remote, local);
            &&& peers_distinct(st2.peers)
            &&& count_joined(acts, p) - count_left(acts, p) == peer_bit(st2.peers, p) - peer_bit(
                st.peers,
                p,
            )
        }),
{
    let (st2, acts) = step_leave(st, remote, local);
    if remote == local {
        assert(count_joined(acts, p) == 0);
        assert(count_left(acts, p) == 0);
    } else {
        lemma_remove_peer_membership(st.peers, remote, p);
        let present = has_peer(st.peers, remote);
        if present {
            lemma_counts_singleton(ActionView::EmitPeerLeft { client_id: remote }, p);
        } else {
            lemma_remove_peer_membership(st.peers, remote, remote);
            assert(count_joined(acts, p) == 0);
            assert(count_left(acts, p) == 0);
        }
        if p == remote {
            lemma_remove_peer_membership(st.peers, remote, remote);
        }
    }
}

/// Balance of one step: the table gains `p` exactly when `peer-joined` is
/// announced for `p` and loses it exactly when `peer-left` is.
pub proof fn lemma_step_balance(
    st: CycleView,
    ev: EventView,
    local: Seq<char>,
    room: Seq<char>,
    now: int,
    p: Seq<char>,
)
    requires
        peers_distinct(st.peers),
    ensures
        ({
            let (st2, acts) = step(st, ev, local, room, now);
            &&& peers_distinct(st2.peers)
            &&& count_joined(acts, p) - count_left(acts, p) == peer_bit(st2.peers, p) - peer_bit(
                st.peers,
                p,
            )
        }),
{
    let (st2, acts) = step(st, ev, local, room, now);
    match ev {
        EventView::Message { message } => match message {
            MessageView::Join { room_id: _, client_id } => {
                lemma_hello_balance(st, client_id, local, room, now, true, true, p);
            },
            MessageView::Welcome { room_id: _, client_id } => {
                lemma_hello_balance(st, client_id, local, room, now, false, true, p);
            },
            MessageView::Ping { room_id: _, client_id } => {
                lemma_hello_balance(st, client_id, local, room, now, false, false, p);
            },
            MessageView::Leave { room_id: _, client_id } => {
                lemma_leave_balance(st, client_id, local, p);
            },
            MessageView::Offer { sdp, room_id: _ } => {
                lemma_remote_description_counts(st, sdp, true, p);
            },
            MessageView::Answer { sdp, room_id: _ } => {
                lemma_remote_description_counts(st, sdp, false, p);
            },
            MessageView::IceCandidate { candidate, room_id: _ } => {
                if st.remote_description_set {
                    lemma_counts_singleton(ActionView::ApplyCandidate { candidate }, p);
                } else {
                    assert(count_joined(acts, p) == 0);
                    assert(count_left(acts, p) == 0);
                }
            },
            MessageView::VoiceActivity { is_speaking, client_id, room_id: _ } => {
                lemma_counts_singleton(
                    ActionView::EmitRemoteVoiceActivity { client_id, is_speaking },
                    p,
                );
            },
        },
        EventView::LocalCandidate { candidate } => {
            lemma_counts_singleton(
                ActionView::Send {
                    message: MessageView::IceCandidate { candidate, room_id: room },
                },
                p,
            );
        },
        EventView::LocalVoiceActivity { is_speaking } => {
            lemma_counts_singleton(
                ActionView::Send {
                    message: MessageView::VoiceActivity {
                        is_speaking,
                        client_id: local,
                        room_id: room,
                    },
                },
                p,
            );
        },
        EventView::HeartbeatTick => {
            lemma_counts_singleton(
                ActionView::Send {
                    message: MessageView::Ping { room_id: room, client_id: local },
                },
                p,
            );
        },
        EventView::TimeoutTick => {
            lemma_timeout_counts(st.peers, now, p);
            assert(step_timeout(st, now).1 =~= timeout_leaves(st.peers, now));
        },
        EventView::SocketClosed => {
            assert(count_joined(acts, p) == 0);
            assert(count_left(acts, p) == 0);
        },
    }
}

/// Counts of an `Offer`/`Answer` step: descriptions and candidate drains
/// announce nothing and leave the table alone.
proof fn lemma_remote_description_counts(st: CycleView, sdp: Seq<char>, is_offer: bool, p: Seq<char>)
    ensures
        ({
            let (st2, acts) = step_remote_description(st, sdp, is_offer);
            &&& st2.peers == st.peers
            &&& count_joined(acts, p) == 0
            &&& count_left(acts, p) == 0
        }),
{
    let (st2, acts) = step_remote_description(st, sdp, is_offer);
    let set_act: Seq<ActionView> = if is_offer {
        seq![ActionView::SetRemoteOffer { sdp }]
    } else {
        seq![ActionView::SetRemoteAnswer { sdp }]
    };
    let drain = st.pending_candidates.map_values(
        |c: Seq<char>| ActionView::ApplyCandidate { candidate: c },
    );
    let answer_acts: Seq<ActionView> = if is_offer {
        seq![ActionView::CreateAndSendAnswer]
    } else {
        Seq::empty()
    };
    assert forall|i: int|
        0 <= i < drain.len() implies #[trigger] drain[i] matches ActionView::ApplyCandidate {
        ..
    } by {
        assert(drain[i] == ActionView::ApplyCandidate { candidate: st.pending_candidates[i] });
    }
    lemma_counts_of_apply_only(drain, p);
    lemma_counts_append(set_act, drain, p);
    lemma_counts_append(set_act + drain, answer_acts, p);
    if is_offer {
        lemma_counts_singleton(ActionView::SetRemoteOffer { sdp }, p);
        lemma_counts_singleton(ActionView::CreateAndSendAnswer, p);
    } else {
        lemma_counts_singleton(ActionView::SetRemoteAnswer { sdp }, p);
        assert(count_joined(Seq::<ActionView>::empty(), p) == 0);
        assert(count_left(Seq::<ActionView>::empty(), p) == 0);
    }
}

/// Balance over a whole run.
pub proof fn lemma_run_balance(
    st: CycleView,
    evs: Seq<(EventView, int)>,
    local: Seq<char>,
    room: Seq<char>,
    p: Seq<char>,
)
    requires
        peers_distinct(st.peers),
    ensures
        ({
            let (st2, tr) = run(st, evs, local, room);
            &&& peers_distinct(st2.peers)
            &&& count_joined(tr, p) - count_left(tr, p) == peer_bit(st2.peers, p) - peer_bit(
                st.peers,
                p,
            )
        }),
    decreases evs.len(),
{
    if evs.len() == 0 {
        assert(count_joined(Seq::<ActionView>::empty(), p) == 0);
        assert(count_left(Seq::<ActionView>::empty(), p) == 0);
    } else {
        let first = step(st, evs[0].0, local, room, evs[0].1);
        lemma_step_balance(st, evs[0].0, local, room, evs[0].1, p);
        lemma_run_balance(first.0, evs.drop_first(), local, room, p);
        let rest = run(first.0, evs.drop_first(), local, room);
        lemma_counts_append(first.1, rest.1, p);
    }
}

/// The `peer-left` announcements of ending a cycle balance the table.
proof fn lemma_end_balance(peers: Seq<PeerView>, p: Seq<char>)
    requires
        peers_distinct(peers),
    ensures
        ({
            let tr = peers.map_values(
                |pv: PeerView| ActionView::EmitPeerLeft { client_id: pv.client_id },
            );
            &&& count_left(tr, p) == peer_bit(peers, p)
            &&& count_joined(tr, p) == 0
        }),
    decreases peers.len(),
{
    let tr = peers.map_values(
        |pv: PeerView| ActionView::EmitPeerLeft { client_id: pv.client_id },
    );
    if peers.len() == 0 {
        assert(count_left(tr, p) == 0);
        assert(count_joined(tr, p) == 0);
        assert(!has_peer(peers, p));
    } else {
        let t = peers.drop_first();
        assert forall|i: int, j: int|
            0 <= i < j < t.len() implies t[i].client_id != t[j].client_id by {
            assert(t[i] == peers[i + 1]);
            assert(t[j] == peers[j + 1]);
        }
        lemma_end_balance(t, p);
        let tr_t = t.map_values(
            |pv: PeerView| ActionView::EmitPeerLeft { client_id: pv.client_id },
        );
        assert(tr =~= seq![ActionView::EmitPeerLeft { client_id: peers[0].client_id }] + tr_t);
        lemma_counts_append(
            seq![ActionView::EmitPeerLeft { client_id: peers[0].client_id }],
            tr_t,
            p,
        );
        lemma_counts_singleton(
            ActionView::EmitPeerLeft { client_id: peers[0].client_id },
            p,
        );
        if peers[0].client_id == p {
            lemma_has_peer_means_index(t, p);
            if has_peer(t, p) {
                let w = choose|w: int| 0 <= w < t.len() && t[w].client_id == p;
                assert(t[w] == peers[w + 1]);
                assert(false);
            }
        }
    }
}

/// For every `peer-joined` announced for an id, exactly one `peer-left` is
/// announced for it by the time the cycle ends: over any event sequence, the
/// run's trace followed by the end-of-cycle announcements balances exactly.
pub proof fn theorem_peer_joined_matched_by_peer_left(
    evs: Seq<(EventView, int)>,
    local: Seq<char>,
    room: Seq<char>,
    p: Seq<char>,
)
    ensures
        ({
            let (st_end, tr) = run(init_cycle_view(), evs, local, room);
            let trace = tr + end_cycle_spec(st_end).1;
            count_joined(trace, p) == count_left(trace, p)
        }),
{
    let st0 = init_cycle_view();
    assert(peers_distinct(st0.peers));
    lemma_run_balance(st0, evs, local, room, p);
    let (st_end, tr) = run(st0, evs, local, room);
    let endtr = end_cycle_spec(st_end).1;
    lemma_end_balance(st_end.peers, p);
    assert(endtr =~= st_end.peers.map_values(
        |pv: PeerView| ActionView::EmitPeerLeft { client_id: pv.client_id },
    ));
    lemma_counts_append(tr, endtr, p);
    assert(!has_peer(st0.peers, p));
}

/// Is this an `ApplyCandidate` action?
pub open spec fn is_apply(a: ActionView) -> bool {
    a matches ActionView::ApplyCandidate { .. }
}

/// Does this action set the remote description?
pub open spec fn is_set_remote(a: ActionView) -> bool {
    ||| a matches ActionView::SetRemoteOffer { .. }
    ||| a matches ActionView::SetRemoteAnswer { .. }
}

/// Every candidate application in the trace comes after some remote
/// description was set.
pub open spec fn candidates_follow_remote(tr: Seq<ActionView>) -> bool {
    forall|i: int|
        0 <= i < tr.len() && is_apply(#[trigger] tr[i]) ==> exists|j: int|
            0 <= j < i && is_set_remote(#[trigger] tr[j])
}

/// The controller flag is witnessed by the trace.
pub open spec fn ice_invariant(st: CycleView, tr: Seq<ActionView>) -> bool {
    &&& candidates_follow_remote(tr)
    &&& (st.remote_description_set ==> exists|j: int|
        0 <= j < tr.len() && is_set_remote(#[trigger] tr[j]))
}

/// One step preserves the candidate-ordering invariant.
pub proof fn lemma_step_ice_safety(
    st: CycleView,
    ev: EventView,
    local: Seq<char>,
    room: Seq<char>,
    now: int,
    tr: Seq<ActionView>,
)
    requires
        ice_invariant(st, tr),
    ensures
        ({
            let (st2, acts) = step(st, ev, local, room, now);
            ice_invariant(st2, tr + acts)
        }),
{
    let (st2, acts) = step(st, ev, local, room, now);
    let tr2 = tr + acts;
    assert forall|i: int| 0 <= i < tr.len() implies tr2[i] == tr[i] by {}
    let applies_only_after = |from: int|
        forall|i: int|
            from <= i < tr2.len() && is_apply(#[trigger] tr2[i]) ==> exists|j: int|
                0 <= j < i && is_set_remote(#[trigger] tr2[j]);
    match ev {
        EventView::Message { message } => match message {
            MessageView::Offer { sdp, room_id: _ } => {
                assert(is_set_remote(tr2[tr.len() as int]));
                assert forall|i: int|
                    0 <= i < tr2.len() && is_apply(#[trigger] tr2[i]) implies exists|j: int|
                    0 <= j < i && is_set_remote(#[trigger] tr2[j]) by {
                    if i < tr.len() {
                        let j = choose|j: int| 0 <= j < i && is_set_remote(tr[j]);
                        assert(is_set_remote(tr2[j]));
                    } else {
                        assert(i > tr.len());
                        assert(is_set_remote(tr2[tr.len() as int]));
                    }
                }
                assert(ice_invariant(st2, tr2));
            },
            MessageView::Answer { sdp, room_id: _ } => {
                assert(is_set_remote(tr2[tr.len() as int]));
                assert forall|i: int|
                    0 <= i < tr2.len() && is_apply(#[trigger] tr2[i]) implies exists|j: int|
                    0 <= j < i && is_set_remote(#[trigger] tr2[j]) by {
                    if i < tr.len() {
                        let j = choose|j: int| 0 <= j < i && is_set_remote(tr[j]);
                        assert(is_set_remote(tr2[j]));
                    } else {
                        assert(i > tr.len());
                        assert(is_set_remote(tr2[tr.len() as int]));
                    }
                }
                assert(ice_invariant(st2, tr2));
            },
            MessageView::IceCandidate { candidate, room_id: _ } => {
                if st.remote_description_set {
                    let w = choose|j: int| 0 <= j < tr.len() && is_set_remote(tr[j]);
                    assert(is_set_remote(tr2[w]));
                    assert forall|i: int|
                        0 <= i < tr2.len() && is_apply(#[trigger] tr2[i]) implies exists|j: int|
                        0 <= j < i && is_set_remote(#[trigger] tr2[j]) by {
                        if i < tr.len() {
                            let j = choose|j: int| 0 <= j < i && is_set_remote(tr[j]);
                            assert(is_set_remote(tr2[j]));
                        } else {
                            assert(is_set_remote(tr2[w]));
                        }
                    }
                    assert(ice_invariant(st2, tr2));
                } else {
                    assert(acts =~= Seq::<ActionView>::empty());
                    assert(tr2 =~= tr);
                }
            },
            _ => {
                lemma_step_no_apply_no_remote(st, ev, local, room, now);
                lemma_ice_extend_harmless(st, st2, tr, acts);
            },
        },
        _ => {
            lemma_step_no_apply_no_remote(st, ev, local, room, now);
            lemma_ice_extend_harmless(st, st2, tr, acts);
        },
    }
}

/// Extending a trace by actions that neither apply candidates nor set the
/// remote description keeps the invariant, provided the flag did not rise.
proof fn lemma_ice_extend_harmless(
    st: CycleView,
    st2: CycleView,
    tr: Seq<ActionView>,
    acts: Seq<ActionView>,
)
    requires
        ice_invariant(st, tr),
        st2.remote_description_set == st.remote_description_set,
        forall|i: int| 0 <= i < acts.len() ==> !is_apply(#[trigger] acts[i]),
    ensures
        ice_invariant(st2, tr + acts),
{
    let tr2 = tr + acts;
    assert forall|i: int|
        0 <= i < tr2.len() && is_apply(#[trigger] tr2[i]) implies exists|j: int|
        0 <= j < i && is_set_remote(#[trigger] tr2[j]) by {
        if i < tr.len() {
            assert(tr2[i] == tr[i]);
            let j = choose|j: int| 0 <= j < i && is_set_remote(tr[j]);
            assert(is_set_remote(tr2[j]));
        } else {
            assert(tr2[i] == acts[i - tr.len()]);
        }
    }
    if st2.remote_description_set {
        let w = choose|j: int| 0 <= j < tr.len() && is_set_remote(tr[j]);
        assert(is_set_remote(tr2[w]));
    }
}

/// Steps other than `Offer`, `Answer` and a deliverable `IceCandidate`
/// neither apply candidates nor change the remote-description flag.
proof fn lemma_step_no_apply_no_remote(
    st: CycleView,
    ev: EventView,
    local: Seq<char>,
    room: Seq<char>,
    now: int,
)
    requires
        !(ev matches EventView::Message { message: MessageView::Offer { .. } }),
        !(ev matches EventView::Message { message: MessageView::Answer { .. } }),
        !(ev matches EventView::Message { message: MessageView::IceCandidate { .. } }),
    ensures
        ({
            let (st2, acts) = step(st, ev, local, room, now);
            &&& st2.remote_description_set == st.remote_description_set
            &&& forall|i: int| 0 <= i < acts.len() ==> !is_apply(#[trigger] acts[i])
        }),
{
    let (st2, acts) = step(st, ev, local, room, now);
    match ev {
        EventView::Message { message } => match message {
            MessageView::Join { room_id: _, client_id } => {
                lemma_hello_no_apply(st, client_id, local, room, now, true, true);
            },
            MessageView::Welcome { room_id: _, client_id } => {
                lemma_hello_no_apply(st, client_id, local, room, now, false, true);
            },
            MessageView::Ping { room_id: _, client_id } => {
                lemma_hello_no_apply(st, client_id, local, room, now, false, false);
            },
            MessageView::Leave { room_id: _, client_id } => {
                assert forall|i: int|
                    0 <= i < acts.len() implies !is_apply(#[trigger] acts[i]) by {
                    assert(acts[i] == ActionView::EmitPeerLeft { client_id });
                }
            },
            MessageView::VoiceActivity { is_speaking, client_id, room_id: _ } => {
                assert forall|i: int|
                    0 <= i < acts.len() implies !is_apply(#[trigger] acts[i]) by {}
            },
            _ => {},
        },
        EventView::TimeoutTick => {
            assert forall|i: int|
                0 <= i < acts.len() implies !is_apply(#[trigger] acts[i]) by {
                assert(acts[i] == ActionView::EmitPeerLeft {
                    client_id: expired_ids(st.peers, now)[i],
                });
            }
        },
        _ => {
            assert forall|i: int|
                0 <= i < acts.len() implies !is_apply(#[trigger] acts[i]) by {}
        },
    }
}

/// Hello steps announce, greet and possibly offer, but never touch ICE.
proof fn lemma_hello_no_apply(
    st: CycleView,
    remote: Seq<char>,
    local: Seq<char>,
    room: Seq<char>,
    now: int,
    reply_welcome: bool,
    elect: bool,
)
    ensures
        ({
            let (st2, acts) = step_hello(st, remote, local, room, now, reply_welcome, elect);
            &&& st2.remote_description_set == st.remote_description_set
            &&& forall|i: int| 0 <= i < acts.len() ==> !is_apply(#[trigger] acts[i])
        }),
{
    let (st2, acts) = step_hello(st, remote, local, room, now, reply_welcome, elect);
    assert forall|i: int| 0 <= i < acts.len() implies !is_apply(#[trigger] acts[i]) by {}
}

/// A run never applies an ICE candidate before a remote description was set
/// earlier in the same cycle.
pub proof fn theorem_candidate_only_after_description(
    evs: Seq<(EventView, int)>,
    local: Seq<char>,
    room: Seq<char>,
)
    ensures
        candidates_follow_remote(run(init_cycle_view(), evs, local, room).1),
{
    lemma_run_ice_safety(init_cycle_view(), evs, local, room, Seq::empty());
    let (st2, tr) = run(init_cycle_view(), evs, local, room);
    assert(Seq::<ActionView>::empty() + tr =~= tr);
}

/// The invariant carries through a whole run.
proof fn lemma_run_ice_safety(
    st: CycleView,
    evs: Seq<(EventView, int)>,
    local: Seq<char>,
    room: Seq<char>,
    tr: Seq<ActionView>,
)
    requires
        ice_invariant(st, tr),
    ensures
        ice_invariant(run(st, evs, local, room).0, tr + run(st, evs, local, room).1),
    decreases evs.len(),
{
    if evs.len() == 0 {
        assert(tr + Seq::<ActionView>::empty() =~= tr);
    } else {
        let first = step(st, evs[0].0, local, room, evs[0].1);
        lemma_step_ice_safety(st, evs[0].0, local, room, evs[0].1, tr);
        lemma_run_ice_safety(first.0, evs.drop_first(), local, room, tr + first.1);
        let rest = run(first.0, evs.drop_first(), local, room);
        assert((tr + first.1) + rest.1 =~= tr + (first.1 + rest.1));
    }
}

/// One step starts an offer exactly on a `Join` or `Welcome` from a peer
/// with a smaller id while no offer was made yet in this cycle; the
/// `did_offer` flag rises exactly then and never falls.
pub proof fn lemma_step_offers(
    st: CycleView,
    ev: EventView,
    local: Seq<char>,
    room: Seq<char>,
    now: int,
)
    ensures
        ({
            let (st2, acts) = step(st, ev, local, room, now);
            &&& count_offers(acts) == flag_bit(st2.did_offer) - flag_bit(st.did_offer)
            &&& (st.did_offer ==> st2.did_offer)
            &&& (count_offers(acts) == 1 <==> (match ev {
                EventView::Message { message } => match message {
                    MessageView::Join { room_id: _, client_id } => client_id != local
                        && !st.did_offer && lex_gt(local, client_id),
                    MessageView::Welcome { room_id: _, client_id } => client_id != local
                        && !st.did_offer && lex_gt(local, client_id),
                    _ => false,
                },
                _ => false,
            }))
        }),
{
    let (st2, acts) = step(st, ev, local, room, now);
    let p = Seq::<char>::empty();
    match ev {
        EventView::Message { message } => match message {
            MessageView::Join { room_id: _, client_id } => {
                lemma_hello_offers(st, client_id, local, room, now, true, true);
            },
            MessageView::Welcome { room_id: _, client_id } => {
                lemma_hello_offers(st, client_id, local, room, now, false, true);
            },
            MessageView::Ping { room_id: _, client_id } => {
                lemma_hello_offers(st, client_id, local, room, now, false, false);
            },
            MessageView::Leave { room_id: _, client_id } => {
                if client_id != local && has_peer(st.peers, client_id) {
                    lemma_counts_singleton(
                        ActionView::EmitPeerLeft { client_id },
                        p,
                    );
                } else {
                    assert(count_offers(acts) == 0);
                }
            },
            MessageView::Offer { sdp, room_id: _ } => {
                lemma_remote_description_offers(st, sdp, true);
            },
            MessageView::Answer { sdp, room_id: _ } => {
                lemma_remote_description_offers(st, sdp, false);
            },
            MessageView::IceCandidate { candidate, room_id: _ } => {
                if st.remote_description_set {
                    lemma_counts_singleton(ActionView::ApplyCandidate { candidate }, p);
                } else {
                    assert(count_offers(acts) == 0);
                }
            },
            MessageView::VoiceActivity { is_speaking, client_id, room_id: _ } => {
                lemma_counts_singleton(
                    ActionView::EmitRemoteVoiceActivity { client_id, is_speaking },
                    p,
                );
            },
        },
        EventView::LocalCandidate { candidate } => {
            lemma_counts_singleton(
                ActionView::Send {
                    message: MessageView::IceCandidate { candidate, room_id: room },
                },
                p,
            );
        },
        EventView::LocalVoiceActivity { is_speaking } => {
            lemma_counts_singleton(
                ActionView::Send {
                    message: MessageView::VoiceActivity {
                        is_speaking,
                        client_id: local,
                        room_id: room,
                    },
                },
                p,
            );
        },
        EventView::HeartbeatTick => {
            lemma_counts_singleton(
                ActionView::Send {
                    message: MessageView::Ping { room_id: room, client_id: local },
                },
                p,
            );
        },
        EventView::TimeoutTick => {
            let tl = step_timeout(st, now).1;
            assert forall|i: int|
                0 <= i < tl.len() implies #[trigger] tl[i] matches ActionView::EmitPeerLeft {
                ..
            } by {
                assert(tl[i] == ActionView::EmitPeerLeft {
                    client_id: expired_ids(st.peers, now)[i],
                });
            }
            lemma_counts_of_left_only(tl, p);
        },
        EventView::SocketClosed => {
            assert(count_offers(acts) == 0);
        },
    }
}

/// Offer accounting of a hello step.
proof fn lemma_hello_offers(
    st: CycleView,
    remote: Seq<char>,
    local: Seq<char>,
    room: Seq<char>,
    now: int,
    reply_welcome: bool,
    elect: bool,
)
    ensures
        ({
            let (st2, acts) = step_hello(st, remote, local, room, now, reply_welcome, elect);
            &&& count_offers(acts) == flag_bit(st2.did_offer) - flag_bit(st.did_offer)
            &&& (st.did_offer ==> st2.did_offer)
            &&& (count_offers(acts) == 1 <==> (remote != local && elect && !st.did_offer
                && lex_gt(local, remote)))
        }),
{
    let (st2, acts) = step_hello(st, remote, local, room, now, reply_welcome, elect);
    let p = Seq::<char>::empty();
    if remote == local {
        assert(count_offers(acts) == 0);
    } else {
        let newly = !has_peer(st.peers, remote);
        let offers = elect && !st.did_offer && lex_gt(local, remote);
        let join_acts: Seq<ActionView> = if newly {
            seq![ActionView::EmitPeerJoined { client_id: remote }]
        } else {
            Seq::empty()
        };
        let welcome_acts: Seq<ActionView> = if reply_welcome {
            seq![
                ActionView::Send {
                    message: MessageView::Welcome { room_id: room, client_id: local },
                },
            ]
        } else {
            Seq::empty()
        };
        let offer_acts: Seq<ActionView> = if offers {
            seq![ActionView::CreateAndSendOffer]
        } else {
            Seq::empty()
        };
        lemma_counts_append(join_acts, welcome_acts, p);
        lemma_counts_append(join_acts + welcome_acts, offer_acts, p);
        if newly {
            lemma_counts_singleton(ActionView::EmitPeerJoined { client_id: remote }, p);
        }
        if reply_welcome {
            lemma_counts_singleton(
                ActionView::Send {
                    message: MessageView::Welcome { room_id: room, client_id: local },
                },
                p,
            );
        }
        if offers {
            lemma_counts_singleton(ActionView::CreateAndSendOffer, p);
        }
        assert(count_offers(Seq::<ActionView>::empty()) == 0);
    }
}

/// Offer accounting of a description step.
proof fn lemma_remote_description_offers(st: CycleView, sdp: Seq<char>, is_offer: bool)
    ensures
        ({
            let (st2, acts) = step_remote_description(st, sdp, is_offer);
            &&& count_offers(acts) == 0
            &&& st2.did_offer == st.did_offer
        }),
{
    lemma_remote_description_counts(st, sdp, is_offer, Seq::<char>::empty());
    let (st2, acts) = step_remote_description(st, sdp, is_offer);
    let set_act: Seq<ActionView> = if is_offer {
        seq![ActionView::SetRemoteOffer { sdp }]
    } else {
        seq![ActionView::SetRemoteAnswer { sdp }]
    };
    let drain = st.pending_candidates.map_values(
        |c: Seq<char>| ActionView::ApplyCandidate { candidate: c },
    );
    let answer_acts: Seq<ActionView> = if is_offer {
        seq![ActionView::CreateAndSendAnswer]
    } else {
        Seq::empty()
    };
    assert forall|i: int|
        0 <= i < drain.len() implies #[trigger] drain[i] matches ActionView::ApplyCandidate {
        ..
    } by {
        assert(drain[i] == ActionView::ApplyCandidate { candidate: st.pending_candidates[i] });
    }
    lemma_counts_of_apply_only(drain, Seq::<char>::empty());
    lemma_counts_append(set_act, drain, Seq::<char>::empty());
    lemma_counts_append(set_act + drain, answer_acts, Seq::<char>::empty());
    if is_offer {
        lemma_counts_singleton(ActionView::SetRemoteOffer { sdp }, Seq::<char>::empty());
        lemma_counts_singleton(ActionView::CreateAndSendAnswer, Seq::<char>::empty());
    } else {
        lemma_counts_singleton(ActionView::SetRemoteAnswer { sdp }, Seq::<char>::empty());
        assert(count_offers(Seq::<ActionView>::empty()) == 0);
    }
}

/// A cycle sends at most one offer, however the events arrive.
pub proof fn theorem_at_most_one_offer(
    evs: Seq<(EventView, int)>,
    local: Seq<char>,
    room: Seq<char>,
)
    ensures
        count_offers(run(init_cycle_view(), evs, local, room).1) <= 1,
{
    lemma_run_offers(init_cycle_view(), evs, local, room);
}

/// Offer accounting over a run: the trace holds exactly as many offers as
/// the `did_offer` flag rose.
proof fn lemma_run_offers(
    st: CycleView,
    evs: Seq<(EventView, int)>,
    local: Seq<char>,
    room: Seq<char>,
)
    ensures
        ({
            let (st2, tr) = run(st, evs, local, room);
            &&& count_offers(tr) == flag_bit(st2.did_offer) - flag_bit(st.did_offer)
            &&& (st.did_offer ==> st2.did_offer)
        }),
    decreases evs.len(),
{
    if evs.len() == 0 {
        assert(count_offers(Seq::<ActionView>::empty()) == 0);
    } else {
        let first = step(st, evs[0].0, local, room, evs[0].1);
        lemma_step_offers(st, evs[0].0, local, room, evs[0].1);
        lemma_run_offers(first.0, evs.drop_first(), local, room);
        let rest = run(first.0, evs.drop_first(), local, room);
        lemma_counts_append(first.1, rest.1, Seq::<char>::empty());
    }
}

/// Role election is deterministic and total: of two distinct ids, exactly
/// one side elects itself the offerer, whichever order messages arrive in.
pub proof fn theorem_role_election_total(a: Seq<char>, b: Seq<char>)
    requires
        a != b,
    ensures
        lex_gt(a, b) <==> !lex_gt(b, a),
{
    lemma_lex_trichotomy(a, b);
    lemma_lex_trichotomy(b, a);
}

/// A `Leave` carrying this side's own id is ignored outright: no state
/// change, no actions, no reset.
pub proof fn theorem_self_leave_ignored(
    st: CycleView,
    echoed_room: Seq<char>,
    local: Seq<char>,
    room: Seq<char>,
    now: int,
)
    ensures
        step(
            st,
            EventView::Message {
                message: MessageView::Leave { room_id: echoed_room, client_id: local },
            },
            local,
            room,
            now,
        ).0 == st,
        step(
            st,
            EventView::Message {
                message: MessageView::Leave { room_id: echoed_room, client_id: local },
            },
            local,
            room,
            now,
        ).1 == Seq::<ActionView>::empty(),
{
}

/// Applying the same ICE candidate again once the remote description is set
/// leaves the controller state exactly as it was, both times.
pub proof fn theorem_candidate_reapplication_safe(
    st: CycleView,
    candidate: Seq<char>,
    local: Seq<char>,
    room: Seq<char>,
    now: int,
)
    requires
        st.remote_description_set,
    ensures
        ({
            let once = step(
                st,
                EventView::Message {
                    message: MessageView::IceCandidate { candidate, room_id: room },
                },
                local,
                room,
                now,
            );
            let twice = step(
                once.0,
                EventView::Message {
                    message: MessageView::IceCandidate { candidate, room_id: room },
                },
                local,
                room,
                now,
            );
            &&& once.0 == st
            &&& twice.0 == st
            &&& once.1 == seq![ActionView::ApplyCandidate { candidate }]
            &&& twice.1 == once.1
        }),
{
}

/// The timeout boundary: the scan announces `peer-left` for a tracked peer
/// exactly when strictly more than 6000 ms have passed since its last
/// `Ping`; a gap of exactly 6000 ms is tolerated.
pub proof fn theorem_timeout_boundary(
    st: CycleView,
    local: Seq<char>,
    room: Seq<char>,
    now: int,
    p: Seq<char>,
)
    requires
        peers_distinct(st.peers),
    ensures
        count_left(step(st, EventView::TimeoutTick, local, room, now).1, p) == (if has_peer(
            st.peers,
            p,
        ) && now - last_ping_of(st.peers, p) > 6000 {
            1int
        } else {
            0int
        }),
{
    lemma_timeout_counts(st.peers, now, p);
    assert(step_timeout(st, now).1 =~= timeout_leaves(st.peers, now));
}

} // verus!
