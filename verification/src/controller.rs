//! The per-cycle signaling controller: a state machine from signaling events
//! to the actions the surrounding session loop must carry out.
//!
//! One cycle spans the life of one peer connection.  The controller owns the
//! negotiation flags (whether the remote description is set, whether this
//! side has already offered), the buffer of early ICE candidates, the peer
//! table with heartbeat times, and the reset flag that ends the cycle.  The
//! loop around it performs the I/O: it reads one event (a signaling message,
//! a local candidate, a tick), hands it in together with the current time in
//! milliseconds, and then executes the returned actions in order.

use vstd::prelude::*;
use crate::text::lex_gt;
use crate::text::str_lex_gt;
use crate::wire::MessageView;
use crate::wire::SignalingMessage;

verus! {

/// A peer is dropped after this long without a `Ping` (strictly more).
pub const PEER_TIMEOUT_MS: u64 = 6000;

/// One tracked peer: its id and the time its last `Ping` arrived.
pub struct PeerRecord {
    pub client_id: String,
    pub last_ping_ms: u64,
}

/// Mathematical value of a peer record.
#[verifier::ext_equal]
pub struct PeerView {
    pub client_id: Seq<char>,
    pub last_ping_ms: int,
}

impl View for PeerRecord {
    type V = PeerView;

    open spec fn view(&self) -> PeerView {
        PeerView { client_id: self.client_id@, last_ping_ms: self.last_ping_ms as int }
    }
}

/// The controller state for one signaling cycle.
pub struct CycleState {
    pub remote_description_set: bool,
    pub pending_candidates: Vec<String>,
    pub did_offer: bool,
    pub reset_pending: bool,
    pub peers: Vec<PeerRecord>,
}

/// Mathematical value of the controller state.
#[verifier::ext_equal]
pub struct CycleView {
    pub remote_description_set: bool,
    pub pending_candidates: Seq<Seq<char>>,
    pub did_offer: bool,
    pub reset_pending: bool,
    pub peers: Seq<PeerView>,
}

/// View of a peer vector.
pub open spec fn peers_view(v: Seq<PeerRecord>) -> Seq<PeerView> {
    v.map_values(|p: PeerRecord| p@)
}

impl View for CycleState {
    type V = CycleView;

    open spec fn view(&self) -> CycleView {
        CycleView {
            remote_description_set: self.remote_description_set,
            pending_candidates: self.pending_candidates@.map_values(|c: String| c@),
            did_offer: self.did_offer,
            reset_pending: self.reset_pending,
            peers: peers_view(self.peers@),
        }
    }
}

/// One event fed into the controller.
pub enum SessionEvent {
    /// A signaling message arrived from the server.
    Message { message: SignalingMessage },
    /// The peer connection produced a local ICE candidate.
    LocalCandidate { candidate: String },
    /// The local voice-activity detector changed state.
    LocalVoiceActivity { is_speaking: bool },
    /// The 2 s heartbeat timer fired.
    HeartbeatTick,
    /// The 1 s peer-timeout timer fired.
    TimeoutTick,
    /// The signaling socket closed or failed.
    SocketClosed,
}

/// Mathematical value of an event.
#[verifier::ext_equal]
pub enum EventView {
    Message { message: MessageView },
    LocalCandidate { candidate: Seq<char> },
    LocalVoiceActivity { is_speaking: bool },
    HeartbeatTick,
    TimeoutTick,
    SocketClosed,
}

impl View for SessionEvent {
    type V = EventView;

    open spec fn view(&self) -> EventView {
        match self {
            SessionEvent::Message { message } => EventView::Message { message: message@ },
            SessionEvent::LocalCandidate { candidate } => EventView::LocalCandidate {
                candidate: candidate@,
            },
            SessionEvent::LocalVoiceActivity { is_speaking } => EventView::LocalVoiceActivity {
                is_speaking: *is_speaking,
            },
            SessionEvent::HeartbeatTick => EventView::HeartbeatTick,
            SessionEvent::TimeoutTick => EventView::TimeoutTick,
            SessionEvent::SocketClosed => EventView::SocketClosed,
        }
    }
}

/// One action the session loop must carry out.
pub enum SessionAction {
    /// Encode the message and send it over the signaling socket.
    Send { message: SignalingMessage },
    /// Tell the frontend that a peer appeared.
    EmitPeerJoined { client_id: String },
    /// Tell the frontend that a peer is gone.
    EmitPeerLeft { client_id: String },
    /// Forward a remote speaking change to the frontend.
    EmitRemoteVoiceActivity { client_id: String, is_speaking: bool },
    /// Set the remote description from an offer.
    SetRemoteOffer { sdp: String },
    /// Set the remote description from an answer.
    SetRemoteAnswer { sdp: String },
    /// Apply one ICE candidate to the peer connection.
    ApplyCandidate { candidate: String },
    /// Create an offer, set it as local description, and send it.
    CreateAndSendOffer,
    /// Create an answer, set it as local description, and send it.
    CreateAndSendAnswer,
}

/// Mathematical value of an action.
#[verifier::ext_equal]
pub enum ActionView {
    Send { message: MessageView },
    EmitPeerJoined { client_id: Seq<char> },
    EmitPeerLeft { client_id: Seq<char> },
    EmitRemoteVoiceActivity { client_id: Seq<char>, is_speaking: bool },
    SetRemoteOffer { sdp: Seq<char> },
    SetRemoteAnswer { sdp: Seq<char> },
    ApplyCandidate { candidate: Seq<char> },
    CreateAndSendOffer,
    CreateAndSendAnswer,
}

impl View for SessionAction {
    type V = ActionView;

    open spec fn view(&self) -> ActionView {
        match self {
            SessionAction::Send { message } => ActionView::Send { message: message@ },
            SessionAction::EmitPeerJoined { client_id } => ActionView::EmitPeerJoined {
                client_id: client_id@,
            },
            SessionAction::EmitPeerLeft { client_id } => ActionView::EmitPeerLeft {
                client_id: client_id@,
            },
            SessionAction::EmitRemoteVoiceActivity { client_id, is_speaking } => {
                ActionView::EmitRemoteVoiceActivity {
                    client_id: client_id@,
                    is_speaking: *is_speaking,
                }
            },
            SessionAction::SetRemoteOffer { sdp } => ActionView::SetRemoteOffer { sdp: sdp@ },
            SessionAction::SetRemoteAnswer { sdp } => ActionView::SetRemoteAnswer { sdp: sdp@ },
            SessionAction::ApplyCandidate { candidate } => ActionView::ApplyCandidate {
                candidate: candidate@,
            },
            SessionAction::CreateAndSendOffer => ActionView::CreateAndSendOffer,
            SessionAction::CreateAndSendAnswer => ActionView::CreateAndSendAnswer,
        }
    }
}

/// View of an action vector.
pub open spec fn actions_view(v: Seq<SessionAction>) -> Seq<ActionView> {
    v.map_values(|a: SessionAction| a@)
}

/// Pushing an action pushes its view.
pub proof fn lemma_actions_view_push(v: Seq<SessionAction>, a: SessionAction)
    ensures
        actions_view(v.push(a)) == actions_view(v).push(a@),
{
    assert(actions_view(v.push(a)) =~= actions_view(v).push(a@));
}

/// Is a peer with this id in the table?
pub open spec fn has_peer(peers: Seq<PeerView>, id: Seq<char>) -> bool
    decreases peers.len(),
{
    if peers.len() == 0 {
        false
    } else if peers[0].client_id == id {
        true
    } else {
        has_peer(peers.drop_first(), id)
    }
}

/// Records a `Ping` time: updates the entry in place, or appends a fresh one.
pub open spec fn set_ping(peers: Seq<PeerView>, id: Seq<char>, now: int) -> Seq<PeerView>
    decreases peers.len(),
{
    if peers.len() == 0 {
        seq![PeerView { client_id: id, last_ping_ms: now }]
    } else if peers[0].client_id == id {
        seq![PeerView { client_id: id, last_ping_ms: now }] + peers.drop_first()
    } else {
        seq![peers[0]] + set_ping(peers.drop_first(), id, now)
    }
}

/// Removes the peer with this id, if present.
pub open spec fn remove_peer(peers: Seq<PeerView>, id: Seq<char>) -> Seq<PeerView>
    decreases peers.len(),
{
    if peers.len() == 0 {
        peers
    } else if peers[0].client_id == id {
        peers.drop_first()
    } else {
        seq![peers[0]] + remove_peer(peers.drop_first(), id)
    }
}

/// A peer has timed out when strictly more than the timeout has passed since
/// its last `Ping`: a gap of exactly 6000 ms is still tolerated.
pub open spec fn peer_timed_out(p: PeerView, now: int) -> bool {
    now - p.last_ping_ms > PEER_TIMEOUT_MS as int
}

/// The ids of the peers that have timed out, in table order.
pub open spec fn expired_ids(peers: Seq<PeerView>, now: int) -> Seq<Seq<char>>
    decreases peers.len(),
{
    if peers.len() == 0 {
        Seq::empty()
    } else if peer_timed_out(peers[0], now) {
        seq![peers[0].client_id] + expired_ids(peers.drop_first(), now)
    } else {
        expired_ids(peers.drop_first(), now)
    }
}

/// The peers that have not timed out, in table order.
pub open spec fn live_peers(peers: Seq<PeerView>, now: int) -> Seq<PeerView>
    decreases peers.len(),
{
    if peers.len() == 0 {
        Seq::empty()
    } else if peer_timed_out(peers[0], now) {
        live_peers(peers.drop_first(), now)
    } else {
        seq![peers[0]] + live_peers(peers.drop_first(), now)
    }
}

/// The peer table never holds two records with the same id.
pub open spec fn peers_distinct(peers: Seq<PeerView>) -> bool {
    forall|i: int, j: int|
        0 <= i < j < peers.len() ==> peers[i].client_id != peers[j].client_id
}

/// Controller-state well-formedness.
pub open spec fn cycle_wf(st: CycleView) -> bool {
    peers_distinct(st.peers)
}

/// The state a cycle starts in: nothing negotiated, nothing buffered,
/// nobody tracked.
pub open spec fn init_cycle_view() -> CycleView {
    CycleView {
        remote_description_set: false,
        pending_candidates: Seq::empty(),
        did_offer: false,
        reset_pending: false,
        peers: Seq::empty(),
    }
}

/// A `Join`, `Welcome` or `Ping` from `remote` at time `now`: the peer
/// record is created or refreshed, and `peer-joined` is announced exactly
/// when it is created.  On `Join` this side replies with `Welcome`.  On
/// `Join` and `Welcome` the role election runs: the side with the
/// lexicographically greater id sends the one offer of the cycle.
pub open spec fn step_hello(
    st: CycleView,
    remote: Seq<char>,
    local: Seq<char>,
    room: Seq<char>,
    now: int,
    reply_welcome: bool,
    elect: bool,
) -> (CycleView, Seq<ActionView>) {
    if remote == local {
        (st, Seq::empty())
    } else {
        let newly = !has_peer(st.peers, remote);
        let offers = elect && !st.did_offer && lex_gt(local, remote);
        let st2 = CycleView {
            remote_description_set: st.remote_description_set,
            pending_candidates: st.pending_candidates,
            did_offer: st.did_offer || offers,
            reset_pending: st.reset_pending,
            peers: set_ping(st.peers, remote, now),
        };
        let join_acts: Seq<ActionView> = if newly {
            seq![ActionView::EmitPeerJoined { client_id: remote }]
        } else {
            Seq::empty()
        };
        let welcome_acts: Seq<ActionView> = if reply_welcome {
            seq![
                ActionView::Send {
                    message: MessageView::Welcome { room_id: room, client_id: local },
                },
            ]
        } else {
            Seq::empty()
        };
        let offer_acts: Seq<ActionView> = if offers {
            seq![ActionView::CreateAndSendOffer]
        } else {
            Seq::empty()
        };
        (st2, join_acts + welcome_acts + offer_acts)
    }
}

/// A `Leave` from `remote`: ignored when it echoes this side's own id;
/// otherwise the record goes, `peer-left` is announced if one was tracked,
/// and the cycle is marked for reset.
pub open spec fn step_leave(st: CycleView, remote: Seq<char>, local: Seq<char>) -> (
    CycleView,
    Seq<ActionView>,
) {
    if remote == local {
        (st, Seq::empty())
    } else {
        let present = has_peer(st.peers, remote);
        let st2 = CycleView {
            remote_description_set: st.remote_description_set,
            pending_candidates: st.pending_candidates,
            did_offer: st.did_offer,
            reset_pending: true,
            peers: remove_peer(st.peers, remote),
        };
        let acts: Seq<ActionView> = if present {
            seq![ActionView::EmitPeerLeft { client_id: remote }]
        } else {
            Seq::empty()
        };
        (st2, acts)
    }
}

/// A remote description arrived (`Offer` or `Answer`): it is set, every
/// buffered candidate is applied after it, and on an offer this side
/// creates and returns the answer.
pub open spec fn step_remote_description(st: CycleView, sdp: Seq<char>, is_offer: bool) -> (
    CycleView,
    Seq<ActionView>,
) {
    let st2 = CycleView {
        remote_description_set: true,
        pending_candidates: Seq::empty(),
        did_offer: st.did_offer,
        reset_pending: st.reset_pending,
        peers: st.peers,
    };
    let set_act: Seq<ActionView> = if is_offer {
        seq![ActionView::SetRemoteOffer { sdp }]
    } else {
        seq![ActionView::SetRemoteAnswer { sdp }]
    };
    let drain = st.pending_candidates.map_values(
        |c: Seq<char>| ActionView::ApplyCandidate { candidate: c },
    );
    let answer_acts: Seq<ActionView> = if is_offer {
        seq![ActionView::CreateAndSendAnswer]
    } else {
        Seq::empty()
    };
    (st2, set_act + drain + answer_acts)
}

/// A remote ICE candidate: applied at once when the remote description is
/// set, buffered until then otherwise.
pub open spec fn step_remote_candidate(st: CycleView, candidate: Seq<char>) -> (
    CycleView,
    Seq<ActionView>,
) {
    if st.remote_description_set {
        (st, seq![ActionView::ApplyCandidate { candidate }])
    } else {
        (
            CycleView {
                remote_description_set: st.remote_description_set,
                pending_candidates: st.pending_candidates.push(candidate),
                did_offer: st.did_offer,
                reset_pending: st.reset_pending,
                peers: st.peers,
            },
            Seq::empty(),
        )
    }
}

/// The timeout scan at time `now`: every peer silent for strictly more than
/// the timeout is announced as left and dropped, and any loss marks the
/// cycle for reset.
pub open spec fn step_timeout(st: CycleView, now: int) -> (CycleView, Seq<ActionView>) {
    let gone = expired_ids(st.peers, now);
    let st2 = CycleView {
        remote_description_set: st.remote_description_set,
        pending_candidates: st.pending_candidates,
        did_offer: st.did_offer,
        reset_pending: st.reset_pending || gone.len() > 0,
        peers: live_peers(st.peers, now),
    };
    (st2, gone.map_values(|id: Seq<char>| ActionView::EmitPeerLeft { client_id: id }))
}

/// One step of the controller: the new state and the actions to carry out,
/// in order.
pub open spec fn step(
    st: CycleView,
    ev: EventView,
    local: Seq<char>,
    room: Seq<char>,
    now: int,
) -> (CycleView, Seq<ActionView>) {
    match ev {
        EventView::Message { message } => match message {
            MessageView::Join { room_id: _, client_id } => step_hello(
                st,
                client_id,
                local,
                room,
                now,
                true,
                true,
            ),
            MessageView::Welcome { room_id: _, client_id } => step_hello(
                st,
                client_id,
                local,
                room,
                now,
                false,
                true,
            ),
            MessageView::Ping { room_id: _, client_id } => step_hello(
                st,
                client_id,
                local,
                room,
                now,
                false,
                false,
            ),
            MessageView::Leave { room_id: _, client_id } => step_leave(st, client_id, local),
            MessageView::Offer { sdp, room_id: _ } => step_remote_description(st, sdp, true),
            MessageView::Answer { sdp, room_id: _ } => step_remote_description(st, sdp, false),
            MessageView::IceCandidate { candidate, room_id: _ } => step_remote_candidate(
                st,
                candidate,
            ),
            MessageView::VoiceActivity { is_speaking, client_id, room_id: _ } => (
                st,
                seq![ActionView::EmitRemoteVoiceActivity { client_id, is_speaking }],
            ),
        },
        EventView::LocalCandidate { candidate } => (
            st,
            seq![
                ActionView::Send {
                    message: MessageView::IceCandidate { candidate, room_id: room },
                },
            ],
        ),
        EventView::LocalVoiceActivity { is_speaking } => (
            st,
            seq![
                ActionView::Send {
                    message: MessageView::VoiceActivity {
                        is_speaking,
                        client_id: local,
                        room_id: room,
                    },
                },
            ],
        ),
        EventView::HeartbeatTick => (
            st,
            seq![
                ActionView::Send { message: MessageView::Ping { room_id: room, client_id: local } },
            ],
        ),
        EventView::TimeoutTick => step_timeout(st, now),
        EventView::SocketClosed => (
            CycleView {
                remote_description_set: st.remote_description_set,
                pending_candidates: st.pending_candidates,
                did_offer: st.did_offer,
                reset_pending: true,
                peers: st.peers,
            },
            Seq::empty(),
        ),
    }
}

/// What ending a cycle decides: every still-tracked peer is announced as
/// left, and the table is cleared.
pub open spec fn end_cycle_spec(st: CycleView) -> (CycleView, Seq<ActionView>) {
    (
        CycleView {
            remote_description_set: st.remote_description_set,
            pending_candidates: st.pending_candidates,
            did_offer: st.did_offer,
            reset_pending: st.reset_pending,
            peers: Seq::empty(),
        },
        st.peers.map_values(|p: PeerView| ActionView::EmitPeerLeft { client_id: p.client_id }),
    )
}

impl CycleState {
    /// A fresh cycle.
    pub fn new() -> (r: CycleState)
        ensures
            r@ == init_cycle_view(),
            cycle_wf(r@),
    {
        let r = CycleState {
            remote_description_set: false,
            pending_candidates: Vec::new(),
            did_offer: false,
            reset_pending: false,
            peers: Vec::new(),
        };
        proof {
            assert(r@.pending_candidates =~= Seq::<Seq<char>>::empty());
            assert(r@.peers =~= Seq::<PeerView>::empty());
            assert(r@ =~= init_cycle_view());
        }
        r
    }
}

/// First index of the peer with this id, if any.
fn find_peer_index(peers: &Vec<PeerRecord>, id: &String) -> (r: Option<usize>)
    ensures
        match r {
            Some(k) => k < peers@.len() && peers@[k as int]@.client_id == id@ && (forall|t: int|
                0 <= t < k ==> peers@[t]@.client_id != id@),
            None => forall|t: int| 0 <= t < peers@.len() ==> peers@[t]@.client_id != id@,
        },
{
    let mut i: usize = 0;
    while i < peers.len()
        invariant
            i <= peers@.len(),
            forall|t: int| 0 <= t < i ==> peers@[t]@.client_id != id@,
        decreases peers@.len() - i,
    {
        if peers[i].client_id == *id {
            return Some(i);
        }
        i = i + 1;
    }
    None
}

/// `has_peer` is the existence of an index with that id.
proof fn lemma_has_peer_index(peers: Seq<PeerView>, id: Seq<char>)
    ensures
        has_peer(peers, id) <==> exists|k: int| 0 <= k < peers.len() && peers[k].client_id == id,
    decreases peers.len(),
{
    if peers.len() > 0 {
        lemma_has_peer_index(peers.drop_first(), id);
        if peers[0].client_id == id {
            assert(peers[0].client_id == id);
        } else if has_peer(peers.drop_first(), id) {
            let k = choose|k: int|
                0 <= k < peers.drop_first().len() && peers.drop_first()[k].client_id == id;
            assert(peers[k + 1].client_id == id);
        } else {
            assert forall|k: int|
                0 <= k < peers.len() implies peers[k].client_id != id by {
                if k > 0 {
                    assert(peers.drop_first()[k - 1] == peers[k]);
                }
            }
        }
    }
}

/// When the first match sits at `k`, `set_ping` is an update at `k`.
proof fn lemma_set_ping_update(peers: Seq<PeerView>, id: Seq<char>, now: int, k: int)
    requires
        0 <= k < peers.len(),
        peers[k].client_id == id,
        forall|t: int| 0 <= t < k ==> peers[t].client_id != id,
    ensures
        set_ping(peers, id, now) == peers.update(k, PeerView { client_id: id, last_ping_ms: now }),
    decreases k,
{
    if k == 0 {
        assert(set_ping(peers, id, now) =~= peers.update(
            0,
            PeerView { client_id: id, last_ping_ms: now },
        ));
    } else {
        assert(peers.drop_first()[k - 1] == peers[k]);
        assert forall|t: int|
            0 <= t < k - 1 implies peers.drop_first()[t].client_id != id by {
            assert(peers.drop_first()[t] == peers[t + 1]);
        }
        lemma_set_ping_update(peers.drop_first(), id, now, k - 1);
        assert(set_ping(peers, id, now) =~= peers.update(
            k,
            PeerView { client_id: id, last_ping_ms: now },
        ));
    }
}

/// With no match anywhere, `set_ping` appends.
proof fn lemma_set_ping_append(peers: Seq<PeerView>, id: Seq<char>, now: int)
    requires
        forall|t: int| 0 <= t < peers.len() ==> peers[t].client_id != id,
    ensures
        set_ping(peers, id, now) == peers.push(PeerView { client_id: id, last_ping_ms: now }),
    decreases peers.len(),
{
    if peers.len() == 0 {
        assert(set_ping(peers, id, now) =~= peers.push(
            PeerView { client_id: id, last_ping_ms: now },
        ));
    } else {
        assert forall|t: int|
            0 <= t < peers.drop_first().len() implies peers.drop_first()[t].client_id != id by {
            assert(peers.drop_first()[t] == peers[t + 1]);
        }
        lemma_set_ping_append(peers.drop_first(), id, now);
        assert(set_ping(peers, id, now) =~= peers.push(
            PeerView { client_id: id, last_ping_ms: now },
        ));
    }
}

/// When the first match sits at `k`, `remove_peer` removes index `k`.
proof fn lemma_remove_peer_at(peers: Seq<PeerView>, id: Seq<char>, k: int)
    requires
        0 <= k < peers.len(),
        peers[k].client_id == id,
        forall|t: int| 0 <= t < k ==> peers[t].client_id != id,
    ensures
        remove_peer(peers, id) == peers.remove(k),
    decreases k,
{
    if k == 0 {
        assert(remove_peer(peers, id) =~= peers.remove(0));
    } else {
        assert(peers.drop_first()[k - 1] == peers[k]);
        assert forall|t: int|
            0 <= t < k - 1 implies peers.drop_first()[t].client_id != id by {
            assert(peers.drop_first()[t] == peers[t + 1]);
        }
        lemma_remove_peer_at(peers.drop_first(), id, k - 1);
        assert(remove_peer(peers, id) =~= peers.remove(k));
    }
}

/// With no match anywhere, `remove_peer` changes nothing.
proof fn lemma_remove_peer_absent(peers: Seq<PeerView>, id: Seq<char>)
    requires
        forall|t: int| 0 <= t < peers.len() ==> peers[t].client_id != id,
    ensures
        remove_peer(peers, id) == peers,
    decreases peers.len(),
{
    if peers.len() > 0 {
        assert forall|t: int|
            0 <= t < peers.drop_first().len() implies peers.drop_first()[t].client_id != id by {
            assert(peers.drop_first()[t] == peers[t + 1]);
        }
        lemma_remove_peer_absent(peers.drop_first(), id);
        assert(remove_peer(peers, id) =~= peers);
    }
}

/// Records a hello (`Join`/`Welcome`/`Ping`) from `remote`.
fn touch_peer(peers: &mut Vec<PeerRecord>, remote: &String, now_ms: u64) -> (newly: bool)
    ensures
        peers_view(final(peers)@) == set_ping(peers_view(old(peers)@), remote@, now_ms as int),
        newly == !has_peer(peers_view(old(peers)@), remote@),
{
    proof {
        lemma_has_peer_index(peers_view(peers@), remote@);
    }
    let found = find_peer_index(peers, remote);
    match found {
        Some(k) => {
            proof {
                assert(peers_view(peers@)[k as int] == peers@[k as int]@);
                assert(has_peer(peers_view(peers@), remote@));
                lemma_set_ping_update(peers_view(peers@), remote@, now_ms as int, k as int);
            }
            peers.remove(k);
            peers.insert(
                k,
                PeerRecord { client_id: remote.clone(), last_ping_ms: now_ms },
            );
            proof {
                assert(peers_view(final(peers)@) =~= set_ping(
                    peers_view(old(peers)@),
                    remote@,
                    now_ms as int,
                ));
            }
            false
        },
        None => {
            proof {
                assert forall|t: int|
                    0 <= t < peers_view(peers@).len() implies peers_view(
                    peers@,
                )[t].client_id != remote@ by {
                    assert(peers_view(peers@)[t] == peers@[t]@);
                }
                assert(!has_peer(peers_view(peers@), remote@));
                lemma_set_ping_append(peers_view(peers@), remote@, now_ms as int);
            }
            peers.push(PeerRecord { client_id: remote.clone(), last_ping_ms: now_ms });
            proof {
                assert(peers_view(final(peers)@) =~= set_ping(
                    peers_view(old(peers)@),
                    remote@,
                    now_ms as int,
                ));
            }
            true
        },
    }
}

impl CycleState {
    /// Handles one event at time `now_ms`, returning the actions the session
    /// loop must carry out, in order.  The new state and the actions are
    /// exactly those of the `step` function.
    pub fn handle_event(
        &mut self,
        local_client_id: &String,
        room_id: &String,
        event: SessionEvent,
        now_ms: u64,
    ) -> (actions: Vec<SessionAction>)
        ensures
            final(self)@ == step(old(self)@, event@, local_client_id@, room_id@, now_ms as int).0,
            actions_view(actions@) == step(
                old(self)@,
                event@,
                local_client_id@,
                room_id@,
                now_ms as int,
            ).1,
    {
        match event {
            SessionEvent::Message { message } => match message {
                SignalingMessage::Join { room_id: _, client_id } => self.handle_hello(
                    client_id,
                    local_client_id,
                    room_id,
                    now_ms,
                    true,
                    true,
                ),
                SignalingMessage::Welcome { room_id: _, client_id } => self.handle_hello(
                    client_id,
                    local_client_id,
                    room_id,
                    now_ms,
                    false,
                    true,
                ),
                SignalingMessage::Ping { room_id: _, client_id } => self.handle_hello(
                    client_id,
                    local_client_id,
                    room_id,
                    now_ms,
                    false,
                    false,
                ),
                SignalingMessage::Leave { room_id: _, client_id } => self.handle_leave(
                    client_id,
                    local_client_id,
                ),
                SignalingMessage::Offer { sdp, room_id: _ } => self.handle_remote_description(
                    sdp,
                    true,
                ),
                SignalingMessage::Answer { sdp, room_id: _ } => self.handle_remote_description(
                    sdp,
                    false,
                ),
                SignalingMessage::IceCandidate { candidate, room_id: _ } => self
                    .handle_remote_candidate(candidate),
                SignalingMessage::VoiceActivity { is_speaking, client_id, room_id: _ } => {
                    let mut actions: Vec<SessionAction> = Vec::new();
                    actions.push(
                        SessionAction::EmitRemoteVoiceActivity { client_id, is_speaking },
                    );
                    proof {
                        assert(actions_view(actions@) =~= step(
                            old(self)@,
                            event@,
                            local_client_id@,
                            room_id@,
                            now_ms as int,
                        ).1);
                    }
                    actions
                },
            },
            SessionEvent::LocalCandidate { candidate } => {
                let mut actions: Vec<SessionAction> = Vec::new();
                actions.push(
                    SessionAction::Send {
                        message: SignalingMessage::IceCandidate {
                            candidate,
                            room_id: room_id.clone(),
                        },
                    },
                );
                proof {
                    assert(actions_view(actions@) =~= step(
                        old(self)@,
                        event@,
                        local_client_id@,
                        room_id@,
                        now_ms as int,
                    ).1);
                }
                actions
            },
            SessionEvent::LocalVoiceActivity { is_speaking } => {
                let mut actions: Vec<SessionAction> = Vec::new();
                actions.push(
                    SessionAction::Send {
                        message: SignalingMessage::VoiceActivity {
                            is_speaking,
                            client_id: local_client_id.clone(),
                            room_id: room_id.clone(),
                        },
                    },
                );
                proof {
                    assert(actions_view(actions@) =~= step(
                        old(self)@,
                        event@,
                        local_client_id@,
                        room_id@,
                        now_ms as int,
                    ).1);
                }
                actions
            },
            SessionEvent::HeartbeatTick => {
                let mut actions: Vec<SessionAction> = Vec::new();
                actions.push(
                    SessionAction::Send {
                        message: SignalingMessage::Ping {
                            room_id: room_id.clone(),
                            client_id: local_client_id.clone(),
                        },
                    },
                );
                proof {
                    assert(actions_view(actions@) =~= step(
                        old(self)@,
                        event@,
                        local_client_id@,
                        room_id@,
                        now_ms as int,
                    ).1);
                }
                actions
            },
            SessionEvent::TimeoutTick => self.handle_timeout(now_ms),
            SessionEvent::SocketClosed => {
                self.reset_pending = true;
                let actions: Vec<SessionAction> = Vec::new();
                proof {
                    assert(actions_view(actions@) =~= Seq::<ActionView>::empty());
                }
                actions
            },
        }
    }

    /// `Join`/`Welcome`/`Ping` handling; see `step_hello`.
    fn handle_hello(
        &mut self,
        remote: String,
        local_client_id: &String,
        room_id: &String,
        now_ms: u64,
        reply_welcome: bool,
        elect: bool,
    ) -> (actions: Vec<SessionAction>)
        ensures
            final(self)@ == step_hello(
                old(self)@,
                remote@,
                local_client_id@,
                room_id@,
                now_ms as int,
                reply_welcome,
                elect,
            ).0,
            actions_view(actions@) == step_hello(
                old(self)@,
                remote@,
                local_client_id@,
                room_id@,
                now_ms as int,
                reply_welcome,
                elect,
            ).1,
    {
        let mut actions: Vec<SessionAction> = Vec::new();
        if remote == *local_client_id {
            proof {
                assert(actions_view(actions@) =~= Seq::<ActionView>::empty());
            }
            return actions;
        }
        let newly = touch_peer(&mut self.peers, &remote, now_ms);
        if newly {
            actions.push(SessionAction::EmitPeerJoined { client_id: remote.clone() });
        }
        if reply_welcome {
            actions.push(
                SessionAction::Send {
                    message: SignalingMessage::Welcome {
                        room_id: room_id.clone(),
                        client_id: local_client_id.clone(),
                    },
                },
            );
        }
        let offers = elect && !self.did_offer && str_lex_gt(
            local_client_id.as_str(),
            remote.as_str(),
        );
        if offers {
            self.did_offer = true;
            actions.push(SessionAction::CreateAndSendOffer);
        }
        proof {
            assert(actions_view(actions@) =~= step_hello(
                old(self)@,
                remote@,
                local_client_id@,
                room_id@,
                now_ms as int,
                reply_welcome,
                elect,
            ).1);
        }
        actions
    }

    /// `Leave` handling; see `step_leave`.
    fn handle_leave(&mut self, remote: String, local_client_id: &String) -> (actions: Vec<
        SessionAction,
    >)
        ensures
            final(self)@ == step_leave(old(self)@, remote@, local_client_id@).0,
            actions_view(actions@) == step_leave(old(self)@, remote@, local_client_id@).1,
    {
        let mut actions: Vec<SessionAction> = Vec::new();
        if remote == *local_client_id {
            proof {
                assert(actions_view(actions@) =~= Seq::<ActionView>::empty());
            }
            return actions;
        }
        proof {
            lemma_has_peer_index(peers_view(self.peers@), remote@);
        }
        let found = find_peer_index(&self.peers, &remote);
        match found {
            Some(k) => {
                proof {
                    assert(peers_view(self.peers@)[k as int] == self.peers@[k as int]@);
                    assert(has_peer(peers_view(self.peers@), remote@));
                    lemma_remove_peer_at(peers_view(self.peers@), remote@, k as int);
                }
                self.peers.remove(k);
                actions.push(SessionAction::EmitPeerLeft { client_id: remote });
            },
            None => {
                proof {
                    assert forall|t: int|
                        0 <= t < peers_view(self.peers@).len() implies peers_view(
                        self.peers@,
                    )[t].client_id != remote@ by {
                        assert(peers_view(self.peers@)[t] == self.peers@[t]@);
                    }
                    assert(!has_peer(peers_view(self.peers@), remote@));
                    lemma_remove_peer_absent(peers_view(self.peers@), remote@);
                }
            },
        }
        self.reset_pending = true;
        proof {
            assert(actions_view(actions@).len() == actions@.len());
            assert(peers_view(final(self).peers@) =~= step_leave(
                old(self)@,
                remote@,
                local_client_id@,
            ).0.peers);
            assert(actions_view(actions@) =~= step_leave(
                old(self)@,
                remote@,
                local_client_id@,
            ).1);
        }
        actions
    }

    /// `Offer`/`Answer` handling; see `step_remote_description`.
    fn handle_remote_description(&mut self, sdp: String, is_offer: bool) -> (actions: Vec<
        SessionAction,
    >)
        ensures
            final(self)@ == step_remote_description(old(self)@, sdp@, is_offer).0,
            actions_view(actions@) == step_remote_description(old(self)@, sdp@, is_offer).1,
    {
        let mut actions: Vec<SessionAction> = Vec::new();
        if is_offer {
            actions.push(SessionAction::SetRemoteOffer { sdp });
        } else {
            actions.push(SessionAction::SetRemoteAnswer { sdp });
        }
        let ghost drain = old(self)@.pending_candidates.map_values(
            |c: Seq<char>| ActionView::ApplyCandidate { candidate: c },
        );
        proof {
            assert(actions_view(actions@).len() == actions@.len());
            assert(actions_view(actions@) =~= step_remote_description(
                old(self)@,
                sdp@,
                is_offer,
            ).1.take(1));
        }
        let mut i: usize = 0;
        while i < self.pending_candidates.len()
            invariant
                i <= self.pending_candidates@.len(),
                self == old(self),
                actions_view(actions@) =~= step_remote_description(
                    old(self)@,
                    sdp@,
                    is_offer,
                ).1.take(1 + i as int),
            decreases self.pending_candidates@.len() - i,
        {
            let c = self.pending_candidates[i].clone();
            proof {
                assert(actions_view(actions@).len() == actions@.len());
            }
            actions.push(SessionAction::ApplyCandidate { candidate: c });
            proof {
                assert(actions_view(actions@).len() == actions@.len());
                assert(actions_view(actions@) =~= step_remote_description(
                    old(self)@,
                    sdp@,
                    is_offer,
                ).1.take(1 + (i + 1) as int));
            }
            i = i + 1;
        }
        self.remote_description_set = true;
        self.pending_candidates = Vec::new();
        proof {
            assert(actions_view(actions@).len() == actions@.len());
        }
        let ghost pre_push = actions@;
        if is_offer {
            actions.push(SessionAction::CreateAndSendAnswer);
        }
        proof {
            let whole = step_remote_description(old(self)@, sdp@, is_offer).1;
            assert(old(self)@.pending_candidates.len() == old(self).pending_candidates@.len());
            let n_mid: int = 1 + old(self)@.pending_candidates.len() as int;
            assert(actions_view(pre_push) == whole.take(n_mid));
            if is_offer {
                lemma_actions_view_push(pre_push, SessionAction::CreateAndSendAnswer);
                assert(whole.len() == n_mid + 1);
                assert(whole[n_mid] == ActionView::CreateAndSendAnswer);
                assert(actions_view(actions@) =~= whole);
            } else {
                assert(whole.len() == n_mid);
                assert(whole.take(n_mid) =~= whole);
            }
            assert(final(self)@.pending_candidates =~= Seq::<Seq<char>>::empty());
            assert(final(self)@ =~= step_remote_description(old(self)@, sdp@, is_offer).0);
            assert(actions_view(actions@) =~= whole);
        }
        actions
    }

    /// `IceCandidate` handling; see `step_remote_candidate`.
    fn handle_remote_candidate(&mut self, candidate: String) -> (actions: Vec<SessionAction>)
        ensures
            final(self)@ == step_remote_candidate(old(self)@, candidate@).0,
            actions_view(actions@) == step_remote_candidate(old(self)@, candidate@).1,
    {
        let mut actions: Vec<SessionAction> = Vec::new();
        if self.remote_description_set {
            actions.push(SessionAction::ApplyCandidate { candidate });
            proof {
                assert(actions_view(actions@) =~= step_remote_candidate(
                    old(self)@,
                    candidate@,
                ).1);
            }
        } else {
            self.pending_candidates.push(candidate);
            proof {
                assert(final(self)@.pending_candidates =~= step_remote_candidate(
                    old(self)@,
                    candidate@,
                ).0.pending_candidates);
                assert(final(self)@ =~= step_remote_candidate(old(self)@, candidate@).0);
                assert(actions_view(actions@) =~= Seq::<ActionView>::empty());
            }
        }
        actions
    }

    /// The 1 s timeout scan; see `step_timeout`.
    fn handle_timeout(&mut self, now_ms: u64) -> (actions: Vec<SessionAction>)
        ensures
            final(self)@ == step_timeout(old(self)@, now_ms as int).0,
            actions_view(actions@) == step_timeout(old(self)@, now_ms as int).1,
    {
        let mut kept: Vec<PeerRecord> = Vec::new();
        let mut actions: Vec<SessionAction> = Vec::new();
        let mut i: usize = 0;
        let ghost all = peers_view(old(self).peers@);
        proof {
            assert(all.skip(0) =~= all);
            assert(peers_view(kept@) =~= Seq::<PeerView>::empty());
            assert(actions_view(actions@) =~= Seq::<ActionView>::empty());
        }
        while i < self.peers.len()
            invariant
                i <= self.peers@.len(),
                self == old(self),
                all == peers_view(self.peers@),
                live_peers(all, now_ms as int) == peers_view(kept@) + live_peers(
                    all.skip(i as int),
                    now_ms as int,
                ),
                expired_ids(all, now_ms as int).map_values(
                    |id: Seq<char>| ActionView::EmitPeerLeft { client_id: id },
                ) == actions_view(actions@) + expired_ids(all.skip(i as int), now_ms as int)
                    .map_values(|id: Seq<char>| ActionView::EmitPeerLeft { client_id: id }),
            decreases self.peers@.len() - i,
        {
            proof {
                assert(all.skip(i as int)[0] == all[i as int]);
                assert(all.skip(i as int).drop_first() =~= all.skip(i + 1));
            }
            let last = self.peers[i].last_ping_ms;
            let expired = now_ms > last && now_ms - last > PEER_TIMEOUT_MS;
            if expired {
                actions.push(
                    SessionAction::EmitPeerLeft { client_id: self.peers[i].client_id.clone() },
                );
                proof {
                    assert(expired_ids(all, now_ms as int).map_values(
                        |id: Seq<char>| ActionView::EmitPeerLeft { client_id: id },
                    ) =~= actions_view(actions@) + expired_ids(all.skip(i + 1), now_ms as int)
                        .map_values(|id: Seq<char>| ActionView::EmitPeerLeft { client_id: id }));
                }
            } else {
                let p = PeerRecord {
                    client_id: self.peers[i].client_id.clone(),
                    last_ping_ms: self.peers[i].last_ping_ms,
                };
                kept.push(p);
                proof {
                    assert(live_peers(all, now_ms as int) =~= peers_view(kept@) + live_peers(
                        all.skip(i + 1),
                        now_ms as int,
                    ));
                }
            }
            i = i + 1;
        }
        proof {
            assert(all.skip(all.len() as int) =~= Seq::<PeerView>::empty());
            assert(live_peers(all, now_ms as int) =~= peers_view(kept@));
            assert(expired_ids(all, now_ms as int).map_values(
                |id: Seq<char>| ActionView::EmitPeerLeft { client_id: id },
            ) =~= actions_view(actions@));
        }
        let any_gone = actions.len() > 0;
        if any_gone {
            self.reset_pending = true;
        }
        self.peers = kept;
        proof {
            assert(expired_ids(all, now_ms as int).len() == actions@.len());
            assert(final(self)@ =~= step_timeout(old(self)@, now_ms as int).0);
        }
        actions
    }

    /// Ends the cycle: announces every still-tracked peer as left and clears
    /// the table; see `end_cycle_spec`.
    pub fn end_cycle(&mut self) -> (actions: Vec<SessionAction>)
        ensures
            final(self)@ == end_cycle_spec(old(self)@).0,
            actions_view(actions@) == end_cycle_spec(old(self)@).1,
    {
        let mut actions: Vec<SessionAction> = Vec::new();
        let mut i: usize = 0;
        proof {
            assert(actions_view(actions@) =~= end_cycle_spec(old(self)@).1.take(0));
        }
        while i < self.peers.len()
            invariant
                i <= self.peers@.len(),
                self == old(self),
                actions_view(actions@) =~= end_cycle_spec(old(self)@).1.take(i as int),
            decreases self.peers@.len() - i,
        {
            proof {
                assert(actions_view(actions@).len() == actions@.len());
            }
            let cid = self.peers[i].client_id.clone();
            actions.push(SessionAction::EmitPeerLeft { client_id: cid });
            proof {
                let spec_all = end_cycle_spec(old(self)@).1;
                assert(actions_view(actions@).len() == actions@.len());
                assert(spec_all.len() == old(self)@.peers.len());
                assert(actions@.len() == i + 1);
                assert(spec_all[i as int] == ActionView::EmitPeerLeft {
                    client_id: old(self)@.peers[i as int].client_id,
                });
                assert(old(self)@.peers[i as int].client_id == old(self).peers@[i as int]@.client_id);
                assert(actions@[i as int]@ == ActionView::EmitPeerLeft {
                    client_id: old(self).peers@[i as int].client_id@,
                });
                assert(actions_view(actions@) =~= end_cycle_spec(old(self)@).1.take(i + 1));
            }
            i = i + 1;
        }
        self.peers = Vec::new();
        proof {
            assert(end_cycle_spec(old(self)@).1.take(old(self)@.peers.len() as int)
                =~= end_cycle_spec(old(self)@).1);
            assert(peers_view(final(self).peers@) =~= Seq::<PeerView>::empty());
            assert(final(self)@ =~= end_cycle_spec(old(self)@).0);
        }
        actions
    }
}

} // verus!
