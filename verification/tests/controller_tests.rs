use p2d_core::controller::CycleState;
use p2d_core::controller::SessionAction;
use p2d_core::controller::SessionEvent;
use p2d_core::wire::SignalingMessage;

fn msg(m: SignalingMessage) -> SessionEvent {
    SessionEvent::Message { message: m }
}

fn join_from(id: &str) -> SessionEvent {
    msg(SignalingMessage::Join { room_id: "R".to_string(), client_id: id.to_string() })
}

fn ping_from(id: &str) -> SessionEvent {
    msg(SignalingMessage::Ping { room_id: "R".to_string(), client_id: id.to_string() })
}

fn handle(st: &mut CycleState, local: &str, ev: SessionEvent, now: u64) -> Vec<SessionAction> {
    st.handle_event(&local.to_string(), &"R".to_string(), ev, now)
}

fn has_offer(actions: &[SessionAction]) -> bool {
    actions.iter().any(|a| matches!(a, SessionAction::CreateAndSendOffer))
}

#[test]
fn greater_id_offers_smaller_id_does_not() {
    // Two clients A="A..." and B="Z...": B offers (Z > A), A only welcomes.
    let mut b = CycleState::new();
    let b_actions = handle(&mut b, "Zed-9999", join_from("Abel-0001"), 0);
    assert!(matches!(b_actions[0], SessionAction::EmitPeerJoined { .. }));
    assert!(matches!(
        b_actions[1],
        SessionAction::Send { message: SignalingMessage::Welcome { .. } }
    ));
    assert!(has_offer(&b_actions));

    let mut a = CycleState::new();
    let a_actions = handle(&mut a, "Abel-0001", join_from("Zed-9999"), 0);
    assert!(!has_offer(&a_actions));
    assert!(matches!(
        a_actions[1],
        SessionAction::Send { message: SignalingMessage::Welcome { .. } }
    ));
}

#[test]
fn at_most_one_offer_per_cycle() {
    let mut b = CycleState::new();
    let first = handle(&mut b, "Zed", join_from("Abel"), 0);
    assert!(has_offer(&first));
    // A Welcome from the same peer elects again, but the offer was made.
    let again = handle(
        &mut b,
        "Zed",
        msg(SignalingMessage::Welcome { room_id: "R".to_string(), client_id: "Abel".to_string() }),
        10,
    );
    assert!(!has_offer(&again));
}

#[test]
fn offer_decision_independent_of_arrival_order() {
    // Join then Welcome, or Welcome then Join: the same single offer.
    let mut one = CycleState::new();
    let mut n1 = 0;
    n1 += handle(&mut one, "Zed", join_from("Abel"), 0).iter().filter(|a| matches!(a, SessionAction::CreateAndSendOffer)).count();
    n1 += handle(&mut one, "Zed", msg(SignalingMessage::Welcome { room_id: "R".to_string(), client_id: "Abel".to_string() }), 1).iter().filter(|a| matches!(a, SessionAction::CreateAndSendOffer)).count();
    let mut two = CycleState::new();
    let mut n2 = 0;
    n2 += handle(&mut two, "Zed", msg(SignalingMessage::Welcome { room_id: "R".to_string(), client_id: "Abel".to_string() }), 0).iter().filter(|a| matches!(a, SessionAction::CreateAndSendOffer)).count();
    n2 += handle(&mut two, "Zed", join_from("Abel"), 1).iter().filter(|a| matches!(a, SessionAction::CreateAndSendOffer)).count();
    assert_eq!(n1, 1);
    assert_eq!(n2, 1);
}

#[test]
fn early_candidate_is_buffered_then_drained_after_offer() {
    // Scenario: Ice arrives before the Offer; B buffers, then applies it
    // right after setting the remote description, then answers.
    let mut b = CycleState::new();
    let ice = msg(SignalingMessage::IceCandidate {
        candidate: "cand-1".to_string(),
        room_id: "R".to_string(),
    });
    let early = handle(&mut b, "B", ice, 0);
    assert!(early.is_empty());
    let offer = msg(SignalingMessage::Offer { sdp: "sdp-text".to_string(), room_id: "R".to_string() });
    let actions = handle(&mut b, "B", offer, 1);
    assert_eq!(actions.len(), 3);
    assert!(matches!(&actions[0], SessionAction::SetRemoteOffer { sdp } if sdp == "sdp-text"));
    assert!(matches!(&actions[1], SessionAction::ApplyCandidate { candidate } if candidate == "cand-1"));
    assert!(matches!(actions[2], SessionAction::CreateAndSendAnswer));
}

#[test]
fn candidate_after_description_applies_immediately_and_twice_is_harmless() {
    let mut b = CycleState::new();
    let answer = msg(SignalingMessage::Answer { sdp: "s".to_string(), room_id: "R".to_string() });
    let _ = handle(&mut b, "B", answer, 0);
    let ice = || msg(SignalingMessage::IceCandidate {
        candidate: "c".to_string(),
        room_id: "R".to_string(),
    });
    let once = handle(&mut b, "B", ice(), 1);
    assert!(matches!(&once[0], SessionAction::ApplyCandidate { candidate } if candidate == "c"));
    let twice = handle(&mut b, "B", ice(), 2);
    assert_eq!(twice.len(), 1);
    assert!(matches!(&twice[0], SessionAction::ApplyCandidate { candidate } if candidate == "c"));
    assert!(!b.reset_pending);
}

#[test]
fn self_leave_is_ignored() {
    let mut st = CycleState::new();
    let _ = handle(&mut st, "me", ping_from("other"), 0);
    let actions = handle(
        &mut st,
        "me",
        msg(SignalingMessage::Leave { room_id: "R".to_string(), client_id: "me".to_string() }),
        1,
    );
    assert!(actions.is_empty());
    assert!(!st.reset_pending);
    assert_eq!(st.peers.len(), 1);
}

#[test]
fn peer_leave_emits_and_resets() {
    let mut st = CycleState::new();
    let _ = handle(&mut st, "me", ping_from("other"), 0);
    let actions = handle(
        &mut st,
        "me",
        msg(SignalingMessage::Leave { room_id: "R".to_string(), client_id: "other".to_string() }),
        1,
    );
    assert!(matches!(&actions[0], SessionAction::EmitPeerLeft { client_id } if client_id == "other"));
    assert!(st.reset_pending);
    assert!(st.peers.is_empty());
}

#[test]
fn six_second_gap_does_not_time_out_but_a_longer_one_does() {
    let mut st = CycleState::new();
    let _ = handle(&mut st, "me", ping_from("other"), 0);
    // Exactly 6000 ms since the Ping: still alive.
    let ok = handle(&mut st, "me", SessionEvent::TimeoutTick, 6000);
    assert!(ok.is_empty());
    assert!(!st.reset_pending);
    assert_eq!(st.peers.len(), 1);
    // 6010 ms: gone.
    let gone = handle(&mut st, "me", SessionEvent::TimeoutTick, 6010);
    assert!(matches!(&gone[0], SessionAction::EmitPeerLeft { client_id } if client_id == "other"));
    assert!(st.reset_pending);
    assert!(st.peers.is_empty());
}

#[test]
fn peer_joined_emitted_once_then_balanced_by_end_of_cycle() {
    let mut st = CycleState::new();
    let first = handle(&mut st, "me", join_from("other"), 0);
    assert!(matches!(&first[0], SessionAction::EmitPeerJoined { client_id } if client_id == "other"));
    // A second hello from the same peer announces nothing new.
    let second = handle(&mut st, "me", ping_from("other"), 100);
    assert!(!second.iter().any(|a| matches!(a, SessionAction::EmitPeerJoined { .. })));
    // Ending the cycle announces the matching peer-left.
    let end = st.end_cycle();
    assert_eq!(end.len(), 1);
    assert!(matches!(&end[0], SessionAction::EmitPeerLeft { client_id } if client_id == "other"));
    assert!(st.peers.is_empty());
}

#[test]
fn heartbeat_and_local_events_turn_into_sends() {
    let mut st = CycleState::new();
    let hb = handle(&mut st, "me", SessionEvent::HeartbeatTick, 0);
    assert!(matches!(
        &hb[0],
        SessionAction::Send { message: SignalingMessage::Ping { room_id, client_id } }
            if room_id == "R" && client_id == "me"
    ));
    let vad = handle(&mut st, "me", SessionEvent::LocalVoiceActivity { is_speaking: true }, 1);
    assert!(matches!(
        &vad[0],
        SessionAction::Send { message: SignalingMessage::VoiceActivity { is_speaking: true, .. } }
    ));
    let cand = handle(
        &mut st,
        "me",
        SessionEvent::LocalCandidate { candidate: "c-json".to_string() },
        2,
    );
    assert!(matches!(
        &cand[0],
        SessionAction::Send { message: SignalingMessage::IceCandidate { candidate, .. } }
            if candidate == "c-json"
    ));
}

#[test]
fn remote_voice_activity_is_forwarded() {
    let mut st = CycleState::new();
    let actions = handle(
        &mut st,
        "me",
        msg(SignalingMessage::VoiceActivity {
            is_speaking: true,
            client_id: "other".to_string(),
            room_id: "R".to_string(),
        }),
        0,
    );
    assert!(matches!(
        &actions[0],
        SessionAction::EmitRemoteVoiceActivity { client_id, is_speaking: true } if client_id == "other"
    ));
}

#[test]
fn socket_close_marks_reset() {
    let mut st = CycleState::new();
    let actions = handle(&mut st, "me", SessionEvent::SocketClosed, 0);
    assert!(actions.is_empty());
    assert!(st.reset_pending);
}
