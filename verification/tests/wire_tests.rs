use p2d_core::wire::SignalingMessage;
use p2d_core::wire::encode_message;
use p2d_core::wire::parse_message;

fn join(room: &str, client: &str) -> SignalingMessage {
    SignalingMessage::Join { room_id: room.to_string(), client_id: client.to_string() }
}

#[test]
fn encode_join_canonical() {
    let m = join("lobby", "abc-123");
    let s = encode_message(&m);
    assert_eq!(s, "{\"type\":\"Join\",\"room_id\":\"lobby\",\"client_id\":\"abc-123\"}");
}

#[test]
fn encode_welcome_leave_ping() {
    let w = SignalingMessage::Welcome { room_id: "r".to_string(), client_id: "c".to_string() };
    assert_eq!(encode_message(&w), "{\"type\":\"Welcome\",\"room_id\":\"r\",\"client_id\":\"c\"}");
    let l = SignalingMessage::Leave { room_id: "r".to_string(), client_id: "c".to_string() };
    assert_eq!(encode_message(&l), "{\"type\":\"Leave\",\"room_id\":\"r\",\"client_id\":\"c\"}");
    let p = SignalingMessage::Ping { room_id: "r".to_string(), client_id: "c".to_string() };
    assert_eq!(encode_message(&p), "{\"type\":\"Ping\",\"room_id\":\"r\",\"client_id\":\"c\"}");
}

#[test]
fn encode_offer_escapes_sdp_newlines() {
    let m = SignalingMessage::Offer {
        sdp: "v=0\r\no=- 46117 2 IN IP4 127.0.0.1\r\n".to_string(),
        room_id: "room".to_string(),
    };
    let s = encode_message(&m);
    assert_eq!(
        s,
        "{\"type\":\"Offer\",\"room_id\":\"room\",\"sdp\":\"v=0\\r\\no=- 46117 2 IN IP4 127.0.0.1\\r\\n\"}"
    );
}

#[test]
fn encode_candidate_escapes_quotes_and_backslashes() {
    let m = SignalingMessage::IceCandidate {
        candidate: "{\"candidate\":\"candidate:1 1 udp 2130706431 10.0.0.1 54400 typ host\"}"
            .to_string(),
        room_id: "r".to_string(),
    };
    let s = encode_message(&m);
    assert_eq!(
        s,
        "{\"type\":\"IceCandidate\",\"room_id\":\"r\",\"candidate\":\"{\\\"candidate\\\":\\\"candidate:1 1 udp 2130706431 10.0.0.1 54400 typ host\\\"}\"}"
    );
    let back = SignalingMessage::Answer { sdp: "a\\b".to_string(), room_id: "r".to_string() };
    assert_eq!(encode_message(&back), "{\"type\":\"Answer\",\"room_id\":\"r\",\"sdp\":\"a\\\\b\"}");
}

#[test]
fn encode_voice_activity_bool_tail() {
    let t = SignalingMessage::VoiceActivity {
        is_speaking: true,
        client_id: "c".to_string(),
        room_id: "r".to_string(),
    };
    assert_eq!(
        encode_message(&t),
        "{\"type\":\"VoiceActivity\",\"room_id\":\"r\",\"client_id\":\"c\",\"is_speaking\":true}"
    );
    let f = SignalingMessage::VoiceActivity {
        is_speaking: false,
        client_id: "c".to_string(),
        room_id: "r".to_string(),
    };
    assert_eq!(
        encode_message(&f),
        "{\"type\":\"VoiceActivity\",\"room_id\":\"r\",\"client_id\":\"c\",\"is_speaking\":false}"
    );
}

#[test]
fn encode_control_characters_as_hex_escapes() {
    let m = join("a\u{01}b", "c");
    let s = encode_message(&m);
    assert_eq!(s, "{\"type\":\"Join\",\"room_id\":\"a\\u0001b\",\"client_id\":\"c\"}");
    let m2 = join("tab\there", "c");
    assert_eq!(
        encode_message(&m2),
        "{\"type\":\"Join\",\"room_id\":\"tab\\there\",\"client_id\":\"c\"}"
    );
}

fn round_trips(m: &SignalingMessage) {
    let s = encode_message(m);
    let back = parse_message(s.as_str()).expect("canonical encoding must parse");
    assert_eq!(encode_message(&back), s);
}

#[test]
fn parse_inverts_encode_for_every_variant() {
    round_trips(&join("room-1", "11111111-2222-3333-4444-555555555555"));
    round_trips(&SignalingMessage::Leave { room_id: "r".to_string(), client_id: "x".to_string() });
    round_trips(&SignalingMessage::Ping { room_id: "r".to_string(), client_id: "x".to_string() });
    round_trips(&SignalingMessage::Welcome {
        room_id: "r".to_string(),
        client_id: "x".to_string(),
    });
    round_trips(&SignalingMessage::Offer {
        sdp: "v=0\r\nm=audio 9 UDP/TLS/RTP/SAVPF 111\r\n".to_string(),
        room_id: "r".to_string(),
    });
    round_trips(&SignalingMessage::Answer { sdp: "v=0\r\n".to_string(), room_id: "r".to_string() });
    round_trips(&SignalingMessage::IceCandidate {
        candidate: "{\"candidate\":\"x\",\"sdpMLineIndex\":0}".to_string(),
        room_id: "r".to_string(),
    });
    round_trips(&SignalingMessage::VoiceActivity {
        is_speaking: true,
        client_id: "me".to_string(),
        room_id: "r".to_string(),
    });
}

#[test]
fn parse_join_fields() {
    let m = parse_message("{\"type\":\"Join\",\"room_id\":\"lobby\",\"client_id\":\"abc\"}")
        .expect("must parse");
    match m {
        SignalingMessage::Join { room_id, client_id } => {
            assert_eq!(room_id, "lobby");
            assert_eq!(client_id, "abc");
        }
        _ => panic!("wrong variant"),
    }
}

#[test]
fn parse_unescapes() {
    let m = parse_message("{\"type\":\"Offer\",\"room_id\":\"r\",\"sdp\":\"a\\r\\nb\\\\c\\\"d\\u0001e\"}")
        .expect("must parse");
    match m {
        SignalingMessage::Offer { sdp, room_id } => {
            assert_eq!(room_id, "r");
            assert_eq!(sdp, "a\r\nb\\c\"d\u{01}e");
        }
        _ => panic!("wrong variant"),
    }
}

#[test]
fn parse_rejects_malformed_input() {
    assert!(parse_message("").is_none());
    assert!(parse_message("{}").is_none());
    assert!(parse_message("{\"type\":\"Jump\",\"room_id\":\"r\",\"client_id\":\"c\"}").is_none());
    assert!(parse_message("{\"type\":\"Join\",\"room_id\":\"r\",\"client_id\":\"c\"").is_none());
    assert!(parse_message("{\"type\":\"Join\",\"room_id\":\"r\",\"client_id\":\"c\"}x").is_none());
    assert!(parse_message("{\"type\":\"Join\",\"room_id\":\"r\"}").is_none());
    assert!(
        parse_message("{\"type\":\"VoiceActivity\",\"room_id\":\"r\",\"client_id\":\"c\",\"is_speaking\":maybe}")
            .is_none()
    );
}
