use p2d_core::identity::SessionIdentity;

#[test]
fn session_identity_has_fresh_36_char_id() {
    let a = SessionIdentity::new("room-1".to_string());
    assert_eq!(a.room_id, "room-1");
    assert_eq!(a.local_client_id.len(), 36);
    // Hyphenated UUID shape.
    let hyphens: Vec<usize> = a
        .local_client_id
        .char_indices()
        .filter(|(_, c)| *c == '-')
        .map(|(i, _)| i)
        .collect();
    assert_eq!(hyphens, vec![8, 13, 18, 23]);
}

#[test]
fn two_sessions_draw_distinct_ids() {
    let a = SessionIdentity::new("r".to_string());
    let b = SessionIdentity::new("r".to_string());
    assert_ne!(a.local_client_id, b.local_client_id);
}
