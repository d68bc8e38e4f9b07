use p2d_core::guild::GuildMemberStore;
use p2d_core::guild::create_guild_state;
use p2d_core::models::Activity;
use p2d_core::models::ClientStatus;
use p2d_core::models::DiscordUser;
use p2d_core::models::MemberWithPresence;
use p2d_core::models::VoiceState;
use p2d_core::models::map_channel_type;
use p2d_core::state::AudioState;

fn user(id: &str, name: &str) -> DiscordUser {
    DiscordUser {
        id: id.to_string(),
        username: name.to_string(),
        discriminator: "0001".to_string(),
        avatar: None,
    }
}

fn member(id: &str, name: &str, status: &str) -> MemberWithPresence {
    MemberWithPresence {
        user: user(id, name),
        roles: vec!["role-a".to_string()],
        nick: None,
        joined_at: "2024-01-01T00:00:00Z".to_string(),
        status: status.to_string(),
        activities: Vec::new(),
        client_status: ClientStatus { desktop: None, mobile: None, web: None },
    }
}

fn voice(uid: &str, channel: Option<&str>) -> VoiceState {
    VoiceState {
        user_id: uid.to_string(),
        channel_id: channel.map(|c| c.to_string()),
        guild_id: Some("g1".to_string()),
        self_mute: false,
        self_deaf: false,
        mute: false,
        deaf: false,
    }
}

#[test]
fn upsert_then_get_members_round_trip() {
    let mut store = GuildMemberStore::new();
    store.upsert_member("g1", member("u1", "alice", "online"));
    store.upsert_member("g1", member("u2", "bob", "idle"));
    let members = store.get_members("g1");
    assert_eq!(members.len(), 2);
    assert_eq!(members[0].user.username, "alice");
    assert_eq!(members[1].user.username, "bob");
    assert!(store.get_members("g2").is_empty());
}

#[test]
fn upsert_replaces_same_user_id() {
    let mut store = GuildMemberStore::new();
    store.upsert_member("g1", member("u1", "alice", "online"));
    store.upsert_member("g1", member("u1", "alice", "dnd"));
    let members = store.get_members("g1");
    assert_eq!(members.len(), 1);
    assert_eq!(members[0].status, "dnd");
}

#[test]
fn update_presence_touches_only_presence_fields() {
    let mut store = GuildMemberStore::new();
    store.upsert_member("g1", member("u1", "alice", "online"));
    store.update_presence(
        "g1",
        "u1",
        "idle".to_string(),
        vec![Activity {
            name: "chess".to_string(),
            activity_type: 0,
            state: None,
            details: None,
            emoji: None,
        }],
        ClientStatus { desktop: Some("idle".to_string()), mobile: None, web: None },
    );
    let members = store.get_members("g1");
    assert_eq!(members[0].status, "idle");
    assert_eq!(members[0].user.username, "alice");
    assert_eq!(members[0].activities.len(), 1);
    assert_eq!(members[0].activities[0].name, "chess");
    // Unknown member or guild: nothing changes, nothing panics.
    store.update_presence("g1", "nobody", "x".to_string(), Vec::new(), ClientStatus { desktop: None, mobile: None, web: None });
    store.update_presence("g9", "u1", "x".to_string(), Vec::new(), ClientStatus { desktop: None, mobile: None, web: None });
    assert_eq!(store.get_members("g1")[0].status, "idle");
}

#[test]
fn ensure_member_exists_adds_minimal_then_updates() {
    let mut store = GuildMemberStore::new();
    store.ensure_member_exists(
        "g1",
        user("u1", "alice"),
        "online".to_string(),
        Vec::new(),
        ClientStatus { desktop: None, mobile: None, web: None },
    );
    let members = store.get_members("g1");
    assert_eq!(members.len(), 1);
    assert!(members[0].roles.is_empty());
    assert_eq!(members[0].joined_at, "");
    // A second call for the same user only refreshes the presence.
    store.ensure_member_exists(
        "g1",
        user("u1", "alice"),
        "dnd".to_string(),
        Vec::new(),
        ClientStatus { desktop: None, mobile: None, web: None },
    );
    let members = store.get_members("g1");
    assert_eq!(members.len(), 1);
    assert_eq!(members[0].status, "dnd");
}

#[test]
fn voice_state_joins_moves_and_leaves() {
    let mut store = GuildMemberStore::new();
    store.update_voice_state("g1", voice("u1", Some("vc-1")));
    store.update_voice_state("g1", voice("u2", Some("vc-1")));
    assert_eq!(store.get_voice_states("g1").len(), 2);
    // Moving channels replaces the record.
    store.update_voice_state("g1", voice("u1", Some("vc-2")));
    let states = store.get_voice_states("g1");
    assert_eq!(states.len(), 2);
    assert_eq!(states[0].channel_id.as_deref(), Some("vc-2"));
    // A None channel means the user left voice.
    store.update_voice_state("g1", voice("u1", None));
    let states = store.get_voice_states("g1");
    assert_eq!(states.len(), 1);
    assert_eq!(states[0].user_id, "u2");
}

#[test]
fn clear_guild_forgets_members_and_voice() {
    let mut store = GuildMemberStore::new();
    store.upsert_member("g1", member("u1", "alice", "online"));
    store.upsert_member("g2", member("u2", "bob", "online"));
    store.update_voice_state("g1", voice("u1", Some("vc-1")));
    store.clear_guild("g1");
    assert!(store.get_members("g1").is_empty());
    assert!(store.get_voice_states("g1").is_empty());
    assert_eq!(store.get_members("g2").len(), 1);
}

#[test]
fn create_guild_state_starts_empty() {
    let store = create_guild_state();
    assert!(store.get_members("anything").is_empty());
    assert!(store.get_voice_states("anything").is_empty());
}

#[test]
fn audio_state_toggles() {
    let mut audio = AudioState::new();
    assert!(!audio.is_muted);
    assert!(!audio.is_deafened);
    audio.toggle_mute();
    assert!(audio.is_muted);
    assert!(!audio.is_deafened);
    audio.toggle_deafen();
    assert!(audio.is_deafened);
    audio.toggle_mute();
    assert!(!audio.is_muted);
}

#[test]
fn channel_kinds_map_to_names() {
    assert_eq!(map_channel_type(0), "Text");
    assert_eq!(map_channel_type(1), "DM");
    assert_eq!(map_channel_type(2), "Voice");
    assert_eq!(map_channel_type(3), "GroupDM");
    assert_eq!(map_channel_type(4), "Category");
    assert_eq!(map_channel_type(5), "News");
    assert_eq!(map_channel_type(10), "AnnouncementThread");
    assert_eq!(map_channel_type(11), "PublicThread");
    assert_eq!(map_channel_type(12), "PrivateThread");
    assert_eq!(map_channel_type(15), "Forum");
    assert_eq!(map_channel_type(7), "Type(7)");
    assert_eq!(map_channel_type(42), "Type(42)");
    assert_eq!(map_channel_type(123), "Type(123)");
}
