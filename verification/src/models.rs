//! Data model of the chat layer around the voice core: guilds, channels,
//! messages, members, presence and voice state, both in the shape the
//! backing service delivers them and in the simplified shape handed to the
//! frontend.  The types the member store tracks carry verified `Clone`
//! implementations, so that what a getter hands out is provably the stored
//! value.

use vstd::prelude::*;

verus! {

pub struct SimpleGuild {
    pub id: String,
    pub name: String,
    pub icon: Option<String>,
}

pub struct SimpleChannel {
    pub id: String,
    pub name: String,
    pub kind: String,
    pub parent_id: Option<String>,
    pub position: i32,
    pub last_message_id: Option<String>,
}

pub struct SimpleMessage {
    pub id: String,
    pub guild_id: String,
    pub channel_id: String,
    pub content: String,
    pub author: String,
    pub author_id: String,
    pub timestamp: String,
    pub embeds: Vec<DiscordEmbed>,
    pub attachments: Vec<DiscordAttachment>,
    pub referenced_message: Option<Box<SimpleMessage>>,
    pub message_snapshots: Vec<MessageSnapshot>,
    pub kind: String,
}

pub struct MessageSnapshot {
    pub message: SimpleMessageSnapshotData,
}

pub struct SimpleMessageSnapshotData {
    pub content: String,
    pub author: String,
    pub timestamp: String,
    pub embeds: Vec<DiscordEmbed>,
    pub attachments: Vec<DiscordAttachment>,
}

pub struct SimpleRole {
    pub id: String,
    pub name: String,
    pub color: u32,
    pub position: i32,
    pub hoist: bool,
}

pub struct SimpleMember {
    pub user: DiscordUser,
    pub roles: Vec<String>,
    pub nick: Option<String>,
    pub joined_at: String,
}

pub struct DiscordAttachment {
    pub id: String,
    pub filename: String,
    pub url: String,
    pub proxy_url: String,
    pub content_type: Option<String>,
    pub width: Option<u32>,
    pub height: Option<u32>,
}

pub struct DiscordEmbed {
    pub title: Option<String>,
    pub description: Option<String>,
    pub url: Option<String>,
    pub color: Option<u32>,
    pub footer: Option<DiscordEmbedFooter>,
    pub image: Option<DiscordEmbedImage>,
    pub thumbnail: Option<DiscordEmbedThumbnail>,
}

pub struct DiscordEmbedFooter {
    pub text: String,
    pub icon_url: Option<String>,
}

pub struct DiscordEmbedImage {
    pub url: String,
}

pub struct DiscordEmbedThumbnail {
    pub url: String,
}

pub struct DiscordUser {
    pub id: String,
    pub username: String,
    pub discriminator: String,
    pub avatar: Option<String>,
}

pub struct DiscordGuild {
    pub id: String,
    pub name: String,
    pub icon: Option<String>,
}

pub struct DiscordChannel {
    pub id: String,
    pub name: Option<String>,
    pub kind: u8,
    pub parent_id: Option<String>,
    pub position: Option<i32>,
    pub thread_metadata: Option<DiscordThreadMetadata>,
    pub last_message_id: Option<String>,
}

pub struct DiscordThreadMetadata {
    pub archived: bool,
}

pub struct DiscordMessage {
    pub id: String,
    pub content: String,
    pub author: DiscordUser,
    pub timestamp: String,
    pub channel_id: String,
    pub embeds: Vec<DiscordEmbed>,
    pub attachments: Vec<DiscordAttachment>,
    pub thread: Option<DiscordChannel>,
    pub referenced_message: Option<Box<DiscordMessage>>,
    pub message_snapshots: Option<Vec<DiscordMessageSnapshot>>,
    pub kind: u8,
}

pub struct DiscordMessageSnapshot {
    pub message: DiscordMessageSnapshotData,
}

pub struct DiscordMessageSnapshotData {
    pub content: String,
    pub author: Option<DiscordUser>,
    pub timestamp: String,
    pub embeds: Vec<DiscordEmbed>,
    pub attachments: Vec<DiscordAttachment>,
}

pub struct DiscordRole {
    pub id: String,
    pub name: String,
    pub color: u32,
    pub position: i32,
    pub hoist: bool,
}

pub struct DiscordMember {
    pub user: Option<DiscordUser>,
    pub roles: Vec<String>,
    pub nick: Option<String>,
    pub joined_at: String,
}

pub struct Activity {
    pub name: String,
    pub activity_type: u8,
    pub state: Option<String>,
    pub details: Option<String>,
    pub emoji: Option<ActivityEmoji>,
}

pub struct ActivityEmoji {
    pub name: Option<String>,
    pub id: Option<String>,
    pub animated: Option<bool>,
}

pub struct ClientStatus {
    pub desktop: Option<String>,
    pub mobile: Option<String>,
    pub web: Option<String>,
}

pub struct MemberPresence {
    pub user_id: String,
    pub guild_id: String,
    pub status: String,
    pub activities: Vec<Activity>,
    pub client_status: ClientStatus,
}

pub struct MemberWithPresence {
    pub user: DiscordUser,
    pub roles: Vec<String>,
    pub nick: Option<String>,
    pub joined_at: String,
    pub status: String,
    pub activities: Vec<Activity>,
    pub client_status: ClientStatus,
}

pub struct VoiceState {
    pub user_id: String,
    pub channel_id: Option<String>,
    pub guild_id: Option<String>,
    pub self_mute: bool,
    pub self_deaf: bool,
    pub mute: bool,
    pub deaf: bool,
}

pub struct TypingStart {
    pub user_id: String,
    pub channel_id: String,
    pub guild_id: Option<String>,
    pub timestamp: u64,
}

pub struct DiscordDMChannel {
    pub id: String,
    pub kind: u8,
    pub last_message_id: Option<String>,
    pub recipients: Vec<DiscordUser>,
    pub name: Option<String>,
    pub icon: Option<String>,
    pub owner_id: Option<String>,
}

/// Two optional strings with equal text.
pub open spec fn same_opt_str(a: Option<String>, b: Option<String>) -> bool {
    match (a, b) {
        (Some(x), Some(y)) => x@ == y@,
        (None, None) => true,
        _ => false,
    }
}

/// Two string vectors with equal texts.
pub open spec fn same_str_vec(a: Seq<String>, b: Seq<String>) -> bool {
    a.len() == b.len() && forall|i: int| 0 <= i < a.len() ==> a[i]@ == b[i]@
}

/// Two users that denote the same user.
pub open spec fn same_user(a: DiscordUser, b: DiscordUser) -> bool {
    &&& a.id@ == b.id@
    &&& a.username@ == b.username@
    &&& a.discriminator@ == b.discriminator@
    &&& same_opt_str(a.avatar, b.avatar)
}

/// Two activity emojis with the same content.
pub open spec fn same_emoji(a: ActivityEmoji, b: ActivityEmoji) -> bool {
    &&& same_opt_str(a.name, b.name)
    &&& same_opt_str(a.id, b.id)
    &&& a.animated == b.animated
}

/// Two activities with the same content.
pub open spec fn same_activity(a: Activity, b: Activity) -> bool {
    &&& a.name@ == b.name@
    &&& a.activity_type == b.activity_type
    &&& same_opt_str(a.state, b.state)
    &&& same_opt_str(a.details, b.details)
    &&& match (a.emoji, b.emoji) {
        (Some(x), Some(y)) => same_emoji(x, y),
        (None, None) => true,
        _ => false,
    }
}

/// Two activity vectors with the same content.
pub open spec fn same_activities(a: Seq<Activity>, b: Seq<Activity>) -> bool {
    a.len() == b.len() && forall|i: int| 0 <= i < a.len() ==> same_activity(a[i], b[i])
}

/// Two client statuses with the same content.
pub open spec fn same_client_status(a: ClientStatus, b: ClientStatus) -> bool {
    &&& same_opt_str(a.desktop, b.desktop)
    &&& same_opt_str(a.mobile, b.mobile)
    &&& same_opt_str(a.web, b.web)
}

/// Two member records with the same content.
pub open spec fn same_member(a: MemberWithPresence, b: MemberWithPresence) -> bool {
    &&& same_user(a.user, b.user)
    &&& same_str_vec(a.roles@, b.roles@)
    &&& same_opt_str(a.nick, b.nick)
    &&& a.joined_at@ == b.joined_at@
    &&& a.status@ == b.status@
    &&& same_activities(a.activities@, b.activities@)
    &&& same_client_status(a.client_status, b.client_status)
}

/// Two voice states with the same content.
pub open spec fn same_voice(a: VoiceState, b: VoiceState) -> bool {
    &&& a.user_id@ == b.user_id@
    &&& same_opt_str(a.channel_id, b.channel_id)
    &&& same_opt_str(a.guild_id, b.guild_id)
    &&& a.self_mute == b.self_mute
    &&& a.self_deaf == b.self_deaf
    &&& a.mute == b.mute
    &&& a.deaf == b.deaf
}

/// Clones an optional string; the text is preserved.
fn clone_opt_str(a: &Option<String>) -> (r: Option<String>)
    ensures
        same_opt_str(*a, r),
{
    match a {
        Some(s) => Some(s.clone()),
        None => None,
    }
}

impl Clone for DiscordUser {
    fn clone(&self) -> (r: Self)
        ensures
            same_user(*self, r),
    {
        DiscordUser {
            id: self.id.clone(),
            username: self.username.clone(),
            discriminator: self.discriminator.clone(),
            avatar: clone_opt_str(&self.avatar),
        }
    }
}

impl Clone for ActivityEmoji {
    fn clone(&self) -> (r: Self)
        ensures
            same_emoji(*self, r),
    {
        ActivityEmoji {
            name: clone_opt_str(&self.name),
            id: clone_opt_str(&self.id),
            animated: self.animated,
        }
    }
}

impl Clone for Activity {
    fn clone(&self) -> (r: Self)
        ensures
            same_activity(*self, r),
    {
        Activity {
            name: self.name.clone(),
            activity_type: self.activity_type,
            state: clone_opt_str(&self.state),
            details: clone_opt_str(&self.details),
            emoji: match &self.emoji {
                Some(e) => Some(e.clone()),
                None => None,
            },
        }
    }
}

impl Clone for ClientStatus {
    fn clone(&self) -> (r: Self)
        ensures
            same_client_status(*self, r),
    {
        ClientStatus {
            desktop: clone_opt_str(&self.desktop),
            mobile: clone_opt_str(&self.mobile),
            web: clone_opt_str(&self.web),
        }
    }
}

/// Clones a string vector; every text is preserved.
fn clone_str_vec(a: &Vec<String>) -> (r: Vec<String>)
    ensures
        same_str_vec(a@, r@),
{
    let mut r: Vec<String> = Vec::new();
    let mut i: usize = 0;
    while i < a.len()
        invariant
            i <= a@.len(),
            r@.len() == i,
            forall|t: int| 0 <= t < i ==> a@[t]@ == r@[t]@,
        decreases a@.len() - i,
    {
        r.push(a[i].clone());
        i = i + 1;
    }
    r
}

/// Clones an activity vector; every activity is preserved.
fn clone_activities(a: &Vec<Activity>) -> (r: Vec<Activity>)
    ensures
        same_activities(a@, r@),
{
    let mut r: Vec<Activity> = Vec::new();
    let mut i: usize = 0;
    while i < a.len()
        invariant
            i <= a@.len(),
            r@.len() == i,
            forall|t: int| 0 <= t < i ==> same_activity(a@[t], r@[t]),
        decreases a@.len() - i,
    {
        r.push(a[i].clone());
        i = i + 1;
    }
    r
}

impl Clone for MemberWithPresence {
    fn clone(&self) -> (r: Self)
        ensures
            same_member(*self, r),
    {
        MemberWithPresence {
            user: self.user.clone(),
            roles: clone_str_vec(&self.roles),
            nick: clone_opt_str(&self.nick),
            joined_at: self.joined_at.clone(),
            status: self.status.clone(),
            activities: clone_activities(&self.activities),
            client_status: self.client_status.clone(),
        }
    }
}

impl Clone for VoiceState {
    fn clone(&self) -> (r: Self)
        ensures
            same_voice(*self, r),
    {
        VoiceState {
            user_id: self.user_id.clone(),
            channel_id: clone_opt_str(&self.channel_id),
            guild_id: clone_opt_str(&self.guild_id),
            self_mute: self.self_mute,
            self_deaf: self.self_deaf,
            mute: self.mute,
            deaf: self.deaf,
        }
    }
}

/// Decimal digit character.
pub open spec fn dec_digit(d: int) -> char {
    if d == 0 {
        '0'
    } else if d == 1 {
        '1'
    } else if d == 2 {
        '2'
    } else if d == 3 {
        '3'
    } else if d == 4 {
        '4'
    } else if d == 5 {
        '5'
    } else if d == 6 {
        '6'
    } else if d == 7 {
        '7'
    } else if d == 8 {
        '8'
    } else {
        '9'
    }
}

/// Decimal rendering of a byte, without leading zeroes.
pub open spec fn dec_u8(n: int) -> Seq<char> {
    if n < 10 {
        seq![dec_digit(n)]
    } else if n < 100 {
        seq![dec_digit(n / 10), dec_digit(n % 10)]
    } else {
        seq![dec_digit(n / 100), dec_digit((n / 10) % 10), dec_digit(n % 10)]
    }
}

/// The display name of a channel kind, with unknown kinds rendered as
/// `Type(n)`.
pub open spec fn channel_kind_name(kind: u8) -> Seq<char> {
    if kind == 0 {
        "Text"@
    } else if kind == 1 {
        "DM"@
    } else if kind == 2 {
        "Voice"@
    } else if kind == 3 {
        "GroupDM"@
    } else if kind == 4 {
        "Category"@
    } else if kind == 5 {
        "News"@
    } else if kind == 10 {
        "AnnouncementThread"@
    } else if kind == 11 {
        "PublicThread"@
    } else if kind == 12 {
        "PrivateThread"@
    } else if kind == 15 {
        "Forum"@
    } else {
        "Type("@ + dec_u8(kind as int) + ")"@
    }
}

/// Decimal digit character for a value below 10.
fn dec_digit_char(d: u8) -> (r: char)
    requires
        d < 10,
    ensures
        r == dec_digit(d as int),
{
    match d {
        0 => '0',
        1 => '1',
        2 => '2',
        3 => '3',
        4 => '4',
        5 => '5',
        6 => '6',
        7 => '7',
        8 => '8',
        _ => '9',
    }
}

/// Maps a channel kind number to its display name.
pub fn map_channel_type(kind: u8) -> (r: String)
    ensures
        r@ == channel_kind_name(kind),
{
    match kind {
        0 => "Text".to_owned(),
        1 => "DM".to_owned(),
        2 => "Voice".to_owned(),
        3 => "GroupDM".to_owned(),
        4 => "Category".to_owned(),
        5 => "News".to_owned(),
        10 => "AnnouncementThread".to_owned(),
        11 => "PublicThread".to_owned(),
        12 => "PrivateThread".to_owned(),
        15 => "Forum".to_owned(),
        _ => {
            let mut out = "Type(".to_owned();
            if kind >= 100 {
                out.push(dec_digit_char(kind / 100));
            }
            if kind >= 10 {
                out.push(dec_digit_char((kind / 10) % 10));
            }
            out.push(dec_digit_char(kind % 10));
            out.push(')');
            proof {
                reveal_strlit(")");
                assert(")"@.len() == 1);
                assert(")"@[0] == ')');
                assert(out@ =~= channel_kind_name(kind));
            }
            out
        },
    }
}

} // verus!
