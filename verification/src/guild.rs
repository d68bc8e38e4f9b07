//! The guild member store: per guild, the members with their presence and
//! the voice states, as delivered by the gateway.  Both tables are
//! association vectors keyed by id, with uniqueness of keys as the store's
//! invariant.

use vstd::prelude::*;
use vstd::string::StrSliceExecFns;
use crate::models::Activity;
use crate::models::ClientStatus;
use crate::models::DiscordUser;
use crate::models::MemberWithPresence;
use crate::models::VoiceState;
use crate::models::same_member;
use crate::models::same_voice;

verus! {

/// One guild's member table.
pub struct GuildMembers {
    pub guild_id: String,
    pub entries: Vec<MemberWithPresence>,
}

/// One guild's voice-state table.
pub struct GuildVoice {
    pub guild_id: String,
    pub entries: Vec<VoiceState>,
}

/// Per-guild member, presence and voice state.
pub struct GuildMemberStore {
    pub members: Vec<GuildMembers>,
    pub voice_states: Vec<GuildVoice>,
}

/// Index of the guild in a member table, or -1.
pub open spec fn gm_index(s: Seq<GuildMembers>, gid: Seq<char>) -> int
    decreases s.len(),
{
    if s.len() == 0 {
        -1
    } else if s[0].guild_id@ == gid {
        0
    } else {
        let r = gm_index(s.drop_first(), gid);
        if r < 0 {
            -1
        } else {
            r + 1
        }
    }
}

/// Index of the guild in a voice table, or -1.
pub open spec fn gv_index(s: Seq<GuildVoice>, gid: Seq<char>) -> int
    decreases s.len(),
{
    if s.len() == 0 {
        -1
    } else if s[0].guild_id@ == gid {
        0
    } else {
        let r = gv_index(s.drop_first(), gid);
        if r < 0 {
            -1
        } else {
            r + 1
        }
    }
}

/// Index of the member with this user id, or -1.
pub open spec fn member_index(s: Seq<MemberWithPresence>, uid: Seq<char>) -> int
    decreases s.len(),
{
    if s.len() == 0 {
        -1
    } else if s[0].user.id@ == uid {
        0
    } else {
        let r = member_index(s.drop_first(), uid);
        if r < 0 {
            -1
        } else {
            r + 1
        }
    }
}

/// Index of the voice state with this user id, or -1.
pub open spec fn voice_index(s: Seq<VoiceState>, uid: Seq<char>) -> int
    decreases s.len(),
{
    if s.len() == 0 {
        -1
    } else if s[0].user_id@ == uid {
        0
    } else {
        let r = voice_index(s.drop_first(), uid);
        if r < 0 {
            -1
        } else {
            r + 1
        }
    }
}

/// The store's invariant: guild keys unique in both tables, and within each
/// guild the member ids and the voice user ids unique.
pub open spec fn store_wf(s: GuildMemberStore) -> bool {
    &&& forall|i: int, j: int|
        0 <= i < j < s.members@.len() ==> s.members@[i].guild_id@ != s.members@[j].guild_id@
    &&& forall|i: int, j: int|
        0 <= i < j < s.voice_states@.len() ==> s.voice_states@[i].guild_id@
            != s.voice_states@[j].guild_id@
    &&& forall|g: int, i: int, j: int|
        0 <= g < s.members@.len() && 0 <= i < j < s.members@[g].entries@.len()
            ==> s.members@[g].entries@[i].user.id@ != s.members@[g].entries@[j].user.id@
    &&& forall|g: int, i: int, j: int|
        0 <= g < s.voice_states@.len() && 0 <= i < j < s.voice_states@[g].entries@.len()
            ==> s.voice_states@[g].entries@[i].user_id@ != s.voice_states@[g].entries@[j].user_id@
}

/// A first match at index `k` fixes `gm_index`.
proof fn lemma_gm_index_at(s: Seq<GuildMembers>, gid: Seq<char>, k: int)
    requires
        0 <= k < s.len(),
        s[k].guild_id@ == gid,
        forall|t: int| 0 <= t < k ==> s[t].guild_id@ != gid,
    ensures
        gm_index(s, gid) == k,
    decreases k,
{
    if k > 0 {
        assert(s.drop_first()[k - 1] == s[k]);
        assert forall|t: int|
            0 <= t < k - 1 implies s.drop_first()[t].guild_id@ != gid by {
            assert(s.drop_first()[t] == s[t + 1]);
        }
        lemma_gm_index_at(s.drop_first(), gid, k - 1);
    }
}

/// No match anywhere gives -1.
proof fn lemma_gm_index_absent(s: Seq<GuildMembers>, gid: Seq<char>)
    requires
        forall|t: int| 0 <= t < s.len() ==> s[t].guild_id@ != gid,
    ensures
        gm_index(s, gid) == -1,
    decreases s.len(),
{
    if s.len() > 0 {
        assert forall|t: int|
            0 <= t < s.drop_first().len() implies s.drop_first()[t].guild_id@ != gid by {
            assert(s.drop_first()[t] == s[t + 1]);
        }
        lemma_gm_index_absent(s.drop_first(), gid);
    }
}

/// A first match at index `k` fixes `gv_index`.
proof fn lemma_gv_index_at(s: Seq<GuildVoice>, gid: Seq<char>, k: int)
    requires
        0 <= k < s.len(),
        s[k].guild_id@ == gid,
        forall|t: int| 0 <= t < k ==> s[t].guild_id@ != gid,
    ensures
        gv_index(s, gid) == k,
    decreases k,
{
    if k > 0 {
        assert(s.drop_first()[k - 1] == s[k]);
        assert forall|t: int|
            0 <= t < k - 1 implies s.drop_first()[t].guild_id@ != gid by {
            assert(s.drop_first()[t] == s[t + 1]);
        }
        lemma_gv_index_at(s.drop_first(), gid, k - 1);
    }
}

/// No match anywhere gives -1.
proof fn lemma_gv_index_absent(s: Seq<GuildVoice>, gid: Seq<char>)
    requires
        forall|t: int| 0 <= t < s.len() ==> s[t].guild_id@ != gid,
    ensures
        gv_index(s, gid) == -1,
    decreases s.len(),
{
    if s.len() > 0 {
        assert forall|t: int|
            0 <= t < s.drop_first().len() implies s.drop_first()[t].guild_id@ != gid by {
            assert(s.drop_first()[t] == s[t + 1]);
        }
        lemma_gv_index_absent(s.drop_first(), gid);
    }
}

/// A first match at index `k` fixes `member_index`.
proof fn lemma_member_index_at(s: Seq<MemberWithPresence>, uid: Seq<char>, k: int)
    requires
        0 <= k < s.len(),
        s[k].user.id@ == uid,
        forall|t: int| 0 <= t < k ==> s[t].user.id@ != uid,
    ensures
        member_index(s, uid) == k,
    decreases k,
{
    if k > 0 {
        assert(s.drop_first()[k - 1] == s[k]);
        assert forall|t: int|
            0 <= t < k - 1 implies s.drop_first()[t].user.id@ != uid by {
            assert(s.drop_first()[t] == s[t + 1]);
        }
        lemma_member_index_at(s.drop_first(), uid, k - 1);
    }
}

/// No match anywhere gives -1.
proof fn lemma_member_index_absent(s: Seq<MemberWithPresence>, uid: Seq<char>)
    requires
        forall|t: int| 0 <= t < s.len() ==> s[t].user.id@ != uid,
    ensures
        member_index(s, uid) == -1,
    decreases s.len(),
{
    if s.len() > 0 {
        assert forall|t: int|
            0 <= t < s.drop_first().len() implies s.drop_first()[t].user.id@ != uid by {
            assert(s.drop_first()[t] == s[t + 1]);
        }
        lemma_member_index_absent(s.drop_first(), uid);
    }
}

/// A first match at index `k` fixes `voice_index`.
proof fn lemma_voice_index_at(s: Seq<VoiceState>, uid: Seq<char>, k: int)
    requires
        0 <= k < s.len(),
        s[k].user_id@ == uid,
        forall|t: int| 0 <= t < k ==> s[t].user_id@ != uid,
    ensures
        voice_index(s, uid) == k,
    decreases k,
{
    if k > 0 {
        assert(s.drop_first()[k - 1] == s[k]);
        assert forall|t: int|
            0 <= t < k - 1 implies s.drop_first()[t].user_id@ != uid by {
            assert(s.drop_first()[t] == s[t + 1]);
        }
        lemma_voice_index_at(s.drop_first(), uid, k - 1);
    }
}

/// No match anywhere gives -1.
proof fn lemma_voice_index_absent(s: Seq<VoiceState>, uid: Seq<char>)
    requires
        forall|t: int| 0 <= t < s.len() ==> s[t].user_id@ != uid,
    ensures
        voice_index(s, uid) == -1,
    decreases s.len(),
{
    if s.len() > 0 {
        assert forall|t: int|
            0 <= t < s.drop_first().len() implies s.drop_first()[t].user_id@ != uid by {
            assert(s.drop_first()[t] == s[t + 1]);
        }
        lemma_voice_index_absent(s.drop_first(), uid);
    }
}

/// Index of the first guild entry with this id.
fn find_gm(v: &Vec<GuildMembers>, gid: &str) -> (r: Option<usize>)
    ensures
        match r {
            Some(k) => k < v@.len() && gm_index(v@, gid@) == k as int && v@[k as int].guild_id@
                == gid@ && (forall|t: int| 0 <= t < k ==> v@[t].guild_id@ != gid@),
            None => gm_index(v@, gid@) == -1 && (forall|t: int|
                0 <= t < v@.len() ==> v@[t].guild_id@ != gid@),
        },
{
    let mut i: usize = 0;
    while i < v.len()
        invariant
            i <= v@.len(),
            forall|t: int| 0 <= t < i ==> v@[t].guild_id@ != gid@,
        decreases v@.len() - i,
    {
        if str_eq(v[i].guild_id.as_str(), gid) {
            proof {
                lemma_gm_index_at(v@, gid@, i as int);
            }
            return Some(i);
        }
        i = i + 1;
    }
    proof {
        lemma_gm_index_absent(v@, gid@);
    }
    None
}

/// Index of the first voice-table entry with this guild id.
fn find_gv(v: &Vec<GuildVoice>, gid: &str) -> (r: Option<usize>)
    ensures
        match r {
            Some(k) => k < v@.len() && gv_index(v@, gid@) == k as int && v@[k as int].guild_id@
                == gid@ && (forall|t: int| 0 <= t < k ==> v@[t].guild_id@ != gid@),
            None => gv_index(v@, gid@) == -1 && (forall|t: int|
                0 <= t < v@.len() ==> v@[t].guild_id@ != gid@),
        },
{
    let mut i: usize = 0;
    while i < v.len()
        invariant
            i <= v@.len(),
            forall|t: int| 0 <= t < i ==> v@[t].guild_id@ != gid@,
        decreases v@.len() - i,
    {
        if str_eq(v[i].guild_id.as_str(), gid) {
            proof {
                lemma_gv_index_at(v@, gid@, i as int);
            }
            return Some(i);
        }
        i = i + 1;
    }
    proof {
        lemma_gv_index_absent(v@, gid@);
    }
    None
}

/// Index of the first member with this user id.
fn find_member(v: &Vec<MemberWithPresence>, uid: &str) -> (r: Option<usize>)
    ensures
        match r {
            Some(k) => k < v@.len() && member_index(v@, uid@) == k as int && v@[k as int].user.id@
                == uid@ && (forall|t: int| 0 <= t < k ==> v@[t].user.id@ != uid@),
            None => member_index(v@, uid@) == -1 && (forall|t: int|
                0 <= t < v@.len() ==> v@[t].user.id@ != uid@),
        },
{
    let mut i: usize = 0;
    while i < v.len()
        invariant
            i <= v@.len(),
            forall|t: int| 0 <= t < i ==> v@[t].user.id@ != uid@,
        decreases v@.len() - i,
    {
        if str_eq(v[i].user.id.as_str(), uid) {
            proof {
                lemma_member_index_at(v@, uid@, i as int);
            }
            return Some(i);
        }
        i = i + 1;
    }
    proof {
        lemma_member_index_absent(v@, uid@);
    }
    None
}

/// Index of the first voice state with this user id.
fn find_voice(v: &Vec<VoiceState>, uid: &str) -> (r: Option<usize>)
    ensures
        match r {
            Some(k) => k < v@.len() && voice_index(v@, uid@) == k as int && v@[k as int].user_id@
                == uid@ && (forall|t: int| 0 <= t < k ==> v@[t].user_id@ != uid@),
            None => voice_index(v@, uid@) == -1 && (forall|t: int|
                0 <= t < v@.len() ==> v@[t].user_id@ != uid@),
        },
{
    let mut i: usize = 0;
    while i < v.len()
        invariant
            i <= v@.len(),
            forall|t: int| 0 <= t < i ==> v@[t].user_id@ != uid@,
        decreases v@.len() - i,
    {
        if str_eq(v[i].user_id.as_str(), uid) {
            proof {
                lemma_voice_index_at(v@, uid@, i as int);
            }
            return Some(i);
        }
        i = i + 1;
    }
    proof {
        lemma_voice_index_absent(v@, uid@);
    }
    None
}

/// Character-wise string equality.
fn str_eq(a: &str, b: &str) -> (r: bool)
    ensures
        r == (a@ == b@),
{
    let a_len = a.unicode_len();
    let b_len = b.unicode_len();
    if a_len != b_len {
        return false;
    }
    let mut i: usize = 0;
    while i < a_len
        invariant
            i <= a_len,
            a_len == a@.len(),
            b_len == b@.len(),
            a_len == b_len,
            forall|t: int| 0 <= t < i ==> a@[t] == b@[t],
        decreases a_len - i,
    {
        if a.get_char(i) != b.get_char(i) {
            return false;
        }
        i = i + 1;
    }
    proof {
        assert(a@ =~= b@);
    }
    true
}


/// Well-formedness is preserved when the member table changed in at most
/// one group (changed in place or appended at the end), the other groups
/// and the whole voice table stayed, the guild keys are still unique, and
/// the touched group's entries have unique user ids.
proof fn lemma_wf_after_group_change(pre: GuildMemberStore, post: GuildMemberStore, k: int)
    requires
        store_wf(pre),
        post.voice_states@ == pre.voice_states@,
        pre.members@.len() <= post.members@.len() <= pre.members@.len() + 1,
        post.members@.len() == pre.members@.len() + 1 ==> k == pre.members@.len(),
        0 <= k < post.members@.len(),
        forall|j: int| 0 <= j < post.members@.len() && j != k ==> post.members@[j] == pre.members@[j],
        forall|j: int|
            0 <= j < post.members@.len() && j != k ==> post.members@[j].guild_id@
                != post.members@[k].guild_id@,
        forall|i: int, j: int|
            0 <= i < j < post.members@[k].entries@.len() ==> post.members@[k].entries@[i].user.id@
                != post.members@[k].entries@[j].user.id@,
    ensures
        store_wf(post),
{
    assert forall|i: int, j: int|
        0 <= i < j < post.members@.len() implies post.members@[i].guild_id@
        != post.members@[j].guild_id@ by {
        if i != k && j != k {
            assert(post.members@[i] == pre.members@[i]);
            assert(post.members@[j] == pre.members@[j]);
        }
    }
    assert forall|g: int, i: int, j: int|
        0 <= g < post.members@.len() && 0 <= i < j < post.members@[g].entries@.len()
        implies post.members@[g].entries@[i].user.id@ != post.members@[g].entries@[j].user.id@ by {
        if g != k {
            assert(post.members@[g] == pre.members@[g]);
        }
    }
}

/// The voice-table counterpart of `lemma_wf_after_group_change`.
proof fn lemma_wf_after_voice_change(pre: GuildMemberStore, post: GuildMemberStore, k: int)
    requires
        store_wf(pre),
        post.members@ == pre.members@,
        pre.voice_states@.len() <= post.voice_states@.len() <= pre.voice_states@.len() + 1,
        post.voice_states@.len() == pre.voice_states@.len() + 1 ==> k == pre.voice_states@.len(),
        0 <= k < post.voice_states@.len(),
        forall|j: int|
            0 <= j < post.voice_states@.len() && j != k ==> post.voice_states@[j]
                == pre.voice_states@[j],
        forall|j: int|
            0 <= j < post.voice_states@.len() && j != k ==> post.voice_states@[j].guild_id@
                != post.voice_states@[k].guild_id@,
        forall|i: int, j: int|
            0 <= i < j < post.voice_states@[k].entries@.len()
                ==> post.voice_states@[k].entries@[i].user_id@
                != post.voice_states@[k].entries@[j].user_id@,
    ensures
        store_wf(post),
{
    assert forall|i: int, j: int|
        0 <= i < j < post.voice_states@.len() implies post.voice_states@[i].guild_id@
        != post.voice_states@[j].guild_id@ by {
        if i != k && j != k {
            assert(post.voice_states@[i] == pre.voice_states@[i]);
            assert(post.voice_states@[j] == pre.voice_states@[j]);
        }
    }
    assert forall|g: int, i: int, j: int|
        0 <= g < post.voice_states@.len() && 0 <= i < j < post.voice_states@[g].entries@.len()
        implies post.voice_states@[g].entries@[i].user_id@
        != post.voice_states@[g].entries@[j].user_id@ by {
        if g != k {
            assert(post.voice_states@[g] == pre.voice_states@[g]);
        }
    }
}

impl GuildMemberStore {
    /// An empty store.
    pub fn new() -> (r: GuildMemberStore)
        ensures
            r.members@.len() == 0,
            r.voice_states@.len() == 0,
            store_wf(r),
    {
        GuildMemberStore { members: Vec::new(), voice_states: Vec::new() }
    }

    /// Adds a member to a guild, or replaces the record with the same user
    /// id.  An unknown guild gets a fresh table holding only this member.
    pub fn upsert_member(&mut self, guild_id: &str, member: MemberWithPresence)
        requires
            store_wf(*old(self)),
        ensures
            store_wf(*final(self)),
            final(self).voice_states@ == old(self).voice_states@,
            ({
                let gi = gm_index(old(self).members@, guild_id@);
                if gi == -1 {
                    &&& final(self).members@.len() == old(self).members@.len() + 1
                    &&& (forall|j: int|
                        0 <= j < old(self).members@.len() ==> final(self).members@[j] == old(self).members@[j])
                    &&& final(self).members@.last().guild_id@ == guild_id@
                    &&& final(self).members@.last().entries@ =~= seq![member]
                } else {
                    let old_entries = old(self).members@[gi].entries@;
                    let mi = member_index(old_entries, member.user.id@);
                    &&& final(self).members@.len() == old(self).members@.len()
                    &&& (forall|j: int|
                        0 <= j < old(self).members@.len() && j != gi ==> final(self).members@[j]
                            == old(self).members@[j])
                    &&& final(self).members@[gi].guild_id@ == guild_id@
                    &&& final(self).members@[gi].entries@ == (if mi == -1 {
                        old_entries.push(member)
                    } else {
                        old_entries.update(mi, member)
                    })
                }
            }),
    {
        let found = find_gm(&self.members, guild_id);
        match found {
            None => {
                let mut entries: Vec<MemberWithPresence> = Vec::new();
                entries.push(member);
                let mut gid_string = String::new();
                gid_string.push_str(guild_id);
                let ghost gsv = gid_string@;
                let ghost esv = entries@;
                self.members.push(GuildMembers { guild_id: gid_string, entries });
                proof {
                    assert(gsv =~= guild_id@);
                    assert(esv =~= seq![member]);
                    assert(final(self).members@.last().guild_id@ == guild_id@);
                    lemma_wf_after_group_change(*old(self), *final(self), old(self).members@.len() as int);
                }
            },
            Some(k) => {
                let mut g = self.members.remove(k);
                let inner = find_member(&g.entries, member.user.id.as_str());
                match inner {
                    None => {
                        g.entries.push(member);
                    },
                    Some(mi) => {
                        g.entries.remove(mi);
                        g.entries.insert(mi, member);
                        proof {
                            assert(g.entries@ =~= old(self).members@[k as int].entries@.update(
                                mi as int,
                                member,
                            ));
                        }
                    },
                }
                self.members.insert(k, g);
                proof {
                    assert(final(self).members@[k as int].entries@ == g.entries@);
                    assert(final(self).members@ =~= old(self).members@.update(
                        k as int,
                        final(self).members@[k as int],
                    ));
                    lemma_wf_after_group_change(*old(self), *final(self), k as int);
                }
            },
        }
    }

    /// Updates the presence of a member, when the guild and the member are
    /// known; otherwise nothing changes.
    pub fn update_presence(
        &mut self,
        guild_id: &str,
        user_id: &str,
        status: String,
        activities: Vec<Activity>,
        client_status: ClientStatus,
    )
        requires
            store_wf(*old(self)),
        ensures
            store_wf(*final(self)),
            final(self).voice_states@ == old(self).voice_states@,
            ({
                let gi = gm_index(old(self).members@, guild_id@);
                if gi == -1 {
                    final(self).members@ == old(self).members@
                } else {
                    let old_entries = old(self).members@[gi].entries@;
                    let mi = member_index(old_entries, user_id@);
                    if mi == -1 {
                        final(self).members@ == old(self).members@
                    } else {
                        let e_old = old_entries[mi];
                        let e_new = final(self).members@[gi].entries@[mi];
                        &&& final(self).members@.len() == old(self).members@.len()
                        &&& (forall|j: int|
                            0 <= j < old(self).members@.len() && j != gi ==> final(self).members@[j] == old(self).members@[j])
                        &&& final(self).members@[gi].guild_id@ == guild_id@
                        &&& final(self).members@[gi].entries@.len() == old_entries.len()
                        &&& (forall|t: int|
                            0 <= t < old_entries.len() && t != mi ==> final(self).members@[gi].entries@[t] == old_entries[t])
                        &&& e_new.user == e_old.user
                        &&& e_new.roles == e_old.roles
                        &&& e_new.nick == e_old.nick
                        &&& e_new.joined_at == e_old.joined_at
                        &&& e_new.status == status
                        &&& e_new.activities == activities
                        &&& e_new.client_status == client_status
                    }
                }
            }),
    {
        let found = find_gm(&self.members, guild_id);
        match found {
            None => {},
            Some(k) => {
                let inner = find_member(&self.members[k].entries, user_id);
                match inner {
                    None => {},
                    Some(mi) => {
                        let mut g = self.members.remove(k);
                        let e_old = g.entries.remove(mi);
                        let e_new = MemberWithPresence {
                            user: e_old.user,
                            roles: e_old.roles,
                            nick: e_old.nick,
                            joined_at: e_old.joined_at,
                            status,
                            activities,
                            client_status,
                        };
                        g.entries.insert(mi, e_new);
                        self.members.insert(k, g);
                        proof {
                            assert(final(self).members@ =~= old(self).members@.update(
                                k as int,
                                final(self).members@[k as int],
                            ));
                            let pre_entries = old(self).members@[k as int].entries@;
                            let post_entries = final(self).members@[k as int].entries@;
                            assert(post_entries =~= pre_entries.update(
                                mi as int,
                                post_entries[mi as int],
                            ));
                            assert(post_entries[mi as int].user == pre_entries[mi as int].user);
                            assert forall|j: int|
                                0 <= j < final(self).members@.len() && j != k implies final(self).members@[j].guild_id@ != final(self).members@[k as int].guild_id@ by {
                                if j < k {
                                    assert(old(self).members@[j].guild_id@ != old(self).members@[k as int].guild_id@);
                                } else {
                                    assert(old(self).members@[k as int].guild_id@ != old(self).members@[j].guild_id@);
                                }
                            }
                            assert forall|i: int, j: int|
                                0 <= i < j < post_entries.len() implies post_entries[i].user.id@
                                != post_entries[j].user.id@ by {
                                assert(pre_entries[i].user.id@ != pre_entries[j].user.id@);
                            }
                            lemma_wf_after_group_change(*old(self), *final(self), k as int);
                        }
                    },
                }
            },
        }
    }

    /// Makes sure a member exists: an unknown member is added with minimal
    /// fields, a known one only has its presence updated.
    pub fn ensure_member_exists(
        &mut self,
        guild_id: &str,
        user: DiscordUser,
        status: String,
        activities: Vec<Activity>,
        client_status: ClientStatus,
    )
        requires
            store_wf(*old(self)),
        ensures
            store_wf(*final(self)),
            final(self).voice_states@ == old(self).voice_states@,
            ({
                let gi = gm_index(old(self).members@, guild_id@);
                if gi == -1 {
                    &&& final(self).members@.len() == old(self).members@.len() + 1
                    &&& (forall|j: int|
                        0 <= j < old(self).members@.len() ==> final(self).members@[j] == old(self).members@[j])
                    &&& final(self).members@.last().guild_id@ == guild_id@
                    &&& final(self).members@.last().entries@.len() == 1
                    &&& final(self).members@.last().entries@[0].user == user
                    &&& final(self).members@.last().entries@[0].roles@.len() == 0
                    &&& final(self).members@.last().entries@[0].nick is None
                    &&& final(self).members@.last().entries@[0].joined_at@.len() == 0
                    &&& final(self).members@.last().entries@[0].status == status
                    &&& final(self).members@.last().entries@[0].activities == activities
                    &&& final(self).members@.last().entries@[0].client_status == client_status
                } else {
                    let old_entries = old(self).members@[gi].entries@;
                    let mi = member_index(old_entries, user.id@);
                    &&& final(self).members@.len() == old(self).members@.len()
                    &&& (forall|j: int|
                        0 <= j < old(self).members@.len() && j != gi ==> final(self).members@[j]
                            == old(self).members@[j])
                    &&& final(self).members@[gi].guild_id@ == guild_id@
                    &&& if mi == -1 {
                        &&& final(self).members@[gi].entries@.len() == old_entries.len() + 1
                        &&& (forall|t: int|
                            0 <= t < old_entries.len() ==> final(self).members@[gi].entries@[t]
                                == old_entries[t])
                        &&& final(self).members@[gi].entries@.last().user == user
                        &&& final(self).members@[gi].entries@.last().roles@.len() == 0
                        &&& final(self).members@[gi].entries@.last().nick is None
                        &&& final(self).members@[gi].entries@.last().joined_at@.len() == 0
                        &&& final(self).members@[gi].entries@.last().status == status
                        &&& final(self).members@[gi].entries@.last().activities == activities
                        &&& final(self).members@[gi].entries@.last().client_status
                            == client_status
                    } else {
                        let e_old = old_entries[mi];
                        let e_new = final(self).members@[gi].entries@[mi];
                        &&& final(self).members@[gi].entries@.len() == old_entries.len()
                        &&& (forall|t: int|
                            0 <= t < old_entries.len() && t != mi ==> final(self).members@[gi].entries@[t] == old_entries[t])
                        &&& e_new.user == e_old.user
                        &&& e_new.roles == e_old.roles
                        &&& e_new.nick == e_old.nick
                        &&& e_new.joined_at == e_old.joined_at
                        &&& e_new.status == status
                        &&& e_new.activities == activities
                        &&& e_new.client_status == client_status
                    }
                }
            }),
    {
        let found = find_gm(&self.members, guild_id);
        match found {
            None => {
                let member = MemberWithPresence {
                    user,
                    roles: Vec::new(),
                    nick: None,
                    joined_at: String::new(),
                    status,
                    activities,
                    client_status,
                };
                let mut entries: Vec<MemberWithPresence> = Vec::new();
                entries.push(member);
                let mut gid_string = String::new();
                gid_string.push_str(guild_id);
                let ghost gsv = gid_string@;
                let ghost esv = entries@;
                self.members.push(GuildMembers { guild_id: gid_string, entries });
                proof {
                    assert(gsv =~= guild_id@);
                    assert(final(self).members@.last().entries@ == esv);
                    lemma_wf_after_group_change(
                        *old(self),
                        *final(self),
                        old(self).members@.len() as int,
                    );
                }
            },
            Some(k) => {
                let inner = find_member(&self.members[k].entries, user.id.as_str());
                let mut g = self.members.remove(k);
                match inner {
                    None => {
                        let member = MemberWithPresence {
                            user,
                            roles: Vec::new(),
                            nick: None,
                            joined_at: String::new(),
                            status,
                            activities,
                            client_status,
                        };
                        g.entries.push(member);
                    },
                    Some(mi) => {
                        let e_old = g.entries.remove(mi);
                        let e_new = MemberWithPresence {
                            user: e_old.user,
                            roles: e_old.roles,
                            nick: e_old.nick,
                            joined_at: e_old.joined_at,
                            status,
                            activities,
                            client_status,
                        };
                        g.entries.insert(mi, e_new);
                        proof {
                            assert(g.entries@ =~= old(self).members@[k as int].entries@.update(
                                mi as int,
                                g.entries@[mi as int],
                            ));
                        }
                    },
                }
                self.members.insert(k, g);
                proof {
                    assert(final(self).members@ =~= old(self).members@.update(
                        k as int,
                        final(self).members@[k as int],
                    ));
                    let pre_entries = old(self).members@[k as int].entries@;
                    let post_entries = final(self).members@[k as int].entries@;
                    assert forall|j: int|
                        0 <= j < final(self).members@.len() && j != k implies final(self).members@[j].guild_id@ != final(self).members@[k as int].guild_id@ by {
                        if j < k {
                            assert(old(self).members@[j].guild_id@ != old(self).members@[k as int].guild_id@);
                        } else {
                            assert(old(self).members@[k as int].guild_id@ != old(self).members@[j].guild_id@);
                        }
                    }
                    assert forall|i: int, j: int|
                        0 <= i < j < post_entries.len() implies post_entries[i].user.id@
                        != post_entries[j].user.id@ by {
                        if j < pre_entries.len() {
                            assert(pre_entries[i].user.id@ != pre_entries[j].user.id@);
                        }
                    }
                    lemma_wf_after_group_change(*old(self), *final(self), k as int);
                }
            },
        }
    }

    /// Applies a voice-state update: leaving a channel removes the record,
    /// anything else inserts or replaces it, keyed by user id.
    pub fn update_voice_state(&mut self, guild_id: &str, voice_state: VoiceState)
        requires
            store_wf(*old(self)),
        ensures
            store_wf(*final(self)),
            final(self).members@ == old(self).members@,
            ({
                let gi = gv_index(old(self).voice_states@, guild_id@);
                if voice_state.channel_id is None {
                    if gi == -1 {
                        final(self).voice_states@ == old(self).voice_states@
                    } else {
                        let old_entries = old(self).voice_states@[gi].entries@;
                        let vi = voice_index(old_entries, voice_state.user_id@);
                        &&& final(self).voice_states@.len() == old(self).voice_states@.len()
                        &&& (forall|j: int|
                            0 <= j < old(self).voice_states@.len() && j != gi ==> final(self).voice_states@[j] == old(self).voice_states@[j])
                        &&& final(self).voice_states@[gi].guild_id@ == guild_id@
                        &&& final(self).voice_states@[gi].entries@ == (if vi == -1 {
                            old_entries
                        } else {
                            old_entries.remove(vi)
                        })
                    }
                } else {
                    if gi == -1 {
                        &&& final(self).voice_states@.len() == old(self).voice_states@.len() + 1
                        &&& (forall|j: int|
                            0 <= j < old(self).voice_states@.len() ==> final(self).voice_states@[j] == old(self).voice_states@[j])
                        &&& final(self).voice_states@.last().guild_id@ == guild_id@
                        &&& final(self).voice_states@.last().entries@ =~= seq![voice_state]
                    } else {
                        let old_entries = old(self).voice_states@[gi].entries@;
                        let vi = voice_index(old_entries, voice_state.user_id@);
                        &&& final(self).voice_states@.len() == old(self).voice_states@.len()
                        &&& (forall|j: int|
                            0 <= j < old(self).voice_states@.len() && j != gi ==> final(self).voice_states@[j] == old(self).voice_states@[j])
                        &&& final(self).voice_states@[gi].guild_id@ == guild_id@
                        &&& final(self).voice_states@[gi].entries@ == (if vi == -1 {
                            old_entries.push(voice_state)
                        } else {
                            old_entries.update(vi, voice_state)
                        })
                    }
                }
            }),
    {
        let leaving = match &voice_state.channel_id {
            None => true,
            Some(_) => false,
        };
        let found = find_gv(&self.voice_states, guild_id);
        match found {
            None => {
                if !leaving {
                    let mut entries: Vec<VoiceState> = Vec::new();
                    entries.push(voice_state);
                    let mut gid_string = String::new();
                    gid_string.push_str(guild_id);
                    let ghost gsv = gid_string@;
                    let ghost esv = entries@;
                    self.voice_states.push(GuildVoice { guild_id: gid_string, entries });
                    proof {
                        assert(gsv =~= guild_id@);
                        assert(esv =~= seq![voice_state]);
                        lemma_wf_after_voice_change(
                            *old(self),
                            *final(self),
                            old(self).voice_states@.len() as int,
                        );
                    }
                }
            },
            Some(k) => {
                let mut g = self.voice_states.remove(k);
                let inner = find_voice(&g.entries, voice_state.user_id.as_str());
                if leaving {
                    match inner {
                        None => {},
                        Some(vi) => {
                            g.entries.remove(vi);
                            proof {
                                let pre_entries = old(self).voice_states@[k as int].entries@;
                                assert(g.entries@ =~= pre_entries.remove(vi as int));
                                assert forall|i: int, j: int|
                                    0 <= i < j < g.entries@.len() implies g.entries@[i].user_id@
                                    != g.entries@[j].user_id@ by {
                                    let pi: int = if i < vi {
                                        i
                                    } else {
                                        i + 1
                                    };
                                    let pj: int = if j < vi {
                                        j
                                    } else {
                                        j + 1
                                    };
                                    assert(g.entries@[i] == pre_entries[pi]);
                                    assert(g.entries@[j] == pre_entries[pj]);
                                    assert(pre_entries[pi].user_id@ != pre_entries[pj].user_id@);
                                }
                            }
                        },
                    }
                } else {
                    match inner {
                        None => {
                            g.entries.push(voice_state);
                        },
                        Some(vi) => {
                            g.entries.remove(vi);
                            g.entries.insert(vi, voice_state);
                            proof {
                                assert(g.entries@ =~= old(self).voice_states@[k as int].entries@.update(
                                    vi as int,
                                    voice_state,
                                ));
                            }
                        },
                    }
                }
                self.voice_states.insert(k, g);
                proof {
                    assert(final(self).voice_states@ =~= old(self).voice_states@.update(
                        k as int,
                        final(self).voice_states@[k as int],
                    ));
                    let pre_entries = old(self).voice_states@[k as int].entries@;
                    let post_entries = final(self).voice_states@[k as int].entries@;
                    assert forall|j: int|
                        0 <= j < final(self).voice_states@.len() && j != k implies final(self).voice_states@[j].guild_id@ != final(self).voice_states@[k as int].guild_id@ by {
                        if j < k {
                            assert(old(self).voice_states@[j].guild_id@ != old(self).voice_states@[k as int].guild_id@);
                        } else {
                            assert(old(self).voice_states@[k as int].guild_id@ != old(self).voice_states@[j].guild_id@);
                        }
                    }
                    assert forall|i: int, j: int|
                        0 <= i < j < post_entries.len() implies post_entries[i].user_id@
                        != post_entries[j].user_id@ by {
                        if post_entries.len() == pre_entries.len() + 1 {
                            assert(post_entries[i] == pre_entries[i]);
                            if j < pre_entries.len() {
                                assert(post_entries[j] == pre_entries[j]);
                                assert(pre_entries[i].user_id@ != pre_entries[j].user_id@);
                            }
                        } else if post_entries.len() == pre_entries.len() {
                            assert(pre_entries[i].user_id@ != pre_entries[j].user_id@);
                        }
                    }
                    lemma_wf_after_voice_change(*old(self), *final(self), k as int);
                }
            },
        }
    }

    /// The members of a guild, as stored; an unknown guild yields nothing.
    pub fn get_members(&self, guild_id: &str) -> (r: Vec<MemberWithPresence>)
        ensures
            ({
                let gi = gm_index(self.members@, guild_id@);
                if gi == -1 {
                    r@.len() == 0
                } else {
                    let entries = self.members@[gi].entries@;
                    &&& r@.len() == entries.len()
                    &&& forall|t: int| 0 <= t < entries.len() ==> same_member(entries[t], r@[t])
                }
            }),
    {
        let found = find_gm(&self.members, guild_id);
        match found {
            None => Vec::new(),
            Some(k) => {
                let r = self.members[k].entries.clone();
                proof {
                    let entries = self.members@[k as int].entries@;
                    assert forall|t: int|
                        0 <= t < entries.len() implies same_member(entries[t], r@[t]) by {
                        assert(cloned::<MemberWithPresence>(entries[t], r@[t]));
                        if entries[t] == r@[t] {
                            assert(same_member(entries[t], r@[t]));
                        }
                    }
                }
                r
            },
        }
    }

    /// The voice states of a guild, as stored; an unknown guild yields
    /// nothing.
    pub fn get_voice_states(&self, guild_id: &str) -> (r: Vec<VoiceState>)
        ensures
            ({
                let gi = gv_index(self.voice_states@, guild_id@);
                if gi == -1 {
                    r@.len() == 0
                } else {
                    let entries = self.voice_states@[gi].entries@;
                    &&& r@.len() == entries.len()
                    &&& forall|t: int| 0 <= t < entries.len() ==> same_voice(entries[t], r@[t])
                }
            }),
    {
        let found = find_gv(&self.voice_states, guild_id);
        match found {
            None => Vec::new(),
            Some(k) => {
                let r = self.voice_states[k].entries.clone();
                proof {
                    let entries = self.voice_states@[k as int].entries@;
                    assert forall|t: int|
                        0 <= t < entries.len() implies same_voice(entries[t], r@[t]) by {
                        assert(cloned::<VoiceState>(entries[t], r@[t]));
                        if entries[t] == r@[t] {
                            assert(same_voice(entries[t], r@[t]));
                        }
                    }
                }
                r
            },
        }
    }

    /// Forgets a guild in both tables.
    pub fn clear_guild(&mut self, guild_id: &str)
        requires
            store_wf(*old(self)),
        ensures
            store_wf(*final(self)),
            ({
                let gi = gm_index(old(self).members@, guild_id@);
                final(self).members@ == (if gi == -1 {
                    old(self).members@
                } else {
                    old(self).members@.remove(gi)
                })
            }),
            ({
                let gi = gv_index(old(self).voice_states@, guild_id@);
                final(self).voice_states@ == (if gi == -1 {
                    old(self).voice_states@
                } else {
                    old(self).voice_states@.remove(gi)
                })
            }),
    {
        let found = find_gm(&self.members, guild_id);
        match found {
            None => {},
            Some(k) => {
                self.members.remove(k);
            },
        }
        let found_v = find_gv(&self.voice_states, guild_id);
        match found_v {
            None => {},
            Some(k) => {
                self.voice_states.remove(k);
            },
        }
    }
}

/// A fresh, empty guild state store.
pub fn create_guild_state() -> (r: GuildMemberStore)
    ensures
        r.members@.len() == 0,
        r.voice_states@.len() == 0,
        store_wf(r),
{
    GuildMemberStore::new()
}

} // verus!
