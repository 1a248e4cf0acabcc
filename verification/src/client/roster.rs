use vstd::prelude::*;

use crate::structs::group::{GroupId, GroupManageMsg};
use crate::structs::username::UserName;

verus! {

/// The status of a member in a group roster.
#[derive(Clone, Copy, Debug, PartialEq, Eq, Structural)]
pub enum GroupMemberStatus {
    Pending,
    Accepted,
    Banned,
}

/// A member of a group roster.
#[derive(Clone, Debug)]
pub struct RosterMember {
    pub username: UserName,
    pub is_admin: bool,
    pub status: GroupMemberStatus,
}

/// What the roster records of a member: the admin flag and the status.
pub type MemberState = (bool, GroupMemberStatus);

/// The recorded state of a member.
pub open spec fn member_state(m: RosterMember) -> MemberState {
    (m.is_admin, m.status)
}

/// Whether a member state counts as active: pending or accepted.
pub open spec fn state_active(s: MemberState) -> bool {
    s.1 == GroupMemberStatus::Pending || s.1 == GroupMemberStatus::Accepted
}

impl RosterMember {
    /// Copies the member.
    pub fn duplicate(&self) -> (m: RosterMember)
        ensures
            m.username@ == self.username@,
            member_state(m) == member_state(*self),
    {
        RosterMember { username: self.username.duplicate(), is_admin: self.is_admin, status: self.status }
    }

    /// Whether the member is pending or accepted.
    pub fn is_active(&self) -> (r: bool)
        ensures
            r == state_active(member_state(*self)),
    {
        match self.status {
            GroupMemberStatus::Pending | GroupMemberStatus::Accepted => true,
            GroupMemberStatus::Banned => false,
        }
    }
}

/// The name under which a status is stored.
pub open spec fn spec_status_str(s: GroupMemberStatus) -> Seq<char> {
    match s {
        GroupMemberStatus::Pending => "pending"@,
        GroupMemberStatus::Accepted => "accepted"@,
        GroupMemberStatus::Banned => "banned"@,
    }
}

/// The status stored under a name, if any.
pub fn status_from_str(value: &str) -> (r: Option<GroupMemberStatus>)
    ensures
        r matches Some(s) ==> spec_status_str(s) == value@,
        r is None ==> forall|s: GroupMemberStatus| spec_status_str(s) != value@,
{
    let v = value.to_owned();
    let pending = "pending".to_owned();
    let accepted = "accepted".to_owned();
    let banned = "banned".to_owned();
    if v == pending {
        Some(GroupMemberStatus::Pending)
    } else if v == accepted {
        Some(GroupMemberStatus::Accepted)
    } else if v == banned {
        Some(GroupMemberStatus::Banned)
    } else {
        proof {
            assert forall|s: GroupMemberStatus| spec_status_str(s) != value@ by {
                match s {
                    GroupMemberStatus::Pending => {},
                    GroupMemberStatus::Accepted => {},
                    GroupMemberStatus::Banned => {},
                }
            }
        }
        None
    }
}

/// The name under which a status is stored.
pub fn status_as_str(value: &GroupMemberStatus) -> (r: &'static str)
    ensures
        r@ == spec_status_str(*value),
{
    match value {
        GroupMemberStatus::Pending => "pending",
        GroupMemberStatus::Accepted => "accepted",
        GroupMemberStatus::Banned => "banned",
    }
}

/// The three status names are distinct, so a status is read back as the status stored.
pub proof fn lemma_status_names_distinct()
    ensures
        forall|a: GroupMemberStatus, b: GroupMemberStatus|
            spec_status_str(a) == spec_status_str(b) ==> a == b,
{
    reveal_strlit("pending");
    reveal_strlit("accepted");
    reveal_strlit("banned");
    assert("pending"@ != "accepted"@ && "pending"@ != "banned"@ && "accepted"@ != "banned"@) by {
        assert("pending"@.len() != "accepted"@.len());
        assert("accepted"@.len() != "banned"@.len());
        assert("pending"@[0] != "banned"@[0]);
    }
}

/// The roster as a map from username to member state.
pub open spec fn roster_map(ms: Seq<RosterMember>) -> Map<Seq<char>, MemberState>
    decreases ms.len(),
{
    if ms.len() == 0 {
        Map::empty()
    } else {
        roster_map(ms.drop_last()).insert(ms.last().username@, member_state(ms.last()))
    }
}

/// Whether name `a` sorts strictly before name `b`: compared character by character, a
/// proper prefix first.
pub open spec fn name_lt(a: Seq<char>, b: Seq<char>) -> bool
    decreases a.len(),
{
    if a.len() == 0 {
        b.len() > 0
    } else if b.len() == 0 {
        false
    } else if a[0] != b[0] {
        (a[0] as u32) < (b[0] as u32)
    } else {
        name_lt(a.drop_first(), b.drop_first())
    }
}

/// No name sorts before itself, and of two names at most one sorts before the other.
pub proof fn lemma_name_lt_asym(a: Seq<char>, b: Seq<char>)
    ensures
        name_lt(a, b) ==> !name_lt(b, a),
    decreases a.len(),
{
    if a.len() > 0 && b.len() > 0 && a[0] == b[0] {
        lemma_name_lt_asym(a.drop_first(), b.drop_first());
    }
}

/// Of two different names, one sorts before the other.
pub proof fn lemma_name_lt_total(a: Seq<char>, b: Seq<char>)
    ensures
        a != b ==> name_lt(a, b) || name_lt(b, a),
    decreases a.len(),
{
    if a.len() == 0 && b.len() == 0 {
        assert(a =~= b);
    } else if a.len() > 0 && b.len() > 0 && a[0] == b[0] {
        let ta = a.drop_first();
        let tb = b.drop_first();
        lemma_name_lt_total(ta, tb);
        if ta == tb {
            assert(ta.len() == a.len() - 1);
            assert(tb.len() == b.len() - 1);
            assert forall|i: int| 0 <= i < a.len() implies a[i] == b[i] by {
                if i > 0 {
                    assert(a[i] == ta[i - 1]);
                    assert(b[i] == tb[i - 1]);
                }
            }
            assert(a =~= b);
        }
    } else if a.len() > 0 && b.len() > 0 {
        vstd::utf8::char_u32_cast(a[0], a[0] as u32);
        vstd::utf8::char_u32_cast(b[0], b[0] as u32);
    }
}

/// Sorting before is transitive.
pub proof fn lemma_name_lt_trans(a: Seq<char>, b: Seq<char>, c: Seq<char>)
    requires
        name_lt(a, b),
        name_lt(b, c),
    ensures
        name_lt(a, c),
    decreases a.len(),
{
    if a.len() > 0 && b.len() > 0 && c.len() > 0 && a[0] == b[0] && b[0] == c[0] {
        lemma_name_lt_trans(a.drop_first(), b.drop_first(), c.drop_first());
    }
}

proof fn lemma_name_lt_skip(a: Seq<char>, b: Seq<char>, i: int)
    requires
        0 <= i <= a.len(),
        i <= b.len(),
        forall|j: int| 0 <= j < i ==> a[j] == b[j],
    ensures
        name_lt(a, b) == name_lt(a.subrange(i, a.len() as int), b.subrange(i, b.len() as int)),
    decreases i,
{
    if i > 0 {
        lemma_name_lt_skip(a.drop_first(), b.drop_first(), i - 1);
        assert(a.drop_first().subrange(i - 1, a.len() - 1) =~= a.subrange(i, a.len() as int));
        assert(b.drop_first().subrange(i - 1, b.len() - 1) =~= b.subrange(i, b.len() as int));
    } else {
        assert(a.subrange(0, a.len() as int) =~= a);
        assert(b.subrange(0, b.len() as int) =~= b);
    }
}

/// Whether name `a` sorts strictly before name `b`.
pub fn name_less(a: &str, b: &str) -> (r: bool)
    ensures
        r == name_lt(a@, b@),
{
    let n = a.unicode_len();
    let m = b.unicode_len();
    let mut i: usize = 0;
    while i < n && i < m && a.get_char(i) == b.get_char(i)
        invariant
            n == a@.len(),
            m == b@.len(),
            0 <= i <= n,
            i <= m,
            forall|j: int| 0 <= j < i ==> a@[j] == b@[j],
        decreases n - i,
    {
        i = i + 1;
    }
    proof {
        lemma_name_lt_skip(a@, b@, i as int);
    }
    if i == n {
        i < m
    } else if i == m {
        false
    } else {
        let x = a.get_char(i);
        let y = b.get_char(i);
        proof {
            let sa = a@.subrange(i as int, n as int);
            let sb = b@.subrange(i as int, m as int);
            assert(sa[0] == x && sb[0] == y);
        }
        (x as u32) < (y as u32)
    }
}

/// Whether no username occurs twice.
pub open spec fn names_unique(ms: Seq<RosterMember>) -> bool {
    forall|i: int, j: int|
        0 <= i < ms.len() && 0 <= j < ms.len() && i != j ==> #[trigger] ms[i].username@
            != #[trigger] ms[j].username@
}

proof fn lemma_roster_map_facts(ms: Seq<RosterMember>)
    requires
        names_unique(ms),
    ensures
        forall|k: Seq<char>|
            #[trigger] roster_map(ms).contains_key(k) <==> exists|i: int|
                0 <= i < ms.len() && (#[trigger] ms[i]).username@ == k,
        forall|i: int|
            0 <= i < ms.len() ==> #[trigger] roster_map(ms)[ms[i].username@] == member_state(ms[i]),
    decreases ms.len(),
{
    if ms.len() > 0 {
        let pre = ms.drop_last();
        assert forall|i: int, j: int|
            0 <= i < pre.len() && 0 <= j < pre.len() && i != j implies #[trigger] pre[i].username@
            != #[trigger] pre[j].username@ by {
            assert(pre[i] == ms[i] && pre[j] == ms[j]);
        }
        lemma_roster_map_facts(pre);
        assert(roster_map(ms) == roster_map(pre).insert(ms.last().username@, member_state(ms.last())));
        assert forall|k: Seq<char>|
            #[trigger] roster_map(ms).contains_key(k) <==> exists|i: int|
                0 <= i < ms.len() && (#[trigger] ms[i]).username@ == k by {
            if roster_map(ms).contains_key(k) && k != ms.last().username@ {
                assert(roster_map(pre).contains_key(k));
                let i = choose|i: int| 0 <= i < pre.len() && (#[trigger] pre[i]).username@ == k;
                assert(ms[i] == pre[i]);
            }
            if exists|i: int| 0 <= i < ms.len() && (#[trigger] ms[i]).username@ == k {
                let i = choose|i: int| 0 <= i < ms.len() && (#[trigger] ms[i]).username@ == k;
                if i < ms.len() - 1 {
                    assert(pre[i] == ms[i]);
                    assert(roster_map(pre).contains_key(k));
                }
            }
        }
        assert forall|i: int| 0 <= i < ms.len() implies #[trigger] roster_map(ms)[ms[i].username@]
            == member_state(ms[i]) by {
            if i < ms.len() - 1 {
                assert(pre[i] == ms[i]);
                assert(ms[i].username@ != ms[ms.len() - 1].username@);
                assert(roster_map(pre)[pre[i].username@] == member_state(pre[i]));
            }
        }
    }
}

/// A group roster: its members, each with an admin flag and a status, and a version that
/// counts the changes.
pub struct GroupRoster {
    group_id: GroupId,
    init_admin: UserName,
    members: Vec<RosterMember>,
    version: u64,
}

/// Why a roster could not be loaded or changed.
#[derive(Clone, Copy, Debug, PartialEq, Eq, Structural)]
pub enum RosterError {
    /// A username occurs twice among the stored members.
    DuplicateMember,
    /// The version counter cannot count another change.
    VersionOverflow,
}

/// Sets the state of `u`: unchanged if it already has that state.
pub open spec fn spec_upsert(m: Map<Seq<char>, MemberState>, u: Seq<char>, s: MemberState) -> (
    Map<Seq<char>, MemberState>,
    bool,
) {
    if m.contains_key(u) && m[u] == s {
        (m, false)
    } else {
        (m.insert(u, s), true)
    }
}

/// Removes `u`: unchanged if it is absent.
pub open spec fn spec_remove(m: Map<Seq<char>, MemberState>, u: Seq<char>) -> (
    Map<Seq<char>, MemberState>,
    bool,
) {
    if m.contains_key(u) {
        (m.remove(u), true)
    } else {
        (m, false)
    }
}

/// What a management message from `sender` does to the roster, and whether it changed it:
/// an active member may invite someone not yet listed; anyone not banned may accept an
/// invitation or leave; an active admin may ban anyone, unban a banned member back to
/// pending, and grant or revoke admin rights of active members.
pub open spec fn roster_step(
    m: Map<Seq<char>, MemberState>,
    sender: Seq<char>,
    msg: GroupManageMsg,
) -> (Map<Seq<char>, MemberState>, bool) {
    let sender_active = m.contains_key(sender) && state_active(m[sender]);
    let sender_admin = m.contains_key(sender) && m[sender].0 && state_active(m[sender]);
    match msg {
        GroupManageMsg::InviteSent(u) => if !sender_active || m.contains_key(u@) {
            (m, false)
        } else {
            spec_upsert(m, u@, (false, GroupMemberStatus::Pending))
        },
        GroupManageMsg::InviteAccepted => if m.contains_key(sender) && m[sender].1
            == GroupMemberStatus::Banned {
            (m, false)
        } else {
            spec_upsert(m, sender, (false, GroupMemberStatus::Accepted))
        },
        GroupManageMsg::Leave => if m.contains_key(sender) && m[sender].1
            != GroupMemberStatus::Banned {
            spec_remove(m, sender)
        } else {
            (m, false)
        },
        GroupManageMsg::Ban(u) => if !sender_admin {
            (m, false)
        } else {
            spec_upsert(m, u@, (false, GroupMemberStatus::Banned))
        },
        GroupManageMsg::Unban(u) => if sender_admin && m.contains_key(u@) && m[u@].1
            == GroupMemberStatus::Banned {
            spec_upsert(m, u@, (false, GroupMemberStatus::Pending))
        } else {
            (m, false)
        },
        GroupManageMsg::AddAdmin(u) => if sender_admin && m.contains_key(u@) && state_active(
            m[u@],
        ) {
            spec_upsert(m, u@, (true, m[u@].1))
        } else {
            (m, false)
        },
        GroupManageMsg::RemoveAdmin(u) => if sender_admin && m.contains_key(u@) && state_active(
            m[u@],
        ) {
            spec_upsert(m, u@, (false, m[u@].1))
        } else {
            (m, false)
        },
    }
}

impl View for GroupRoster {
    type V = Map<Seq<char>, MemberState>;

    closed spec fn view(&self) -> Map<Seq<char>, MemberState> {
        roster_map(self.members@)
    }
}

/// Whether `sender` is an active admin of the roster.
pub open spec fn is_active_admin(m: Map<Seq<char>, MemberState>, sender: Seq<char>) -> bool {
    m.contains_key(sender) && m[sender].0 && state_active(m[sender])
}

/// The answer of a roster step is exactly whether the roster changed.
pub proof fn lemma_roster_step_reports_change(
    m: Map<Seq<char>, MemberState>,
    sender: Seq<char>,
    msg: GroupManageMsg,
)
    ensures
        roster_step(m, sender, msg).1 <==> roster_step(m, sender, msg).0 != m,
{
    let (m2, c) = roster_step(m, sender, msg);
    if c {
        match msg {
            GroupManageMsg::Leave => {
                assert(!m2.contains_key(sender));
            },
            GroupManageMsg::InviteAccepted => {
                assert(m2[sender] == (false, GroupMemberStatus::Accepted));
            },
            GroupManageMsg::InviteSent(u) => {
                assert(m2.contains_key(u@));
            },
            GroupManageMsg::Ban(u) => {
                assert(m2[u@] == (false, GroupMemberStatus::Banned));
            },
            GroupManageMsg::Unban(u) => {
                assert(m2[u@] == (false, GroupMemberStatus::Pending));
            },
            GroupManageMsg::AddAdmin(u) => {
                assert(m2[u@] == (true, m[u@].1));
            },
            GroupManageMsg::RemoveAdmin(u) => {
                assert(m2[u@] == (false, m[u@].1));
            },
        }
    }
}

/// A sender who is not an active admin changes no one but themselves, except by inviting a
/// user not yet in the roster, who joins as a pending member without admin rights.
pub proof fn lemma_non_admin_changes_only_self_or_invitee(
    m: Map<Seq<char>, MemberState>,
    sender: Seq<char>,
    msg: GroupManageMsg,
    u: Seq<char>,
)
    requires
        !is_active_admin(m, sender),
        u != sender,
    ensures
        ({
            let m2 = roster_step(m, sender, msg).0;
            (m2.contains_key(u) == m.contains_key(u) && (m.contains_key(u) ==> m2[u] == m[u]))
                || ((msg matches GroupManageMsg::InviteSent(v) && v@ == u && !m.contains_key(u)
                && m2[u] == (false, GroupMemberStatus::Pending)))
        }),
{
}

/// Admin rights are only ever granted by an active admin, through `AddAdmin`.
pub proof fn lemma_admin_rights_from_admins(
    m: Map<Seq<char>, MemberState>,
    sender: Seq<char>,
    msg: GroupManageMsg,
    u: Seq<char>,
)
    requires
        roster_step(m, sender, msg).0.contains_key(u),
        roster_step(m, sender, msg).0[u].0,
        !(m.contains_key(u) && m[u].0),
    ensures
        is_active_admin(m, sender),
        msg matches GroupManageMsg::AddAdmin(v) && v@ == u,
{
}

/// A banned member stays banned until an active admin unbans them.
pub proof fn lemma_banned_until_unbanned(
    m: Map<Seq<char>, MemberState>,
    sender: Seq<char>,
    msg: GroupManageMsg,
    u: Seq<char>,
)
    requires
        m.contains_key(u),
        m[u].1 == GroupMemberStatus::Banned,
        !(is_active_admin(m, sender) && (msg matches GroupManageMsg::Unban(v) && v@ == u)),
    ensures
        roster_step(m, sender, msg).0.contains_key(u),
        roster_step(m, sender, msg).0[u].1 == GroupMemberStatus::Banned,
{
}

/// A ban from an active admin records the user as a banned non-admin, whether or not the user
/// was listed before; it reports a change unless the user was already exactly that.
pub proof fn lemma_admin_ban_records(
    m: Map<Seq<char>, MemberState>,
    sender: Seq<char>,
    u: UserName,
)
    requires
        is_active_admin(m, sender),
    ensures
        roster_step(m, sender, GroupManageMsg::Ban(u)).0 == m.insert(
            u@,
            (false, GroupMemberStatus::Banned),
        ),
        roster_step(m, sender, GroupManageMsg::Ban(u)).0.contains_key(u@),
        roster_step(m, sender, GroupManageMsg::Ban(u)).0[u@] == (false, GroupMemberStatus::Banned),
        roster_step(m, sender, GroupManageMsg::Ban(u)).1 == !(m.contains_key(u@) && m[u@] == (
            false,
            GroupMemberStatus::Banned,
        )),
{
    if m.contains_key(u@) && m[u@] == (false, GroupMemberStatus::Banned) {
        assert(m.insert(u@, (false, GroupMemberStatus::Banned)) =~= m);
    }
}

/// Accepting an invitation lists the sender as an accepted non-admin, unless the sender is
/// banned, in which case nothing changes.
pub proof fn lemma_accept_unless_banned(m: Map<Seq<char>, MemberState>, sender: Seq<char>)
    ensures
        m.contains_key(sender) && m[sender].1 == GroupMemberStatus::Banned ==> roster_step(
            m,
            sender,
            GroupManageMsg::InviteAccepted,
        ) == (m, false),
        !(m.contains_key(sender) && m[sender].1 == GroupMemberStatus::Banned) ==> roster_step(
            m,
            sender,
            GroupManageMsg::InviteAccepted,
        ).0 == m.insert(sender, (false, GroupMemberStatus::Accepted)),
{
    if m.contains_key(sender) && m[sender] == (false, GroupMemberStatus::Accepted) {
        assert(m.insert(sender, (false, GroupMemberStatus::Accepted)) =~= m);
    }
}

/// A user an active admin bans cannot get back in by accepting an invitation: the accept
/// changes nothing and the user stays banned.
pub proof fn lemma_ban_then_accept(m: Map<Seq<char>, MemberState>, admin: Seq<char>, u: UserName)
    requires
        is_active_admin(m, admin),
    ensures
        ({
            let banned = roster_step(m, admin, GroupManageMsg::Ban(u)).0;
            &&& roster_step(banned, u@, GroupManageMsg::InviteAccepted) == (banned, false)
            &&& banned[u@] == (false, GroupMemberStatus::Banned)
        }),
{
    lemma_admin_ban_records(m, admin, u);
    let banned = roster_step(m, admin, GroupManageMsg::Ban(u)).0;
    lemma_accept_unless_banned(banned, u@);
}

/// A member who leaves is no longer listed, unless banned: a banned member's leave, and the
/// leave of someone not listed, change nothing.
pub proof fn lemma_leave_removes(m: Map<Seq<char>, MemberState>, sender: Seq<char>)
    ensures
        m.contains_key(sender) && m[sender].1 != GroupMemberStatus::Banned ==> roster_step(
            m,
            sender,
            GroupManageMsg::Leave,
        ) == (m.remove(sender), true),
        !(m.contains_key(sender) && m[sender].1 != GroupMemberStatus::Banned) ==> roster_step(
            m,
            sender,
            GroupManageMsg::Leave,
        ) == (m, false),
        !roster_step(m, sender, GroupManageMsg::Leave).0.contains_key(sender) || (m.contains_key(
            sender,
        ) && m[sender].1 == GroupMemberStatus::Banned),
{
}

/// An invitation from an active member lists a user not yet listed as a pending non-admin;
/// any other invitation changes nothing.
pub proof fn lemma_invite_adds_pending(m: Map<Seq<char>, MemberState>, sender: Seq<char>, u: UserName)
    ensures
        m.contains_key(sender) && state_active(m[sender]) && !m.contains_key(u@) ==> roster_step(
            m,
            sender,
            GroupManageMsg::InviteSent(u),
        ) == (m.insert(u@, (false, GroupMemberStatus::Pending)), true),
        !(m.contains_key(sender) && state_active(m[sender]) && !m.contains_key(u@)) ==> roster_step(
            m,
            sender,
            GroupManageMsg::InviteSent(u),
        ) == (m, false),
{
}

/// An unban by an active admin turns a banned user into a pending non-admin; nothing else
/// changes, and no other unban changes anything.
pub proof fn lemma_unban_makes_pending(m: Map<Seq<char>, MemberState>, sender: Seq<char>, u: UserName)
    ensures
        is_active_admin(m, sender) && m.contains_key(u@) && m[u@].1 == GroupMemberStatus::Banned
            ==> roster_step(m, sender, GroupManageMsg::Unban(u)) == (m.insert(
            u@,
            (false, GroupMemberStatus::Pending),
        ), true),
        !(is_active_admin(m, sender) && m.contains_key(u@) && m[u@].1 == GroupMemberStatus::Banned)
            ==> roster_step(m, sender, GroupManageMsg::Unban(u)) == (m, false),
{
}

/// Making a member an admin, or taking the right away, by an active admin changes only that
/// member's admin flag and only for an active member; it leaves the member's status.
pub proof fn lemma_admin_flag_changes(
    m: Map<Seq<char>, MemberState>,
    sender: Seq<char>,
    u: UserName,
    make_admin: bool,
)
    ensures
        ({
            let msg = if make_admin {
                GroupManageMsg::AddAdmin(u)
            } else {
                GroupManageMsg::RemoveAdmin(u)
            };
            &&& is_active_admin(m, sender) && m.contains_key(u@) && state_active(m[u@])
                ==> roster_step(m, sender, msg).0 == m.insert(u@, (make_admin, m[u@].1))
            &&& !(is_active_admin(m, sender) && m.contains_key(u@) && state_active(m[u@]))
                ==> roster_step(m, sender, msg) == (m, false)
        }),
{
    if m.contains_key(u@) && m[u@] == (make_admin, m[u@].1) {
        assert(m.insert(u@, (make_admin, m[u@].1)) =~= m);
    }
}

impl GroupRoster {
    /// Whether the stored members have distinct usernames.
    pub closed spec fn wf(&self) -> bool {
        names_unique(self.members@)
    }

    /// The number of changes recorded.
    pub closed spec fn spec_version(&self) -> u64 {
        self.version
    }

    /// The group this roster belongs to.
    pub closed spec fn spec_group_id(&self) -> GroupId {
        self.group_id
    }

    /// The group's initial admin.
    pub closed spec fn spec_init_admin(&self) -> Seq<char> {
        self.init_admin@
    }

    fn find(&self, username: &UserName) -> (r: Option<usize>)
        requires
            self.wf(),
        ensures
            r matches Some(i) ==> i < self.members@.len() && self.members@[i as int].username@
                == username@,
            r is None ==> !self@.contains_key(username@),
    {
        proof {
            lemma_roster_map_facts(self.members@);
        }
        let mut i: usize = 0;
        while i < self.members.len()
            invariant
                0 <= i <= self.members@.len(),
                forall|j: int| 0 <= j < i ==> self.members@[j].username@ != username@,
            decreases self.members@.len() - i,
        {
            if self.members[i].username == *username {
                return Some(i);
            }
            i = i + 1;
        }
        None
    }

    /// Sets a member's state, as `spec_upsert` says; answers whether anything changed.
    fn upsert_member(&mut self, member: RosterMember) -> (changed: bool)
        requires
            old(self).wf(),
        ensures
            final(self).wf(),
            (final(self)@, changed) == spec_upsert(
                old(self)@,
                member.username@,
                member_state(member),
            ),
            final(self).version == old(self).version,
            final(self).group_id == old(self).group_id,
            final(self).init_admin == old(self).init_admin,
    {
        proof {
            lemma_roster_map_facts(self.members@);
        }
        let ghost before = self.members@;
        match self.find(&member.username) {
            Some(i) => {
                if self.members[i].is_admin == member.is_admin && self.members[i].status
                    == member.status {
                    return false;
                }
                let ghost u = member.username@;
                let ghost s = member_state(member);
                self.members.set(i, member);
                proof {
                    assert forall|a: int, b: int|
                        0 <= a < self.members@.len() && 0 <= b < self.members@.len() && a != b implies #[trigger] self.members@[a].username@
                        != #[trigger] self.members@[b].username@ by {
                        assert(self.members@[a].username@ == before[a].username@);
                        assert(self.members@[b].username@ == before[b].username@);
                    }
                    lemma_roster_map_facts(self.members@);
                    assert(self@ =~= roster_map(before).insert(u, s)) by {
                        assert forall|k: Seq<char>| #[trigger] self@.contains_key(k) <==> roster_map(
                            before,
                        ).insert(u, s).contains_key(k) by {
                            if self@.contains_key(k) {
                                let j = choose|j: int|
                                    0 <= j < self.members@.len() && (#[trigger] self.members@[j]).username@
                                        == k;
                                assert(before[j].username@ == k);
                            }
                            if roster_map(before).contains_key(k) {
                                let j = choose|j: int|
                                    0 <= j < before.len() && (#[trigger] before[j]).username@ == k;
                                assert(self.members@[j].username@ == k);
                            }
                        }
                        assert forall|k: Seq<char>| #[trigger] self@.contains_key(k) implies self@[k]
                            == roster_map(before).insert(u, s)[k] by {
                            let j = choose|j: int|
                                0 <= j < self.members@.len() && (#[trigger] self.members@[j]).username@
                                    == k;
                            if j != i {
                                assert(self.members@[j] == before[j]);
                            }
                        }
                    }
                }
                true
            },
            None => {
                let ghost u = member.username@;
                let ghost s = member_state(member);
                self.members.push(member);
                proof {
                    assert(self.members@.drop_last() =~= before);
                    assert forall|a: int, b: int|
                        0 <= a < self.members@.len() && 0 <= b < self.members@.len() && a != b implies #[trigger] self.members@[a].username@
                        != #[trigger] self.members@[b].username@ by {
                        if a < before.len() && b < before.len() {
                            assert(self.members@[a] == before[a]);
                            assert(self.members@[b] == before[b]);
                        } else if a < before.len() {
                            assert(self.members@[a] == before[a]);
                            assert(roster_map(before).contains_key(before[a].username@));
                        } else {
                            assert(self.members@[b] == before[b]);
                            assert(roster_map(before).contains_key(before[b].username@));
                        }
                    }
                }
                true
            },
        }
    }

    /// Removes a member, as `spec_remove` says; answers whether anything changed.
    fn remove_member(&mut self, username: &UserName) -> (changed: bool)
        requires
            old(self).wf(),
        ensures
            final(self).wf(),
            (final(self)@, changed) == spec_remove(old(self)@, username@),
            final(self).version == old(self).version,
            final(self).group_id == old(self).group_id,
            final(self).init_admin == old(self).init_admin,
    {
        proof {
            lemma_roster_map_facts(self.members@);
        }
        let ghost before = self.members@;
        match self.find(username) {
            Some(i) => {
                self.members.remove(i);
                proof {
                    let after = self.members@;
                    assert forall|j: int| 0 <= j < after.len() implies #[trigger] after[j] == if j < i {
                        before[j]
                    } else {
                        before[j + 1]
                    } by {}
                    assert forall|a: int, b: int|
                        0 <= a < after.len() && 0 <= b < after.len() && a != b implies #[trigger] after[a].username@
                        != #[trigger] after[b].username@ by {
                        let a2 = if a < i { a } else { a + 1 };
                        let b2 = if b < i { b } else { b + 1 };
                        assert(after[a] == before[a2]);
                        assert(after[b] == before[b2]);
                    }
                    lemma_roster_map_facts(after);
                    let u = username@;
                    assert(self@ =~= roster_map(before).remove(u)) by {
                        assert forall|k: Seq<char>| #[trigger] self@.contains_key(k) <==> roster_map(
                            before,
                        ).remove(u).contains_key(k) by {
                            if self@.contains_key(k) {
                                let j = choose|j: int|
                                    0 <= j < after.len() && (#[trigger] after[j]).username@ == k;
                                let j2 = if j < i { j } else { j + 1 };
                                assert(after[j] == before[j2]);
                                assert(j2 != i);
                            }
                            if roster_map(before).remove(u).contains_key(k) {
                                let j = choose|j: int|
                                    0 <= j < before.len() && (#[trigger] before[j]).username@ == k;
                                assert(j != i);
                                let j1 = if j < i { j } else { j - 1 };
                                assert(after[j1] == before[j]);
                            }
                        }
                        assert forall|k: Seq<char>| #[trigger] self@.contains_key(k) implies self@[k]
                            == roster_map(before).remove(u)[k] by {
                            let j = choose|j: int|
                                0 <= j < after.len() && (#[trigger] after[j]).username@ == k;
                            let j2 = if j < i { j } else { j + 1 };
                            assert(after[j] == before[j2]);
                        }
                    }
                }
                true
            },
            None => false,
        }
    }

    /// Builds a roster from its stored members and version; a fresh roster (version 0) gets
    /// its initial admin as an accepted admin, at version 1.
    pub fn load(group_id: GroupId, init_admin: UserName, members: Vec<RosterMember>, version: u64) -> (r:
        Result<GroupRoster, RosterError>)
        ensures
            r is Err <==> !names_unique(members@),
            r matches Err(e) ==> e == RosterError::DuplicateMember,
            r matches Ok(g) ==> {
                &&& g.wf()
                &&& g.spec_group_id() == group_id
                &&& g.spec_init_admin() == init_admin@
                &&& version == 0 ==> g@ == roster_map(members@).insert(
                    init_admin@,
                    (true, GroupMemberStatus::Accepted),
                ) && g.spec_version() == 1
                &&& version != 0 ==> g@ == roster_map(members@) && g.spec_version() == version
            },
    {
        let mut i: usize = 0;
        while i < members.len()
            invariant
                0 <= i <= members@.len(),
                forall|a: int, b: int|
                    0 <= a < i && 0 <= b < members@.len() && a != b ==> #[trigger] members@[a].username@
                        != #[trigger] members@[b].username@,
            decreases members@.len() - i,
        {
            let mut j: usize = 0;
            while j < members.len()
                invariant
                    0 <= i < members@.len(),
                    0 <= j <= members@.len(),
                    forall|a: int, b: int|
                        0 <= a < i && 0 <= b < members@.len() && a != b ==> #[trigger] members@[a].username@
                            != #[trigger] members@[b].username@,
                    forall|b: int|
                        0 <= b < j && b != i ==> members@[i as int].username@ != #[trigger] members@[b].username@,
                decreases members@.len() - j,
            {
                if j != i && members[i].username == members[j].username {
                    return Err(RosterError::DuplicateMember);
                }
                j = j + 1;
            }
            i = i + 1;
        }
        let mut roster = GroupRoster { group_id, init_admin: init_admin.duplicate(), members, version };
        if version == 0 {
            let admin = RosterMember {
                username: init_admin,
                is_admin: true,
                status: GroupMemberStatus::Accepted,
            };
            let _ = roster.upsert_member(admin);
            roster.version = 1;
        }
        Ok(roster)
    }

    /// The members of the roster, ordered by username.
    pub fn list(&self) -> (r: Vec<RosterMember>)
        requires
            self.wf(),
        ensures
            names_unique(r@),
            roster_map(r@) == self@,
            forall|a: int, b: int|
                0 <= a < b < r@.len() ==> name_lt(
                    #[trigger] r@[a].username@,
                    #[trigger] r@[b].username@,
                ),
    {
        let ghost ms = self.members@;
        let mut out: Vec<RosterMember> = Vec::new();
        let ghost mut perm: Seq<int> = Seq::empty();
        let ghost mut pos: Seq<int> = Seq::empty();
        let mut i: usize = 0;
        while i < self.members.len()
            invariant
                ms == self.members@,
                names_unique(ms),
                0 <= i <= ms.len(),
                out@.len() == i,
                perm.len() == i,
                pos.len() == i,
                forall|a: int, b: int|
                    0 <= a < b < out@.len() ==> name_lt(
                        #[trigger] out@[a].username@,
                        #[trigger] out@[b].username@,
                    ),
                forall|j: int|
                    0 <= j < out@.len() ==> 0 <= #[trigger] perm[j] < i && out@[j].username@
                        == ms[perm[j]].username@ && member_state(out@[j]) == member_state(
                        ms[perm[j]],
                    ),
                forall|t: int|
                    0 <= t < i ==> 0 <= #[trigger] pos[t] < out@.len() && out@[pos[t]].username@
                        == ms[t].username@,
            decreases ms.len() - i,
        {
            let m = self.members[i].duplicate();
            let mut p: usize = 0;
            while p < out.len() && !name_less(m.username.as_str(), out[p].username.as_str())
                invariant
                    0 <= p <= out@.len(),
                    forall|q: int| 0 <= q < p ==> !name_lt(m.username@, #[trigger] out@[q].username@),
                decreases out@.len() - p,
            {
                p = p + 1;
            }
            let ghost old_out = out@;
            proof {
                assert forall|q: int| 0 <= q < old_out.len() implies #[trigger] old_out[q].username@
                    != m.username@ by {
                    assert(ms[perm[q]].username@ != ms[i as int].username@);
                }
                assert forall|q: int| 0 <= q < p implies name_lt(
                    #[trigger] old_out[q].username@,
                    m.username@,
                ) by {
                    lemma_name_lt_total(old_out[q].username@, m.username@);
                }
                if p < old_out.len() {
                    assert forall|q: int| p <= q < old_out.len() implies name_lt(
                        m.username@,
                        #[trigger] old_out[q].username@,
                    ) by {
                        if q > p {
                            lemma_name_lt_trans(m.username@, old_out[p as int].username@, old_out[q].username@);
                        }
                    }
                }
            }
            out.insert(p, m);
            proof {
                let ghost old_perm = perm;
                let ghost old_pos = pos;
                perm = old_perm.insert(p as int, i as int);
                pos = Seq::new(
                    i as nat + 1,
                    |t: int| if t == i { p as int } else if old_pos[t] >= p { old_pos[t] + 1 } else { old_pos[t] },
                );
                assert forall|a: int, b: int|
                    0 <= a < b < out@.len() implies name_lt(
                    #[trigger] out@[a].username@,
                    #[trigger] out@[b].username@,
                ) by {
                    if a < p && b < p {
                        assert(out@[a] == old_out[a] && out@[b] == old_out[b]);
                    } else if a < p && b == p {
                        assert(out@[a] == old_out[a]);
                    } else if a < p {
                        assert(out@[a] == old_out[a] && out@[b] == old_out[b - 1]);
                        lemma_name_lt_trans(old_out[a].username@, m.username@, old_out[b - 1].username@);
                    } else if a == p {
                        assert(out@[b] == old_out[b - 1]);
                    } else {
                        assert(out@[a] == old_out[a - 1] && out@[b] == old_out[b - 1]);
                    }
                }
                assert forall|j: int| 0 <= j < out@.len() implies 0 <= #[trigger] perm[j] < i + 1
                    && out@[j].username@ == ms[perm[j]].username@ && member_state(out@[j])
                    == member_state(ms[perm[j]]) by {
                    if j < p {
                        assert(out@[j] == old_out[j] && perm[j] == old_perm[j]);
                    } else if j > p {
                        assert(out@[j] == old_out[j - 1] && perm[j] == old_perm[j - 1]);
                    }
                }
                assert forall|t: int| 0 <= t < i + 1 implies 0 <= #[trigger] pos[t] < out@.len()
                    && out@[pos[t]].username@ == ms[t].username@ by {
                    if t < i {
                        let q = old_pos[t];
                        if q >= p {
                            assert(out@[q + 1] == old_out[q]);
                        } else {
                            assert(out@[q] == old_out[q]);
                        }
                    }
                }
            }
            i = i + 1;
        }
        proof {
            assert forall|a: int, b: int|
                0 <= a < out@.len() && 0 <= b < out@.len() && a != b implies #[trigger] out@[a].username@
                != #[trigger] out@[b].username@ by {
                if a < b {
                    lemma_name_lt_asym(out@[a].username@, out@[b].username@);
                    lemma_name_lt_asym(out@[a].username@, out@[a].username@);
                } else {
                    lemma_name_lt_asym(out@[b].username@, out@[b].username@);
                }
            }
            lemma_roster_map_facts(ms);
            lemma_roster_map_facts(out@);
            assert forall|k: Seq<char>| #[trigger] roster_map(out@).contains_key(k) <==> roster_map(ms).contains_key(k) by {
                if roster_map(out@).contains_key(k) {
                    let j = choose|j: int| 0 <= j < out@.len() && (#[trigger] out@[j]).username@ == k;
                    assert(ms[perm[j]].username@ == k);
                }
                if roster_map(ms).contains_key(k) {
                    let t = choose|t: int| 0 <= t < ms.len() && (#[trigger] ms[t]).username@ == k;
                    assert(out@[pos[t]].username@ == k);
                }
            }
            assert forall|k: Seq<char>| #[trigger] roster_map(out@).contains_key(k) implies roster_map(out@)[k] == roster_map(ms)[k] by {
                let j = choose|j: int| 0 <= j < out@.len() && (#[trigger] out@[j]).username@ == k;
                assert(ms[perm[j]].username@ == k);
            }
            assert(roster_map(out@) =~= roster_map(ms));
        }
        out
    }

    /// The member with the given username, if any.
    pub fn get(&self, username: &UserName) -> (r: Option<RosterMember>)
        requires
            self.wf(),
        ensures
            r is Some <==> self@.contains_key(username@),
            r matches Some(m) ==> m.username@ == username@ && member_state(m) == self@[username@],
    {
        proof {
            lemma_roster_map_facts(self.members@);
        }
        match self.find(username) {
            Some(i) => Some(RosterMember {
                username: self.members[i].username.duplicate(),
                is_admin: self.members[i].is_admin,
                status: self.members[i].status,
            }),
            None => None,
        }
    }

    /// The number of changes recorded.
    pub fn version(&self) -> (v: u64)
        ensures
            v == self.spec_version(),
    {
        self.version
    }

    /// Whether a management message from `sender` would change the roster.
    fn step_changes(&self, sender: &UserName, manage: &GroupManageMsg) -> (c: bool)
        requires
            self.wf(),
        ensures
            c == roster_step(self@, sender@, *manage).1,
    {
        let sender_member = self.get(sender);
        let sender_active = match &sender_member {
            Some(member) => member.is_active(),
            None => false,
        };
        let sender_admin = match &sender_member {
            Some(member) => member.is_admin && member.is_active(),
            None => false,
        };
        match manage {
            GroupManageMsg::InviteSent(username) => {
                if !sender_active {
                    false
                } else {
                    match self.get(username) {
                        Some(_) => false,
                        None => true,
                    }
                }
            },
            GroupManageMsg::InviteAccepted => match &sender_member {
                Some(member) => member.status != GroupMemberStatus::Banned && !(!member.is_admin
                    && member.status == GroupMemberStatus::Accepted),
                None => true,
            },
            GroupManageMsg::Leave => match &sender_member {
                Some(member) => member.status != GroupMemberStatus::Banned,
                None => false,
            },
            GroupManageMsg::Ban(username) => {
                if !sender_admin {
                    false
                } else {
                    match self.get(username) {
                        Some(member) => !(!member.is_admin && member.status
                            == GroupMemberStatus::Banned),
                        None => true,
                    }
                }
            },
            GroupManageMsg::Unban(username) => {
                if !sender_admin {
                    false
                } else {
                    match self.get(username) {
                        Some(member) => member.status == GroupMemberStatus::Banned,
                        None => false,
                    }
                }
            },
            GroupManageMsg::AddAdmin(username) => {
                if !sender_admin {
                    false
                } else {
                    match self.get(username) {
                        Some(member) => member.is_active() && !member.is_admin,
                        None => false,
                    }
                }
            },
            GroupManageMsg::RemoveAdmin(username) => {
                if !sender_admin {
                    false
                } else {
                    match self.get(username) {
                        Some(member) => member.is_active() && member.is_admin,
                        None => false,
                    }
                }
            },
        }
    }

    /// Applies a message that changes a member other than by the sender's own standing:
    /// invitations, bans, unbans and admin rights.
    fn apply_to_subject(&mut self, sender: &UserName, manage: GroupManageMsg) -> (changed: bool)
        requires
            old(self).wf(),
            !(manage is InviteAccepted || manage is Leave),
        ensures
            final(self).wf(),
            (final(self)@, changed) == roster_step(old(self)@, sender@, manage),
            final(self).version == old(self).version,
            final(self).group_id == old(self).group_id,
            final(self).init_admin == old(self).init_admin,
    {
        let sender_member = self.get(sender);
        let sender_active = match &sender_member {
            Some(member) => member.is_active(),
            None => false,
        };
        let sender_admin = match &sender_member {
            Some(member) => member.is_admin && member.is_active(),
            None => false,
        };
        match manage {
            GroupManageMsg::InviteSent(username) => {
                if !sender_active {
                    false
                } else {
                    match self.get(&username) {
                        Some(_) => false,
                        None => self.upsert_member(
                            RosterMember {
                                username,
                                is_admin: false,
                                status: GroupMemberStatus::Pending,
                            },
                        ),
                    }
                }
            },
            GroupManageMsg::Ban(username) => {
                if !sender_admin {
                    false
                } else {
                    self.upsert_member(
                        RosterMember { username, is_admin: false, status: GroupMemberStatus::Banned },
                    )
                }
            },
            GroupManageMsg::Unban(username) => {
                if !sender_admin {
                    false
                } else {
                    match self.get(&username) {
                        Some(member) => {
                            if member.status == GroupMemberStatus::Banned {
                                self.upsert_member(
                                    RosterMember {
                                        username,
                                        is_admin: false,
                                        status: GroupMemberStatus::Pending,
                                    },
                                )
                            } else {
                                false
                            }
                        },
                        None => false,
                    }
                }
            },
            GroupManageMsg::AddAdmin(username) => {
                if !sender_admin {
                    false
                } else {
                    match self.get(&username) {
                        Some(member) => {
                            if member.is_active() {
                                self.upsert_member(
                                    RosterMember { username, is_admin: true, status: member.status },
                                )
                            } else {
                                false
                            }
                        },
                        None => false,
                    }
                }
            },
            GroupManageMsg::RemoveAdmin(username) => {
                if !sender_admin {
                    false
                } else {
                    match self.get(&username) {
                        Some(member) => {
                            if member.is_active() {
                                self.upsert_member(
                                    RosterMember { username, is_admin: false, status: member.status },
                                )
                            } else {
                                false
                            }
                        },
                        None => false,
                    }
                }
            },
            _ => false,
        }
    }

    /// Applies a message about the sender's own membership: accepting an invitation or leaving.
    fn apply_to_sender(&mut self, sender: &UserName, manage: GroupManageMsg) -> (changed: bool)
        requires
            old(self).wf(),
            manage is InviteAccepted || manage is Leave,
        ensures
            final(self).wf(),
            (final(self)@, changed) == roster_step(old(self)@, sender@, manage),
            final(self).version == old(self).version,
            final(self).group_id == old(self).group_id,
            final(self).init_admin == old(self).init_admin,
    {
        match manage {
            GroupManageMsg::InviteAccepted => {
                match self.get(sender) {
                    Some(member) => {
                        if member.status == GroupMemberStatus::Banned {
                            false
                        } else {
                            self.upsert_member(
                                RosterMember {
                                    username: sender.duplicate(),
                                    is_admin: false,
                                    status: GroupMemberStatus::Accepted,
                                },
                            )
                        }
                    },
                    None => self.upsert_member(
                        RosterMember {
                            username: sender.duplicate(),
                            is_admin: false,
                            status: GroupMemberStatus::Accepted,
                        },
                    ),
                }
            },
            _ => {
                match self.get(sender) {
                    Some(member) => {
                        if member.status == GroupMemberStatus::Banned {
                            false
                        } else {
                            self.remove_member(sender)
                        }
                    },
                    None => false,
                }
            },
        }
    }

    /// Applies a management message from `sender`, as `roster_step` says, and counts the
    /// change in the version; answers whether the roster changed.
    pub fn apply_manage_message(&mut self, sender: &UserName, manage: GroupManageMsg) -> (r: Result<
        bool,
        RosterError,
    >)
        requires
            old(self).wf(),
        ensures
            final(self).wf(),
            final(self).spec_group_id() == old(self).spec_group_id(),
            final(self).spec_init_admin() == old(self).spec_init_admin(),
            r is Err <==> roster_step(old(self)@, sender@, manage).1 && old(self).spec_version()
                == u64::MAX,
            r matches Err(e) ==> e == RosterError::VersionOverflow && final(self)@ == old(self)@
                && final(self).spec_version() == old(self).spec_version(),
            r matches Ok(changed) ==> {
                &&& (final(self)@, changed) == roster_step(old(self)@, sender@, manage)
                &&& final(self).spec_version() == if changed {
                    old(self).spec_version() + 1
                } else {
                    old(self).spec_version() as int
                }
            },
    {
        if self.step_changes(sender, &manage) && self.version == u64::MAX {
            return Err(RosterError::VersionOverflow);
        }
        let changed = match manage {
            GroupManageMsg::InviteAccepted => self.apply_to_sender(sender, manage),
            GroupManageMsg::Leave => self.apply_to_sender(sender, manage),
            _ => self.apply_to_subject(sender, manage),
        };
        if changed {
            self.version = self.version + 1;
        }
        Ok(changed)
    }
}

} // verus!
