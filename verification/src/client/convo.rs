use vstd::prelude::*;

use crate::client::roster::{member_state, state_active, RosterMember};
use crate::client::user_info::{keys_unique, lemma_pk_map_absent, lemma_pk_map_lookup, pk_map};
use crate::crypt::aead::AeadKey;
use crate::crypt::dh::DhPublic;
use crate::crypt::signing::spec_verify;
use crate::structs::certificate::{device_hash, CertificateChain};
use crate::structs::blob::Blob;
use crate::structs::event::Recipient;
use crate::structs::group::{descriptor_encodable, group_id_of, GroupDescriptor, GroupId};
use crate::structs::server::{medium_pk_signed_value, AuthToken, MailboxAcl, ServerName, SignedMediumPk};
use crate::bytes::str_eq;
use crate::crypt::encoding::{base64url_encode, spec_decode_32};
use crate::structs::fragment::Attachment;
use crate::structs::timestamp::NanoTimestamp;
use crate::structs::username::{is_valid_username, UserName};

verus! {

/// Whether a device's medium-term key can be used to reach it: the device is listed under the
/// hash of the key its chain authenticates, it has a medium-term key, and that key is signed by
/// the device.
pub open spec fn reachable_device(
    entry: (crate::crypt::hash::Hash, CertificateChain),
    pks: Map<Seq<u8>, SignedMediumPk>,
) -> bool {
    &&& device_hash(entry.1.this.pk@) == entry.0@
    &&& pks.contains_key(entry.0@)
    &&& spec_verify(
        entry.1.this.pk@,
        medium_pk_signed_value(pks[entry.0@]),
        pks[entry.0@].signature@,
    )
}

/// The medium-term keys to encrypt to, one per reachable device, in the order of the devices.
pub open spec fn recipients_of(
    chains: Seq<(crate::crypt::hash::Hash, CertificateChain)>,
    pks: Map<Seq<u8>, SignedMediumPk>,
) -> Seq<Seq<u8>>
    decreases chains.len(),
{
    if chains.len() == 0 {
        Seq::empty()
    } else {
        let rest = recipients_of(chains.drop_last(), pks);
        if reachable_device(chains.last(), pks) {
            rest.push(pks[chains.last().0@].medium_pk@)
        } else {
            rest
        }
    }
}

/// The medium-term key a device entry is reached through.
pub open spec fn device_key(
    entry: (crate::crypt::hash::Hash, CertificateChain),
    pks: Map<Seq<u8>, SignedMediumPk>,
) -> Seq<u8> {
    pks[entry.0@].medium_pk@
}

/// One device gives its medium-term key where it is reachable, and nothing otherwise.
pub proof fn lemma_recipients_single(
    entry: (crate::crypt::hash::Hash, CertificateChain),
    pks: Map<Seq<u8>, SignedMediumPk>,
)
    ensures
        recipients_of(seq![entry], pks) == (if reachable_device(entry, pks) {
            seq![device_key(entry, pks)]
        } else {
            Seq::<Seq<u8>>::empty()
        }),
{
    let one = seq![entry];
    assert(one.drop_last() =~= Seq::<(crate::crypt::hash::Hash, CertificateChain)>::empty());
    assert(recipients_of(one.drop_last(), pks) == Seq::<Seq<u8>>::empty());
    assert(one.last() == entry);
    if reachable_device(entry, pks) {
        assert(Seq::<Seq<u8>>::empty().push(device_key(entry, pks)) =~= seq![device_key(entry, pks)]);
    }
}

/// The recipients of two lists of devices, one after the other, are the recipients of the
/// first followed by those of the second: every device counts on its own, whatever comes
/// before or after it.
pub proof fn lemma_recipients_concat(
    a: Seq<(crate::crypt::hash::Hash, CertificateChain)>,
    b: Seq<(crate::crypt::hash::Hash, CertificateChain)>,
    pks: Map<Seq<u8>, SignedMediumPk>,
)
    ensures
        recipients_of(a + b, pks) == recipients_of(a, pks) + recipients_of(b, pks),
    decreases b.len(),
{
    if b.len() == 0 {
        assert(a + b =~= a);
        assert(recipients_of(a, pks) + Seq::<Seq<u8>>::empty() =~= recipients_of(a, pks));
    } else {
        lemma_recipients_concat(a, b.drop_last(), pks);
        assert((a + b).drop_last() =~= a + b.drop_last());
        assert((a + b).last() == b.last());
        if reachable_device(b.last(), pks) {
            assert(recipients_of(a, pks) + recipients_of(b.drop_last(), pks).push(
                device_key(b.last(), pks),
            ) =~= (recipients_of(a, pks) + recipients_of(b.drop_last(), pks)).push(
                device_key(b.last(), pks),
            ));
        }
    }
}

/// Every reachable device contributes its medium-term key, and every key comes from a
/// reachable device; there is one key per reachable device.
pub proof fn lemma_recipients_cover(
    chains: Seq<(crate::crypt::hash::Hash, CertificateChain)>,
    pks: Map<Seq<u8>, SignedMediumPk>,
)
    ensures
        forall|i: int|
            0 <= i < chains.len() && reachable_device(#[trigger] chains[i], pks) ==> recipients_of(
                chains,
                pks,
            ).contains(device_key(chains[i], pks)),
        forall|k: Seq<u8>|
            #[trigger] recipients_of(chains, pks).contains(k) ==> exists|i: int|
                0 <= i < chains.len() && reachable_device(#[trigger] chains[i], pks) && k
                    == device_key(chains[i], pks),
        recipients_of(chains, pks).len() <= chains.len(),
    decreases chains.len(),
{
    if chains.len() > 0 {
        let pre = chains.drop_last();
        lemma_recipients_cover(pre, pks);
        let rest = recipients_of(pre, pks);
        let r = recipients_of(chains, pks);
        assert forall|i: int|
            0 <= i < chains.len() && reachable_device(#[trigger] chains[i], pks) implies r.contains(
            device_key(chains[i], pks),
        ) by {
            if i == chains.len() - 1 {
                assert(r[r.len() - 1] == device_key(chains[i], pks));
            } else {
                assert(pre[i] == chains[i]);
                let j = choose|j: int| 0 <= j < rest.len() && rest[j] == device_key(pre[i], pks);
                assert(r[j] == rest[j]);
            }
        }
        assert forall|k: Seq<u8>| #[trigger] r.contains(k) implies exists|i: int|
            0 <= i < chains.len() && reachable_device(#[trigger] chains[i], pks) && k == device_key(
                chains[i],
                pks,
            ) by {
            let j = choose|j: int| 0 <= j < r.len() && r[j] == k;
            if j < rest.len() {
                assert(rest[j] == k);
                assert(rest.contains(k));
                let i = choose|i: int|
                    0 <= i < pre.len() && reachable_device(#[trigger] pre[i], pks) && k
                        == device_key(pre[i], pks);
                assert(chains[i] == pre[i]);
            } else {
                assert(chains[chains.len() - 1] == chains.last());
            }
        }
    }
}

/// The medium-term keys of a user's devices that can be encrypted to: for each device whose
/// chain authenticates the device it is listed under and whose medium-term key it signed.
pub fn collect_recipients(
    chains: &Vec<(crate::crypt::hash::Hash, CertificateChain)>,
    medium_pks: &Vec<(crate::crypt::hash::Hash, SignedMediumPk)>,
) -> (r: Vec<DhPublic>)
    requires
        keys_unique(medium_pks@),
    ensures
        r@.map_values(|k: DhPublic| k@) == recipients_of(chains@, pk_map(medium_pks@)),
{
    let ghost pks = pk_map(medium_pks@);
    let mut out: Vec<DhPublic> = Vec::new();
    let mut i: usize = 0;
    while i < chains.len()
        invariant
            0 <= i <= chains@.len(),
            pks == pk_map(medium_pks@),
            keys_unique(medium_pks@),
            out@.map_values(|k: DhPublic| k@) == recipients_of(chains@.subrange(0, i as int), pks),
        decreases chains@.len() - i,
    {
        proof {
            assert(chains@.subrange(0, i as int + 1).drop_last() =~= chains@.subrange(0, i as int));
        }
        let device = &chains[i].0;
        let cert = chains[i].1.last_device();
        let cert_hash = cert.pk.bcs_hash();
        let ghost before = out@;
        if cert_hash == *device {
            let mut j: usize = 0;
            while j < medium_pks.len()
                invariant
                    0 <= j <= medium_pks@.len(),
                    forall|k: int| 0 <= k < j ==> #[trigger] medium_pks@[k].0@ != device@,
                ensures
                    j < medium_pks@.len() ==> medium_pks@[j as int].0@ == device@,
                decreases medium_pks@.len() - j,
            {
                if medium_pks[j].0 == *device {
                    break;
                }
                j = j + 1;
            }
            if j < medium_pks.len() {
                proof {
                    lemma_pk_map_lookup(medium_pks@, j as int);
                }
                let mpk = medium_pks[j].1;
                if mpk.verify(&cert.pk.signing_public()) {
                    out.push(mpk.medium_pk);
                    proof {
                        assert(out@.map_values(|k: DhPublic| k@) =~= before.map_values(
                            |k: DhPublic| k@,
                        ).push(mpk.medium_pk@));
                    }
                }
            } else {
                proof {
                    lemma_pk_map_absent(medium_pks@, device@);
                }
            }
        }
        i = i + 1;
    }
    proof {
        assert(chains@.subrange(0, chains@.len() as int) =~= chains@);
    }
    out
}

/// The number of active admins of a group.
pub open spec fn active_admin_count(members: Seq<RosterMember>) -> nat
    decreases members.len(),
{
    if members.len() == 0 {
        0
    } else {
        active_admin_count(members.drop_last()) + if members.last().is_admin && state_active(
            member_state(members.last()),
        ) {
            1nat
        } else {
            0nat
        }
    }
}

/// The active admins of two lists of members together are those of each, added: every member
/// counts on their own, once where they are an active admin and not at all otherwise.
pub proof fn lemma_admin_count_concat(a: Seq<RosterMember>, b: Seq<RosterMember>)
    ensures
        active_admin_count(a + b) == active_admin_count(a) + active_admin_count(b),
        b.len() == 1 ==> active_admin_count(b) == if b[0].is_admin && state_active(member_state(b[0])) {
            1nat
        } else {
            0nat
        },
    decreases b.len(),
{
    if b.len() == 0 {
        assert(a + b =~= a);
    } else {
        lemma_admin_count_concat(a, b.drop_last());
        assert((a + b).drop_last() =~= a + b.drop_last());
        assert((a + b).last() == b.last());
        if b.len() == 1 {
            assert(b.drop_last() =~= Seq::<RosterMember>::empty());
            assert(active_admin_count(b.drop_last()) == 0);
        }
    }
}

/// Whether `me` is an active admin among `members`.
pub open spec fn is_member_active_admin(members: Seq<RosterMember>, me: Seq<char>) -> bool {
    exists|i: int|
        0 <= i < members.len() && (#[trigger] members[i]).username@ == me && members[i].is_admin
            && state_active(member_state(members[i]))
}

/// Whether this device takes part in rekeying a group, and against how many admins: only an
/// active admin does, and each active admin rekeys with probability one over their number.
/// Answers that number, or `None` where this device does not rekey.
pub fn rekey_admin_count(members: &Vec<RosterMember>, me: &UserName) -> (r: Option<u64>)
    ensures
        match r {
            Some(n) => n == active_admin_count(members@) && n > 0 && is_member_active_admin(
                members@,
                me@,
            ),
            None => active_admin_count(members@) == 0 || !is_member_active_admin(members@, me@),
        },
{
    let mut count: u64 = 0;
    let mut me_admin = false;
    let mut i: usize = 0;
    while i < members.len()
        invariant
            0 <= i <= members@.len(),
            count == active_admin_count(members@.subrange(0, i as int)),
            count <= i,
            me_admin == is_member_active_admin(members@.subrange(0, i as int), me@),
        decreases members@.len() - i,
    {
        let m = &members[i];
        proof {
            let prev = members@.subrange(0, i as int);
            let next = members@.subrange(0, i as int + 1);
            assert(next.drop_last() =~= prev);
            if is_member_active_admin(next, me@) && !is_member_active_admin(prev, me@) {
                let k = choose|k: int|
                    0 <= k < next.len() && (#[trigger] next[k]).username@ == me@ && next[k].is_admin
                        && state_active(member_state(next[k]));
                assert(k == i);
            }
            if is_member_active_admin(prev, me@) {
                let k = choose|k: int|
                    0 <= k < prev.len() && (#[trigger] prev[k]).username@ == me@ && prev[k].is_admin
                        && state_active(member_state(prev[k]));
                assert(next[k] == prev[k]);
            }
        }
        let active = m.is_active();
        if m.is_admin && active {
            count = count + 1;
            if m.username == *me {
                me_admin = true;
            }
        }
        i = i + 1;
    }
    proof {
        assert(members@.subrange(0, members@.len() as int) =~= members@);
    }
    if count == 0 || !me_admin {
        None
    } else {
        Some(count)
    }
}

/// Whether a rekey is accepted from its sender: only from an active admin of the group.
pub fn rekey_sender_allowed(sender: &Option<RosterMember>) -> (r: bool)
    ensures
        r == (*sender matches Some(m) && m.is_admin && state_active(member_state(m))),
{
    match sender {
        Some(m) => m.is_admin && m.is_active(),
        None => false,
    }
}

/// Whether an event addressed to `recipient` belongs in group `group`.
pub fn group_recipient_matches(recipient: &Recipient, group: &GroupId) -> (r: bool)
    ensures
        r == (recipient matches Recipient::Group(g) && g@ == group@),
{
    match recipient {
        Recipient::Group(g) => *g == *group,
        Recipient::User(_) => false,
    }
}

/// The peer of a direct message between `sender` and `recipient`, seen by `me`: the other
/// party, where `me` is one of them and the message is to a user.
pub open spec fn dm_peer_spec(sender: Seq<char>, recipient: Recipient, me: Seq<char>) -> Option<
    Seq<char>,
> {
    match recipient {
        Recipient::User(r) => if r@ != me && sender != me {
            None
        } else if sender == me {
            Some(r@)
        } else {
            Some(sender)
        },
        Recipient::Group(_) => None,
    }
}

/// The conversation a received direct message belongs to, named by its peer: a message to a
/// group, or between two other users, belongs to none.
pub fn dm_peer(sender: &UserName, recipient: &Recipient, me: &UserName) -> (r: Option<UserName>)
    ensures
        match r {
            Some(p) => dm_peer_spec(sender@, *recipient, me@) == Some(p@),
            None => dm_peer_spec(sender@, *recipient, me@) is None,
        },
{
    match recipient {
        Recipient::User(r) => {
            if !(*r == *me) && !(*sender == *me) {
                None
            } else if *sender == *me {
                Some(r.duplicate())
            } else {
                Some(sender.duplicate())
            }
        },
        Recipient::Group(_) => None,
    }
}

/// What an entry of a group's message mailbox holds, by its kind.
#[derive(Clone, Copy, Debug, PartialEq, Eq, Structural)]
pub enum GroupEntryKind {
    /// A new group key, for the group's members.
    Rekey,
    /// A message to the group.
    Message,
    /// Anything else, which is ignored.
    Other,
}

/// Sorts an entry of a group's message mailbox by its kind.
pub fn classify_group_entry(kind: &str) -> (r: GroupEntryKind)
    ensures
        r == (if kind@ == Blob::V1_GROUP_REKEY@ {
            GroupEntryKind::Rekey
        } else if kind@ == Blob::V1_GROUP_MESSAGE@ {
            GroupEntryKind::Message
        } else {
            GroupEntryKind::Other
        }),
{
    if crate::bytes::str_eq(kind, Blob::V1_GROUP_REKEY) {
        GroupEntryKind::Rekey
    } else if crate::bytes::str_eq(kind, Blob::V1_GROUP_MESSAGE) {
        GroupEntryKind::Message
    } else {
        GroupEntryKind::Other
    }
}

/// Whether an entry of a user's direct mailbox is a direct message, by its kind.
pub fn is_direct_message(kind: &str) -> (r: bool)
    ensures
        r == (kind@ == Blob::V1_DIRECT_MESSAGE@),
{
    crate::bytes::str_eq(kind, Blob::V1_DIRECT_MESSAGE)
}

/// Whether a verified payload is message content, by its kind.
pub fn is_message_content(kind: &str) -> (r: bool)
    ensures
        r == (kind@ == Blob::V1_MESSAGE_CONTENT@),
{
    crate::bytes::str_eq(kind, Blob::V1_MESSAGE_CONTENT)
}

/// Whether a verified payload is a group key, by its kind.
pub fn is_group_key(kind: &str) -> (r: bool)
    ensures
        r == (kind@ == Blob::V1_AEAD_KEY@),
{
    crate::bytes::str_eq(kind, Blob::V1_AEAD_KEY)
}

/// Whether some receiving task that is still running serves group `g`.
pub open spec fn has_running_task(running: Seq<(GroupId, bool)>, g: Seq<u8>) -> bool {
    exists|i: int| 0 <= i < running.len() && !(#[trigger] running[i]).1 && running[i].0@ == g
}

/// Whether group `g` is among `live`.
pub open spec fn is_live_group(live: Seq<GroupId>, g: Seq<u8>) -> bool {
    exists|j: int| 0 <= j < live.len() && (#[trigger] live[j])@ == g
}

/// The positions, below `n`, of the running tasks that stay: those not finished whose group
/// is still live.
pub open spec fn kept_tasks(running: Seq<(GroupId, bool)>, live: Seq<GroupId>, n: int) -> Seq<int>
    decreases n,
{
    if n <= 0 {
        Seq::empty()
    } else {
        let rest = kept_tasks(running, live, n - 1);
        if !running[n - 1].1 && is_live_group(live, running[n - 1].0@) {
            rest.push(n - 1)
        } else {
            rest
        }
    }
}

/// The positions, below `n`, of the running tasks to stop: those not finished whose group is no
/// longer live.
pub open spec fn aborted_tasks(running: Seq<(GroupId, bool)>, live: Seq<GroupId>, n: int) -> Seq<
    int,
>
    decreases n,
{
    if n <= 0 {
        Seq::empty()
    } else {
        let rest = aborted_tasks(running, live, n - 1);
        if !running[n - 1].1 && !is_live_group(live, running[n - 1].0@) {
            rest.push(n - 1)
        } else {
            rest
        }
    }
}

/// The positions, below `n`, of the live groups that get a new task: those without a running
/// task and not already listed earlier.
pub open spec fn started_tasks(running: Seq<(GroupId, bool)>, live: Seq<GroupId>, n: int) -> Seq<
    int,
>
    decreases n,
{
    if n <= 0 {
        Seq::empty()
    } else {
        let rest = started_tasks(running, live, n - 1);
        if !has_running_task(running, live[n - 1]@) && !is_live_group(
            live.subrange(0, n - 1),
            live[n - 1]@,
        ) {
            rest.push(n - 1)
        } else {
            rest
        }
    }
}

/// A running task stays exactly when it has not finished and its group is still live.
pub proof fn lemma_kept_tasks_members(running: Seq<(GroupId, bool)>, live: Seq<GroupId>, n: int, x: int)
    requires
        0 <= n <= running.len(),
    ensures
        kept_tasks(running, live, n).contains(x) <==> 0 <= x < n && !running[x].1 && is_live_group(
            live,
            running[x].0@,
        ),
    decreases n,
{
    if n > 0 {
        lemma_kept_tasks_members(running, live, n - 1, x);
        let rest = kept_tasks(running, live, n - 1);
        let r = kept_tasks(running, live, n);
        if r.contains(x) {
            let k = choose|k: int| 0 <= k < r.len() && r[k] == x;
            if k < rest.len() {
                assert(rest[k] == x);
            }
        }
        if rest.contains(x) {
            let k = choose|k: int| 0 <= k < rest.len() && rest[k] == x;
            assert(r[k] == x);
        }
        if x == n - 1 && !running[x].1 && is_live_group(live, running[x].0@) {
            assert(r[r.len() - 1] == x);
        }
    }
}

/// A running task is stopped exactly when it has not finished and its group is gone.
pub proof fn lemma_aborted_tasks_members(running: Seq<(GroupId, bool)>, live: Seq<GroupId>, n: int, x: int)
    requires
        0 <= n <= running.len(),
    ensures
        aborted_tasks(running, live, n).contains(x) <==> 0 <= x < n && !running[x].1
            && !is_live_group(live, running[x].0@),
    decreases n,
{
    if n > 0 {
        lemma_aborted_tasks_members(running, live, n - 1, x);
        let rest = aborted_tasks(running, live, n - 1);
        let r = aborted_tasks(running, live, n);
        if r.contains(x) {
            let k = choose|k: int| 0 <= k < r.len() && r[k] == x;
            if k < rest.len() {
                assert(rest[k] == x);
            }
        }
        if rest.contains(x) {
            let k = choose|k: int| 0 <= k < rest.len() && rest[k] == x;
            assert(r[k] == x);
        }
        if x == n - 1 && !running[x].1 && !is_live_group(live, running[x].0@) {
            assert(r[r.len() - 1] == x);
        }
    }
}

/// A live group gets a new task exactly at its first listing, where no running task serves it.
pub proof fn lemma_started_tasks_members(running: Seq<(GroupId, bool)>, live: Seq<GroupId>, n: int, x: int)
    requires
        0 <= n <= live.len(),
    ensures
        started_tasks(running, live, n).contains(x) <==> 0 <= x < n && !has_running_task(
            running,
            live[x]@,
        ) && !is_live_group(live.subrange(0, x), live[x]@),
    decreases n,
{
    if n > 0 {
        lemma_started_tasks_members(running, live, n - 1, x);
        let rest = started_tasks(running, live, n - 1);
        let r = started_tasks(running, live, n);
        if r.contains(x) {
            let k = choose|k: int| 0 <= k < r.len() && r[k] == x;
            if k < rest.len() {
                assert(rest[k] == x);
            }
        }
        if rest.contains(x) {
            let k = choose|k: int| 0 <= k < rest.len() && rest[k] == x;
            assert(r[k] == x);
        }
        if x == n - 1 && !has_running_task(running, live[x]@) && !is_live_group(
            live.subrange(0, x),
            live[x]@,
        ) {
            assert(r[r.len() - 1] == x);
        }
    }
}

/// After the plan, every live group is served: by a task that keeps running, or by one new task
/// started for one of its listings.
pub proof fn lemma_every_live_group_served(running: Seq<(GroupId, bool)>, live: Seq<GroupId>, j: int)
    requires
        0 <= j < live.len(),
    ensures
        has_running_task(running, live[j]@) || exists|k: int|
            #[trigger] started_tasks(running, live, live.len() as int).contains(k) && live[k]@
                == live[j]@,
    decreases j,
{
    if !has_running_task(running, live[j]@) {
        if is_live_group(live.subrange(0, j), live[j]@) {
            let k = choose|k: int| 0 <= k < j && (#[trigger] live.subrange(0, j)[k])@ == live[j]@;
            assert(live.subrange(0, j)[k] == live[k]);
            lemma_every_live_group_served(running, live, k);
        } else {
            lemma_started_tasks_members(running, live, live.len() as int, j);
        }
    }
}

/// Which receiving tasks of groups to keep, stop and start.
pub struct TaskPlan {
    /// Positions of running tasks that stay.
    pub keep: Vec<usize>,
    /// Positions of running tasks to stop.
    pub abort: Vec<usize>,
    /// Positions of live groups that get a new task.
    pub start: Vec<usize>,
}

/// Whether group `g` is among the first `n` of `live`.
fn live_contains(live: &Vec<GroupId>, n: usize, g: &GroupId) -> (r: bool)
    requires
        n <= live@.len(),
    ensures
        r == is_live_group(live@.subrange(0, n as int), g@),
{
    let mut j: usize = 0;
    while j < n
        invariant
            n <= live@.len(),
            0 <= j <= n,
            forall|k: int| 0 <= k < j ==> (#[trigger] live@[k])@ != g@,
        decreases n - j,
    {
        if live[j] == *g {
            proof {
                assert(live@.subrange(0, n as int)[j as int] == live@[j as int]);
            }
            return true;
        }
        j = j + 1;
    }
    proof {
        if is_live_group(live@.subrange(0, n as int), g@) {
            let k = choose|k: int|
                0 <= k < n && (#[trigger] live@.subrange(0, n as int)[k])@ == g@;
            assert(live@.subrange(0, n as int)[k] == live@[k]);
        }
    }
    false
}

/// Whether some running task that is not finished serves group `g`.
fn running_contains(running: &Vec<(GroupId, bool)>, g: &GroupId) -> (r: bool)
    ensures
        r == has_running_task(running@, g@),
{
    let mut i: usize = 0;
    while i < running.len()
        invariant
            0 <= i <= running@.len(),
            forall|k: int| 0 <= k < i ==> (#[trigger] running@[k]).1 || running@[k].0@ != g@,
        decreases running@.len() - i,
    {
        if !running[i].1 && running[i].0 == *g {
            return true;
        }
        i = i + 1;
    }
    false
}

/// Reconciles the receiving tasks with the groups: finished tasks are dropped, tasks of groups
/// that are gone are stopped, and each live group without a running task gets one.
pub fn plan_group_tasks(running: &Vec<(GroupId, bool)>, live: &Vec<GroupId>) -> (r: TaskPlan)
    ensures
        r.keep@.map_values(|i: usize| i as int) == kept_tasks(running@, live@, running@.len() as int),
        r.abort@.map_values(|i: usize| i as int) == aborted_tasks(
            running@,
            live@,
            running@.len() as int,
        ),
        r.start@.map_values(|i: usize| i as int) == started_tasks(running@, live@, live@.len() as int),
{
    let mut keep: Vec<usize> = Vec::new();
    let mut abort: Vec<usize> = Vec::new();
    let mut i: usize = 0;
    proof {
        assert(live@.subrange(0, live@.len() as int) =~= live@);
    }
    while i < running.len()
        invariant
            0 <= i <= running@.len(),
            keep@.map_values(|i: usize| i as int) == kept_tasks(running@, live@, i as int),
            abort@.map_values(|i: usize| i as int) == aborted_tasks(running@, live@, i as int),
            live@.subrange(0, live@.len() as int) == live@,
        decreases running@.len() - i,
    {
        let ghost k0 = keep@;
        let ghost a0 = abort@;
        if !running[i].1 {
            if live_contains(live, live.len(), &running[i].0) {
                keep.push(i);
                proof {
                    assert(keep@.map_values(|i: usize| i as int) =~= k0.map_values(
                        |i: usize| i as int,
                    ).push(i as int));
                }
            } else {
                abort.push(i);
                proof {
                    assert(abort@.map_values(|i: usize| i as int) =~= a0.map_values(
                        |i: usize| i as int,
                    ).push(i as int));
                }
            }
        }
        i = i + 1;
    }
    let mut start: Vec<usize> = Vec::new();
    let mut j: usize = 0;
    while j < live.len()
        invariant
            0 <= j <= live@.len(),
            start@.map_values(|i: usize| i as int) == started_tasks(running@, live@, j as int),
        decreases live@.len() - j,
    {
        let ghost s0 = start@;
        if !running_contains(running, &live[j]) && !live_contains(live, j, &live[j]) {
            start.push(j);
            proof {
                assert(start@.map_values(|i: usize| i as int) =~= s0.map_values(
                    |i: usize| i as int,
                ).push(j as int));
            }
        }
        j = j + 1;
    }
    TaskPlan { keep, abort, start }
}

/// Why a group operation was refused before anything was sent.
#[derive(Clone, Copy, Debug, PartialEq, Eq, Structural)]
pub enum GroupError {
    /// A group must live on the server of its creator.
    ServerMismatch,
    /// A user cannot invite themselves.
    SelfInvite,
}

/// The access a group's creator gives its own token on the group's mailboxes: everything.
pub fn admin_acl(token: &AuthToken) -> (acl: MailboxAcl)
    ensures
        acl.token_hash@ == crate::crypt::hash::spec_digest(crate::bytes::framed(token@)),
        acl.can_edit_acl && acl.can_send && acl.can_recv,
{
    MailboxAcl { token_hash: token.bcs_hash(), can_edit_acl: true, can_send: true, can_recv: true }
}

/// The access an invitation token gets on a group's mailboxes: sending and receiving, but no
/// say over the access list.
pub fn member_acl(token: &AuthToken) -> (acl: MailboxAcl)
    ensures
        acl.token_hash@ == crate::crypt::hash::spec_digest(crate::bytes::framed(token@)),
        !acl.can_edit_acl && acl.can_send && acl.can_recv,
{
    MailboxAcl { token_hash: token.bcs_hash(), can_edit_acl: false, can_send: true, can_recv: true }
}

/// A group is created on the server the creator's name is registered with.
pub fn check_group_server(user_server: &ServerName, requested: &ServerName) -> (r: Result<(), GroupError>)
    ensures
        r is Ok <==> user_server@ == requested@,
        r matches Err(e) ==> e == GroupError::ServerMismatch,
{
    if crate::bytes::str_eq(user_server.as_str(), requested.as_str()) {
        Ok(())
    } else {
        Err(GroupError::ServerMismatch)
    }
}

/// The descriptor of a new group on `server`, created by `me` from the given nonce, time and
/// management key, with the group's id; refused unless `server` is the one `me` is registered
/// with.
pub fn new_group_descriptor(
    me: &UserName,
    user_server: &ServerName,
    server: &ServerName,
    nonce: crate::crypt::hash::Hash,
    created_at: crate::structs::timestamp::Timestamp,
    management_key: AeadKey,
) -> (r: Result<(GroupDescriptor, GroupId), GroupError>)
    requires
        descriptor_encodable(me@, server@),
    ensures
        r is Ok <==> user_server@ == server@,
        r matches Err(e) ==> e == GroupError::ServerMismatch,
        r matches Ok((d, g)) ==> {
            &&& d.nonce@ == nonce@
            &&& d.init_admin@ == me@
            &&& d.created_at == created_at
            &&& d.server@ == server@
            &&& d.management_key@ == management_key@
            &&& g@ == group_id_of(d)
        },
{
    match check_group_server(user_server, server) {
        Err(e) => Err(e),
        Ok(()) => {
            let d = GroupDescriptor {
                nonce,
                init_admin: me.duplicate(),
                created_at,
                server: server.duplicate(),
                management_key,
            };
            let g = d.id();
            Ok((d, g))
        },
    }
}

/// Creates the descriptor of a new group on `server` for `me`, with a random nonce, the current
/// time and a random management key, and the group's id: the hash of the descriptor. Refused
/// unless `server` is the one `me` is registered with.
pub fn create_group_descriptor(me: &UserName, user_server: &ServerName, server: &ServerName) -> (r:
    Result<(GroupDescriptor, GroupId), GroupError>)
    requires
        descriptor_encodable(me@, server@),
    ensures
        r is Ok <==> user_server@ == server@,
        r matches Err(e) ==> e == GroupError::ServerMismatch,
        r matches Ok((d, g)) ==> d.init_admin@ == me@ && d.server@ == server@ && g@ == group_id_of(d),
{
    if check_group_server(user_server, server).is_err() {
        return Err(GroupError::ServerMismatch);
    }
    let nonce = crate::crypt::hash::Hash::from_bytes(crate::structs::certificate::random_array::<32>());
    let created_at = crate::structs::timestamp::unix_time();
    let management_key = AeadKey::random();
    new_group_descriptor(me, user_server, server, nonce, created_at, management_key)
}

/// An invitation goes to someone other than the inviter.
pub fn check_invitee(invitee: &UserName, me: &UserName) -> (r: Result<(), GroupError>)
    ensures
        r is Ok <==> invitee@ != me@,
        r matches Err(e) ==> e == GroupError::SelfInvite,
{
    if *invitee == *me {
        Err(GroupError::SelfInvite)
    } else {
        Ok(())
    }
}

/// The bytes of a group key announcement: the BCS encoding of the group id (a byte string)
/// and the new key (32 bytes as they are).
pub open spec fn rekey_encoding(group: Seq<u8>, key: Seq<u8>) -> Seq<u8> {
    crate::bytes::framed(group) + key
}

/// The payload announcing a new group key, as a blob of the group-key kind.
pub fn rekey_payload(group: &GroupId, key: &AeadKey) -> (b: Blob)
    ensures
        b.kind@ == Blob::V1_AEAD_KEY@,
        b.inner@ == rekey_encoding(group@, key@),
{
    let mut inner: Vec<u8> = Vec::new();
    crate::bytes::push_framed32(&mut inner, &group.0);
    crate::bytes::push_bytes32(&mut inner, &key.0);
    assert(inner@ =~= rekey_encoding(group@, key@));
    Blob { kind: Blob::V1_AEAD_KEY.to_owned(), inner }
}

/// Reads a group key announcement: a group id and a key, 65 bytes in all, the first of them
/// the group id's length 32.
pub fn parse_rekey_payload(inner: &[u8]) -> (r: Option<(GroupId, AeadKey)>)
    ensures
        r is Some <==> inner@.len() == 65 && inner@[0] == 32,
        r matches Some((g, k)) ==> rekey_encoding(g@, k@) == inner@,
{
    if inner.len() != 65 || inner[0] != 32 {
        return None;
    }
    let mut g = [0u8; 32];
    let mut k = [0u8; 32];
    let mut i: usize = 0;
    while i < 32
        invariant
            0 <= i <= 32,
            inner@.len() == 65,
            g@.len() == 32,
            k@.len() == 32,
            forall|j: int| 0 <= j < i ==> g@[j] == inner@[j + 1] && k@[j] == inner@[j + 33],
        decreases 32 - i,
    {
        g.set(i, inner[i + 1]);
        k.set(i, inner[i + 33]);
        i = i + 1;
    }
    let group = GroupId::from_bytes(g);
    let key = AeadKey::from_bytes(k);
    assert(crate::bytes::uleb128(32) =~= seq![32u8]);
    assert(rekey_encoding(group@, key@) =~= inner@);
    Some((group, key))
}

/// A group key announcement reads back as the group and key it was made from.
pub proof fn lemma_rekey_roundtrip(group: Seq<u8>, key: Seq<u8>, g2: Seq<u8>, k2: Seq<u8>)
    requires
        group.len() == 32,
        key.len() == 32,
        g2.len() == 32,
        k2.len() == 32,
        rekey_encoding(g2, k2) == rekey_encoding(group, key),
    ensures
        g2 == group,
        k2 == key,
{
    assert(crate::bytes::uleb128(32) =~= seq![32u8]);
    assert(g2 =~= rekey_encoding(g2, k2).subrange(1, 33));
    assert(group =~= rekey_encoding(group, key).subrange(1, 33));
    assert(k2 =~= rekey_encoding(g2, k2).subrange(33, 65));
    assert(key =~= rekey_encoding(group, key).subrange(33, 65));
}

/// What identifies a conversation, as a value: the peer's name for a direct conversation, the
/// group id's bytes for a group.
pub enum ConvoKey {
    Direct(Seq<char>),
    Group(Seq<u8>),
}

impl ConvoKey {
    /// Whether the key can belong to a conversation: a valid username, or 32 bytes.
    pub open spec fn wf(self) -> bool {
        match self {
            ConvoKey::Direct(peer) => is_valid_username(peer),
            ConvoKey::Group(id) => id.len() == 32,
        }
    }

    /// The conversation's kind as text.
    pub open spec fn kind_text(self) -> Seq<char> {
        match self {
            ConvoKey::Direct(_) => "direct"@,
            ConvoKey::Group(_) => "group"@,
        }
    }

    /// The conversation's counterparty as text: the peer's name, or the group id's text form.
    pub open spec fn counterparty_text(self) -> Seq<char> {
        match self {
            ConvoKey::Direct(peer) => peer,
            ConvoKey::Group(id) => base64url_encode(id),
        }
    }
}

/// A conversation: with one peer, or in a group.
#[derive(Clone, Debug)]
pub enum ConvoId {
    Direct { peer: UserName },
    Group { group_id: GroupId },
}

impl View for ConvoId {
    type V = ConvoKey;

    open spec fn view(&self) -> ConvoKey {
        match self {
            ConvoId::Direct { peer } => ConvoKey::Direct(peer@),
            ConvoId::Group { group_id } => ConvoKey::Group(group_id@),
        }
    }
}

impl PartialEq for ConvoId {
    fn eq(&self, other: &Self) -> (r: bool) {
        match (self, other) {
            (ConvoId::Direct { peer: a }, ConvoId::Direct { peer: b }) => a == b,
            (ConvoId::Group { group_id: a }, ConvoId::Group { group_id: b }) => a == b,
            _ => false,
        }
    }
}

impl Eq for ConvoId {}

impl vstd::std_specs::cmp::PartialEqSpecImpl for ConvoId {
    open spec fn obeys_eq_spec() -> bool {
        true
    }

    open spec fn eq_spec(&self, other: &ConvoId) -> bool {
        self@ == other@
    }
}

impl ConvoId {
    /// The conversation's kind: `"direct"` or `"group"`.
    pub fn convo_type(&self) -> (r: &'static str)
        ensures
            r@ == self@.kind_text(),
    {
        match self {
            ConvoId::Direct { .. } => {
                proof {
                    reveal_strlit("direct");
                }
                "direct"
            },
            ConvoId::Group { .. } => {
                proof {
                    reveal_strlit("group");
                }
                "group"
            },
        }
    }

    /// The conversation's counterparty as text: the peer's name, or the group id's text form.
    pub fn counterparty(&self) -> (r: String)
        ensures
            r@ == self@.counterparty_text(),
    {
        match self {
            ConvoId::Direct { peer } => peer.as_str().to_string(),
            ConvoId::Group { group_id } => group_id.to_string(),
        }
    }
}

/// The conversation that a kind and a counterparty name, if they name one.
pub open spec fn convo_key_of(kind: Seq<char>, counterparty: Seq<char>) -> Option<ConvoKey> {
    if kind == "direct"@ {
        if is_valid_username(counterparty) {
            Some(ConvoKey::Direct(counterparty))
        } else {
            None
        }
    } else if kind == "group"@ {
        match spec_decode_32(counterparty) {
            Ok(id) => Some(ConvoKey::Group(id)),
            Err(_) => None,
        }
    } else {
        None
    }
}

/// Reads a conversation back from its kind and counterparty. The kind and counterparty of any
/// conversation read back as that conversation.
pub fn parse_convo_id(convo_type: &str, counterparty: &str) -> (r: Option<ConvoId>)
    ensures
        match r {
            Some(c) => convo_key_of(convo_type@, counterparty@) == Some(c@),
            None => convo_key_of(convo_type@, counterparty@) is None,
        },
        forall|c: ConvoKey|
            #![trigger c.kind_text(), c.counterparty_text()]
            c.wf() && c.kind_text() == convo_type@ && c.counterparty_text() == counterparty@
                ==> (r matches Some(parsed) && parsed@ == c),
{
    proof {
        reveal_strlit("direct");
        reveal_strlit("group");
    }
    assert("direct"@ != "group"@) by {
        assert("direct"@.len() != "group"@.len());
    }
    let r = if str_eq(convo_type, "direct") {
        match UserName::parse(counterparty) {
            Ok(peer) => Some(ConvoId::Direct { peer }),
            Err(_) => None,
        }
    } else if str_eq(convo_type, "group") {
        match GroupId::from_str(counterparty) {
            Ok(group_id) => Some(ConvoId::Group { group_id }),
            Err(_) => None,
        }
    } else {
        None
    };
    assert forall|c: ConvoKey|
        c.wf() && c.kind_text() == convo_type@ && c.counterparty_text()
            == counterparty@ implies (r matches Some(parsed) && parsed@ == c) by {
        match c {
            ConvoKey::Direct(peer) => {},
            ConvoKey::Group(id) => {
                assert(base64url_encode(id) == counterparty@);
            },
        }
    }
    r
}

/// What a conversation message holds.
#[derive(Clone, Debug)]
pub enum MessageContent {
    PlainText(String),
    Markdown(String),
    Attachment { id: crate::crypt::hash::Hash, size: u64, mime: String, filename: String },
    GroupInvite { invite_id: i64 },
}

/// A message to be sent to a conversation.
#[derive(Clone, Debug)]
pub enum OutgoingMessage {
    PlainText(String),
    Markdown(String),
    Attachment(Attachment),
}

/// A message of a conversation, as stored.
#[derive(Clone, Debug)]
pub struct ConvoMessage {
    pub id: i64,
    pub convo_id: ConvoId,
    pub sender: UserName,
    pub body: MessageContent,
    pub send_error: Option<String>,
    pub received_at: Option<NanoTimestamp>,
}

/// A conversation with its latest message.
#[derive(Clone, Debug)]
pub struct ConvoSummary {
    pub convo_id: ConvoId,
    pub last_message: Option<ConvoMessage>,
}

} // verus!
