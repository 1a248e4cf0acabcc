use vstd::prelude::*;

use crate::structs::server::{MailboxEntry, MailboxId, MailboxRecvArgs};
use crate::structs::timestamp::NanoTimestamp;

verus! {

/// The shortest long-poll timeout, in milliseconds.
pub const LONG_POLL_MIN_MS: u64 = 15000;

/// The longest long-poll timeout, in milliseconds.
pub const LONG_POLL_MAX_MS: u64 = 1800000;

/// The additive increase of the long-poll timeout, in milliseconds.
pub const LONG_POLL_INC_MS: u64 = 5000;

/// `x` limited to the allowed long-poll timeouts.
pub open spec fn clamp_timeout(x: int) -> int {
    if x < LONG_POLL_MIN_MS {
        LONG_POLL_MIN_MS as int
    } else if x > LONG_POLL_MAX_MS {
        LONG_POLL_MAX_MS as int
    } else {
        x
    }
}

fn clamp_ms(x: u64) -> (r: u64)
    ensures
        r == clamp_timeout(x as int),
{
    if x < LONG_POLL_MIN_MS {
        LONG_POLL_MIN_MS
    } else if x > LONG_POLL_MAX_MS {
        LONG_POLL_MAX_MS
    } else {
        x
    }
}

/// The timeout after a poll that came back empty: a little longer, within the bounds.
pub fn aimd_increase(current: u64) -> (next: u64)
    ensures
        next == clamp_timeout(current + LONG_POLL_INC_MS),
{
    clamp_ms(current.saturating_add(LONG_POLL_INC_MS))
}

/// The timeout after a failed poll: halved, within the bounds.
pub fn aimd_decrease(current: u64) -> (next: u64)
    ensures
        next == clamp_timeout(current as int / 2),
{
    clamp_ms(current / 2)
}

/// How a long poll ended.
#[derive(Clone, Copy, Debug, PartialEq, Eq, Structural)]
pub enum PollOutcome {
    /// The request did not reach the server, or its answer did not come back.
    TransportError,
    /// The server answered with an error.
    ServerError,
    /// The server answered with entries for some mailboxes, or none.
    Entries { empty: bool },
}

/// The timeout for the next poll: shorter after a transport failure, longer after an empty
/// answer, unchanged otherwise.
pub fn timeout_after_poll(current: u64, outcome: PollOutcome) -> (next: u64)
    ensures
        next == match outcome {
            PollOutcome::TransportError => clamp_timeout(current as int / 2),
            PollOutcome::Entries { empty: true } => clamp_timeout(current + LONG_POLL_INC_MS),
            _ => current as int,
        },
{
    match outcome {
        PollOutcome::TransportError => aimd_decrease(current),
        PollOutcome::Entries { empty } => if empty {
            aimd_increase(current)
        } else {
            current
        },
        PollOutcome::ServerError => current,
    }
}

/// The long-poll timeout never leaves its bounds, whatever polls answer.
pub proof fn lemma_timeout_bounded(current: u64, outcome: PollOutcome)
    requires
        LONG_POLL_MIN_MS <= current <= LONG_POLL_MAX_MS,
    ensures
        ({
            let next = match outcome {
                PollOutcome::TransportError => clamp_timeout(current as int / 2),
                PollOutcome::Entries { empty: true } => clamp_timeout(current + LONG_POLL_INC_MS),
                _ => current as int,
            };
            LONG_POLL_MIN_MS <= next <= LONG_POLL_MAX_MS
        }),
{
}

/// Whether two poll requests are for the same mailbox with the same token.
pub open spec fn same_key(a: MailboxRecvArgs, b: MailboxRecvArgs) -> bool {
    a.mailbox@ == b.mailbox@ && a.auth@ == b.auth@
}

/// No two merged requests share a mailbox and token.
#[verifier::opaque]
pub open spec fn keys_distinct(args: Seq<MailboxRecvArgs>) -> bool {
    forall|a: int, b: int|
        0 <= a < args.len() && 0 <= b < args.len() && a != b ==> !same_key(
            #[trigger] args[a],
            #[trigger] args[b],
        )
}

/// `w[i]` names, for each of the first `n` pending requests, a merged request and the place
/// in its list where `i` stands.
pub open spec fn listing_witness(
    w: Seq<(int, int)>,
    n: int,
    args: Seq<MailboxRecvArgs>,
    groups: Seq<Seq<usize>>,
) -> bool {
    &&& w.len() == n
    &&& forall|i: int|
        0 <= i < n ==> {
            let (a, k) = #[trigger] w[i];
            0 <= a < args.len() && 0 <= k < groups[a].len() && groups[a][k] == i
        }
}

/// Each of the first `n` pending requests is listed under some merged request.
#[verifier::opaque]
pub open spec fn all_listed(
    pending: Seq<MailboxRecvArgs>,
    n: int,
    args: Seq<MailboxRecvArgs>,
    groups: Seq<Seq<usize>>,
) -> bool {
    exists|w: Seq<(int, int)>| #[trigger] listing_witness(w, n, args, groups)
}

/// Each listed position is one of the first `n` pending requests, with the key of the merged
/// request it is listed under, waiting from no earlier time than that request.
#[verifier::opaque]
pub open spec fn listed_valid(
    pending: Seq<MailboxRecvArgs>,
    n: int,
    args: Seq<MailboxRecvArgs>,
    groups: Seq<Seq<usize>>,
) -> bool {
    forall|a: int, k: int|
        0 <= a < args.len() && 0 <= k < groups[a].len() ==> {
            let i = #[trigger] groups[a][k] as int;
            0 <= i < n && same_key(args[a], pending[i]) && args[a].after.0 <= pending[i].after.0
        }
}

/// `w[a]` names, for each merged request, one of the first `n` pending requests with its key
/// and its time.
pub open spec fn after_witness(
    w: Seq<int>,
    pending: Seq<MailboxRecvArgs>,
    n: int,
    args: Seq<MailboxRecvArgs>,
) -> bool {
    &&& w.len() == args.len()
    &&& forall|a: int|
        0 <= a < args.len() ==> {
            let i = #[trigger] w[a];
            0 <= i < n && same_key(args[a], pending[i]) && args[a].after == pending[i].after
        }
}

/// Each merged request waits from the time of one of the first `n` pending requests with
/// its key.
#[verifier::opaque]
pub open spec fn after_attained(
    pending: Seq<MailboxRecvArgs>,
    n: int,
    args: Seq<MailboxRecvArgs>,
) -> bool {
    exists|w: Seq<int>| #[trigger] after_witness(w, pending, n, args)
}

/// The merged requests `args`, with the positions `groups` of the pending requests each
/// serves, for the first `n` pending requests: one request per mailbox and token, each pending
/// request listed under the request with its key, each listed position valid and of that key,
/// and each request waiting from the earliest time among the pending requests it serves.
pub open spec fn merged_upto(
    pending: Seq<MailboxRecvArgs>,
    n: int,
    args: Seq<MailboxRecvArgs>,
    groups: Seq<Seq<usize>>,
) -> bool {
    &&& args.len() == groups.len()
    &&& keys_distinct(args)
    &&& all_listed(pending, n, args, groups)
    &&& listed_valid(pending, n, args, groups)
    &&& after_attained(pending, n, args)
}

/// The positions each merged request serves, as sequences.
pub open spec fn group_views(groups: Seq<Vec<usize>>) -> Seq<Seq<usize>> {
    groups.map_values(|g: Vec<usize>| g@)
}

proof fn lemma_merge_existing(
    pending: Seq<MailboxRecvArgs>,
    n: int,
    args: Seq<MailboxRecvArgs>,
    groups: Seq<Seq<usize>>,
    a: int,
    merged: MailboxRecvArgs,
)
    requires
        0 <= n < pending.len(),
        n < usize::MAX,
        merged_upto(pending, n, args, groups),
        0 <= a < args.len(),
        same_key(args[a], pending[n]),
        same_key(merged, args[a]),
        merged.after == (if pending[n].after.0 < args[a].after.0 {
            pending[n].after
        } else {
            args[a].after
        }),
    ensures
        merged_upto(
            pending,
            n + 1,
            args.update(a, merged),
            groups.update(a, groups[a].push(n as usize)),
        ),
{
    let args2 = args.update(a, merged);
    let groups2 = groups.update(a, groups[a].push(n as usize));
    assert(keys_distinct(args2)) by {
        reveal(keys_distinct);
        assert forall|b: int, c: int|
            0 <= b < args2.len() && 0 <= c < args2.len() && b != c implies !same_key(
            #[trigger] args2[b],
            #[trigger] args2[c],
        ) by {
            assert(same_key(args2[b], args[b]));
            assert(same_key(args2[c], args[c]));
        }
    }
    assert(all_listed(pending, n + 1, args2, groups2)) by {
        reveal(all_listed);
        let w = choose|w: Seq<(int, int)>| listing_witness(w, n, args, groups);
        let w2 = w.push((a, groups[a].len() as int));
        assert forall|i: int| 0 <= i < n + 1 implies {
            let (b, k) = #[trigger] w2[i];
            0 <= b < args2.len() && 0 <= k < groups2[b].len() && groups2[b][k] == i
        } by {
            if i < n {
                let (b, k) = w[i];
                assert(w2[i] == w[i]);
                assert(groups2[b][k] == groups[b][k]);
            }
        }
        assert(listing_witness(w2, n + 1, args2, groups2));
    }
    assert(listed_valid(pending, n + 1, args2, groups2)) by {
        reveal(listed_valid);
        assert forall|b: int, k: int| 0 <= b < args2.len() && 0 <= k < groups2[b].len() implies {
            let i = #[trigger] groups2[b][k] as int;
            0 <= i < n + 1 && same_key(args2[b], pending[i]) && args2[b].after.0
                <= pending[i].after.0
        } by {
            if b == a && k == groups2[b].len() - 1 {
            } else {
                assert(groups2[b][k] == groups[b][k]);
            }
        }
    }
    assert(after_attained(pending, n + 1, args2)) by {
        reveal(after_attained);
        let w = choose|w: Seq<int>| after_witness(w, pending, n, args);
        let w2 = if pending[n].after.0 < args[a].after.0 {
            w.update(a, n)
        } else {
            w
        };
        assert forall|b: int| 0 <= b < args2.len() implies {
            let i = #[trigger] w2[b];
            0 <= i < n + 1 && same_key(args2[b], pending[i]) && args2[b].after
                == pending[i].after
        } by {
            let i = w[b];
            assert(same_key(args[b], pending[i]));
        }
        assert(after_witness(w2, pending, n + 1, args2));
    }
}

proof fn lemma_merge_new(
    pending: Seq<MailboxRecvArgs>,
    n: int,
    args: Seq<MailboxRecvArgs>,
    groups: Seq<Seq<usize>>,
)
    requires
        0 <= n < pending.len(),
        n < usize::MAX,
        merged_upto(pending, n, args, groups),
        forall|b: int| 0 <= b < args.len() ==> !same_key(#[trigger] args[b], pending[n]),
    ensures
        merged_upto(pending, n + 1, args.push(pending[n]), groups.push(seq![n as usize])),
{
    let args2 = args.push(pending[n]);
    let groups2 = groups.push(seq![n as usize]);
    assert(keys_distinct(args2)) by {
        reveal(keys_distinct);
        assert forall|b: int, c: int|
            0 <= b < args2.len() && 0 <= c < args2.len() && b != c implies !same_key(
            #[trigger] args2[b],
            #[trigger] args2[c],
        ) by {
            if b < args.len() && c < args.len() {
                assert(args2[b] == args[b] && args2[c] == args[c]);
            } else if b < args.len() {
                assert(args2[b] == args[b]);
            } else {
                assert(args2[c] == args[c]);
            }
        }
    }
    assert(all_listed(pending, n + 1, args2, groups2)) by {
        reveal(all_listed);
        let w = choose|w: Seq<(int, int)>| listing_witness(w, n, args, groups);
        let w2 = w.push((args.len() as int, 0int));
        assert forall|i: int| 0 <= i < n + 1 implies {
            let (b, k) = #[trigger] w2[i];
            0 <= b < args2.len() && 0 <= k < groups2[b].len() && groups2[b][k] == i
        } by {
            if i < n {
                let (b, k) = w[i];
                assert(w2[i] == w[i]);
                assert(groups2[b] == groups[b]);
            }
        }
        assert(listing_witness(w2, n + 1, args2, groups2));
    }
    assert(listed_valid(pending, n + 1, args2, groups2)) by {
        reveal(listed_valid);
        assert forall|b: int, k: int| 0 <= b < args2.len() && 0 <= k < groups2[b].len() implies {
            let i = #[trigger] groups2[b][k] as int;
            0 <= i < n + 1 && same_key(args2[b], pending[i]) && args2[b].after.0
                <= pending[i].after.0
        } by {
            if b < args.len() {
                assert(args2[b] == args[b]);
                assert(groups2[b] == groups[b]);
            }
        }
    }
    assert(after_attained(pending, n + 1, args2)) by {
        reveal(after_attained);
        let w = choose|w: Seq<int>| after_witness(w, pending, n, args);
        let w2 = w.push(n);
        assert forall|b: int| 0 <= b < args2.len() implies {
            let i = #[trigger] w2[b];
            0 <= i < n + 1 && same_key(args2[b], pending[i]) && args2[b].after
                == pending[i].after
        } by {
            if b < args.len() {
                assert(w2[b] == w[b]);
                assert(args2[b] == args[b]);
            }
        }
        assert(after_witness(w2, pending, n + 1, args2));
    }
}

/// Merges pending poll requests into one request per mailbox and token, asking for entries
/// after the earliest time any of them waits for. Answers the merged requests and, for each,
/// the positions of the pending requests it serves.
pub fn build_args(pending: &Vec<MailboxRecvArgs>) -> (r: (Vec<MailboxRecvArgs>, Vec<Vec<usize>>))
    ensures
        merged_upto(pending@, pending@.len() as int, r.0@, group_views(r.1@)),
{
    let mut args: Vec<MailboxRecvArgs> = Vec::new();
    let mut indices: Vec<Vec<usize>> = Vec::new();
    let mut idx: usize = 0;
    proof {
        assert(group_views(indices@) =~= Seq::<Seq<usize>>::empty());
        reveal(keys_distinct);
        reveal(all_listed);
        reveal(listed_valid);
        reveal(after_attained);
        assert(listing_witness(Seq::empty(), 0, args@, group_views(indices@)));
        assert(after_witness(Seq::empty(), pending@, 0, args@));
    }
    while idx < pending.len()
        invariant
            0 <= idx <= pending@.len(),
            merged_upto(pending@, idx as int, args@, group_views(indices@)),
        decreases pending@.len() - idx,
    {
        let req = pending[idx];
        let ghost old_args = args@;
        let ghost old_groups = group_views(indices@);
        let mut a: usize = 0;
        while a < args.len()
            invariant
                0 <= a <= args@.len(),
                args@ == old_args,
                forall|b: int| 0 <= b < a ==> !same_key(#[trigger] args@[b], req),
            ensures
                a < args@.len() ==> same_key(args@[a as int], req),
            decreases args@.len() - a,
        {
            if args[a].mailbox == req.mailbox && args[a].auth == req.auth {
                break;
            }
            a = a + 1;
        }
        if a < args.len() {
            let mut merged = args[a];
            if req.after.0 < merged.after.0 {
                merged.after = req.after;
            }
            proof {
                lemma_merge_existing(pending@, idx as int, old_args, old_groups, a as int, merged);
            }
            args.set(a, merged);
            let mut list = indices[a].clone();
            list.push(idx);
            indices.set(a, list);
            proof {
                assert(group_views(indices@) =~= old_groups.update(
                    a as int,
                    old_groups[a as int].push(idx),
                ));
            }
        } else {
            proof {
                lemma_merge_new(pending@, idx as int, old_args, old_groups);
            }
            args.push(req);
            let mut list: Vec<usize> = Vec::new();
            list.push(idx);
            indices.push(list);
            proof {
                assert(group_views(indices@) =~= old_groups.push(seq![idx]));
            }
        }
        idx = idx + 1;
    }
    (args, indices)
}

/// Whether `k` is the first of `entries` received after the time `after`.
pub open spec fn is_first_after(entries: Seq<MailboxEntry>, after: u64, k: int) -> bool {
    &&& 0 <= k < entries.len()
    &&& entries[k].received_at.0 > after
    &&& forall|j: int| 0 <= j < k ==> entries[j].received_at.0 <= after
}

/// Whether none of `entries` was received after the time `after`.
pub open spec fn none_after(entries: Seq<MailboxEntry>, after: u64) -> bool {
    forall|j: int| 0 <= j < entries.len() ==> entries[j].received_at.0 <= after
}

/// Whether `m` is the first position in `response` that holds entries of `mailbox`.
pub open spec fn is_first_mailbox(
    response: Seq<(MailboxId, Vec<MailboxEntry>)>,
    mailbox: MailboxId,
    m: int,
) -> bool {
    &&& 0 <= m < response.len()
    &&& response[m].0@ == mailbox@
    &&& forall|j: int| 0 <= j < m ==> response[j].0@ != mailbox@
}

/// What answers pending request `req` from a poll's `response`: the mailbox's entries in the
/// response and, among them, the first received after the time the request waits from.
pub open spec fn answers(
    response: Seq<(MailboxId, Vec<MailboxEntry>)>,
    req: MailboxRecvArgs,
    r: Option<(usize, usize)>,
) -> bool {
    match r {
        Some((m, k)) => is_first_mailbox(response, req.mailbox, m as int) && is_first_after(
            response[m as int].1@,
            req.after.0,
            k as int,
        ),
        None => forall|m: int|
            is_first_mailbox(response, req.mailbox, m) ==> none_after(
                response[m].1@,
                req.after.0,
            ),
    }
}

/// For each pending request, the entry of a poll's response that answers it, as the position of
/// its mailbox in the response and of the entry among that mailbox's entries, or `None` where
/// the request stays pending.
pub fn poll_answers(
    pending: &Vec<MailboxRecvArgs>,
    response: &Vec<(MailboxId, Vec<MailboxEntry>)>,
) -> (r: Vec<Option<(usize, usize)>>)
    ensures
        r@.len() == pending@.len(),
        forall|i: int| 0 <= i < pending@.len() ==> answers(response@, pending@[i], #[trigger] r@[i]),
{
    let mut out: Vec<Option<(usize, usize)>> = Vec::new();
    let mut i: usize = 0;
    while i < pending.len()
        invariant
            0 <= i <= pending@.len(),
            out@.len() == i,
            forall|j: int| 0 <= j < i ==> answers(response@, pending@[j], #[trigger] out@[j]),
        decreases pending@.len() - i,
    {
        let req = pending[i];
        let mut m: usize = 0;
        while m < response.len()
            invariant
                0 <= m <= response@.len(),
                forall|j: int| 0 <= j < m ==> response@[j].0@ != req.mailbox@,
            ensures
                m < response@.len() ==> is_first_mailbox(response@, req.mailbox, m as int),
            decreases response@.len() - m,
        {
            if response[m].0 == req.mailbox {
                break;
            }
            m = m + 1;
        }
        let answer = if m < response.len() {
            match first_entry_after(&response[m].1, req.after) {
                Some(k) => Some((m, k)),
                None => None,
            }
        } else {
            None
        };
        proof {
            if answer is None && m < response@.len() {
                assert forall|m2: int| is_first_mailbox(response@, req.mailbox, m2) implies none_after(
                    response@[m2].1@,
                    req.after.0,
                ) by {
                    if m2 < m {
                    } else if m2 > m {
                        assert(response@[m as int].0@ == req.mailbox@);
                    }
                }
            }
        }
        out.push(answer);
        i = i + 1;
    }
    out
}

/// The position of the first entry received after `after`, if any: the entry a waiting
/// request is answered with.
pub fn first_entry_after(entries: &Vec<MailboxEntry>, after: NanoTimestamp) -> (r: Option<usize>)
    ensures
        r matches Some(k) ==> k < entries@.len() && entries@[k as int].received_at.0 > after.0
            && forall|j: int| 0 <= j < k ==> entries@[j].received_at.0 <= after.0,
        r is None ==> forall|j: int| 0 <= j < entries@.len() ==> entries@[j].received_at.0 <= after.0,
{
    let mut k: usize = 0;
    while k < entries.len()
        invariant
            0 <= k <= entries@.len(),
            forall|j: int| 0 <= j < k ==> entries@[j].received_at.0 <= after.0,
        decreases entries@.len() - k,
    {
        if entries[k].received_at.0 > after.0 {
            return Some(k);
        }
        k = k + 1;
    }
    None
}

/// The entry that answers pending request `req` from a poll's `response`, as the position of its
/// mailbox in the response and of the entry among that mailbox's entries, if one does.
pub open spec fn reply_pos(response: Seq<(MailboxId, Vec<MailboxEntry>)>, req: MailboxRecvArgs) -> Option<
    (usize, usize),
> {
    if exists|p: (usize, usize)| answers(response, req, Some(p)) {
        Some(choose|p: (usize, usize)| answers(response, req, Some(p)))
    } else {
        None
    }
}

/// At most one answer satisfies `answers`: it is `reply_pos`.
pub proof fn lemma_answer_unique(
    response: Seq<(MailboxId, Vec<MailboxEntry>)>,
    req: MailboxRecvArgs,
    a: Option<(usize, usize)>,
)
    requires
        answers(response, req, a),
    ensures
        a == reply_pos(response, req),
{
    match a {
        Some(p) => {
            let q = choose|q: (usize, usize)| answers(response, req, Some(q));
            assert(answers(response, req, Some(q)));
            if p.0 < q.0 {
                assert(response[p.0 as int].0@ != req.mailbox@);
            } else if q.0 < p.0 {
                assert(response[q.0 as int].0@ != req.mailbox@);
            }
            let entries = response[p.0 as int].1@;
            if p.1 < q.1 {
                assert(entries[p.1 as int].received_at.0 <= req.after.0);
            } else if q.1 < p.1 {
                assert(entries[q.1 as int].received_at.0 <= req.after.0);
            }
        },
        None => {
            if exists|p: (usize, usize)| answers(response, req, Some(p)) {
                let p = choose|p: (usize, usize)| answers(response, req, Some(p));
                assert(is_first_mailbox(response, req.mailbox, p.0 as int));
                assert(none_after(response[p.0 as int].1@, req.after.0));
                assert(response[p.0 as int].1@[p.1 as int].received_at.0 <= req.after.0);
            }
        },
    }
}

/// What came back from a long poll of the server.
#[derive(Debug)]
pub enum PollReply {
    /// The request did not reach the server, or its answer did not come back.
    Unreachable,
    /// The server answered with an error.
    Refused,
    /// The server answered with the entries of each polled mailbox.
    Entries(Vec<(MailboxId, Vec<MailboxEntry>)>),
}

/// What becomes of the pending requests after a poll: those answered, each by its position and
/// the positions of its entry in the reply; those that fail; and those that stay pending, in
/// their order.
#[derive(Debug)]
pub struct Settlement {
    pub answered: Vec<(usize, usize, usize)>,
    pub failed: Vec<usize>,
    pub kept: Vec<usize>,
}

/// The requests among the first `n` pending that a reply answers, in order, with the positions
/// of their entries.
pub open spec fn answered_upto(
    pending: Seq<MailboxRecvArgs>,
    response: Seq<(MailboxId, Vec<MailboxEntry>)>,
    n: int,
) -> Seq<(usize, usize, usize)>
    decreases n,
{
    if n <= 0 {
        Seq::empty()
    } else {
        let prev = answered_upto(pending, response, n - 1);
        match reply_pos(response, pending[n - 1]) {
            Some(p) => prev.push(((n - 1) as usize, p.0, p.1)),
            None => prev,
        }
    }
}

/// The requests among the first `n` pending that a reply leaves pending, in order.
pub open spec fn kept_upto(
    pending: Seq<MailboxRecvArgs>,
    response: Seq<(MailboxId, Vec<MailboxEntry>)>,
    n: int,
) -> Seq<usize>
    decreases n,
{
    if n <= 0 {
        Seq::empty()
    } else {
        let prev = kept_upto(pending, response, n - 1);
        match reply_pos(response, pending[n - 1]) {
            Some(_) => prev,
            None => prev.push((n - 1) as usize),
        }
    }
}

/// Every pending request is settled on its own: a request stays pending exactly when no entry
/// answers it, and is answered, once, with the entry that answers it otherwise.
pub proof fn lemma_settled_each(
    pending: Seq<MailboxRecvArgs>,
    response: Seq<(MailboxId, Vec<MailboxEntry>)>,
    n: int,
    i: int,
)
    requires
        0 <= n <= pending.len(),
        n <= usize::MAX,
    ensures
        0 <= i < n ==> (kept_upto(pending, response, n).contains(i as usize) <==> reply_pos(
            response,
            pending[i],
        ) is None),
        0 <= i < n ==> (reply_pos(response, pending[i]) matches Some(p) ==> answered_upto(
            pending,
            response,
            n,
        ).contains((i as usize, p.0, p.1))),
        forall|t: (usize, usize, usize)|
            #[trigger] answered_upto(pending, response, n).contains(t) ==> t.0 < n && reply_pos(
                response,
                pending[t.0 as int],
            ) == Some((t.1, t.2)),
        forall|x: usize| #[trigger] kept_upto(pending, response, n).contains(x) ==> x < n,
    decreases n,
{
    if n > 0 {
        lemma_settled_each(pending, response, n - 1, i);
        let ka = kept_upto(pending, response, n - 1);
        let k = kept_upto(pending, response, n);
        let aa = answered_upto(pending, response, n - 1);
        let a = answered_upto(pending, response, n);
        if 0 <= i < n {
            if k.contains(i as usize) {
                let j = choose|j: int| 0 <= j < k.len() && k[j] == i as usize;
                if j < ka.len() {
                    assert(ka[j] == i as usize);
                } else {
                    assert(i == n - 1);
                }
            }
            if i < n - 1 && ka.contains(i as usize) {
                let j = choose|j: int| 0 <= j < ka.len() && ka[j] == i as usize;
                assert(k[j] == i as usize);
            }
            if i == n - 1 && reply_pos(response, pending[i]) is None {
                assert(k[k.len() - 1] == i as usize);
            }
            if i < n - 1 && k.contains(i as usize) {
                assert(ka.contains(i as usize));
            }
            if let Some(p) = reply_pos(response, pending[i]) {
                if i == n - 1 {
                    assert(a[a.len() - 1] == (i as usize, p.0, p.1));
                } else {
                    let j = choose|j: int| 0 <= j < aa.len() && aa[j] == (i as usize, p.0, p.1);
                    assert(a[j] == aa[j]);
                }
            }
        }
        assert forall|x: usize| #[trigger] k.contains(x) implies x < n by {
            let j = choose|j: int| 0 <= j < k.len() && k[j] == x;
            if j < ka.len() {
                assert(ka[j] == x);
                assert(ka.contains(x));
            }
        }
        if 0 <= i < n && i == n - 1 && reply_pos(response, pending[i]) is Some {
            if k.contains(i as usize) {
                assert(ka.contains(i as usize));
            }
        }
        assert forall|t: (usize, usize, usize)| #[trigger] a.contains(t) implies t.0 < n && reply_pos(
            response,
            pending[t.0 as int],
        ) == Some((t.1, t.2)) by {
            let j = choose|j: int| 0 <= j < a.len() && a[j] == t;
            if j < aa.len() {
                assert(aa[j] == t);
                assert(aa.contains(t));
            }
        }
    }
}

/// Settles the pending requests after a poll. Where the server could not be reached, nothing is
/// settled and every request stays pending (`Err`). Where the server refused, every request
/// fails and none stays. Otherwise each request that an entry answers is answered with the
/// first entry of its mailbox received after the time it waits from, and the others stay
/// pending in their order.
pub fn settle_pending(pending: &Vec<MailboxRecvArgs>, reply: &PollReply) -> (r: Result<Settlement, ()>)
    ensures
        match reply {
            PollReply::Unreachable => r is Err,
            PollReply::Refused => r matches Ok(s) && s.answered@.len() == 0 && s.kept@.len() == 0
                && s.failed@ == Seq::new(pending@.len(), |i: int| i as usize),
            PollReply::Entries(response) => r matches Ok(s) && s.failed@.len() == 0 && s.answered@
                == answered_upto(pending@, response@, pending@.len() as int) && s.kept@
                == kept_upto(pending@, response@, pending@.len() as int),
        },
{
    match reply {
        PollReply::Unreachable => Err(()),
        PollReply::Refused => {
            let mut failed: Vec<usize> = Vec::new();
            let mut i: usize = 0;
            while i < pending.len()
                invariant
                    0 <= i <= pending@.len(),
                    failed@ == Seq::new(i as nat, |j: int| j as usize),
                decreases pending@.len() - i,
            {
                failed.push(i);
                i = i + 1;
                assert(failed@ =~= Seq::new(i as nat, |j: int| j as usize));
            }
            Ok(Settlement { answered: Vec::new(), failed, kept: Vec::new() })
        },
        PollReply::Entries(response) => {
            let found = poll_answers(pending, response);
            let mut answered: Vec<(usize, usize, usize)> = Vec::new();
            let mut kept: Vec<usize> = Vec::new();
            let mut i: usize = 0;
            while i < pending.len()
                invariant
                    0 <= i <= pending@.len(),
                    found@.len() == pending@.len(),
                    forall|j: int|
                        0 <= j < pending@.len() ==> answers(response@, pending@[j], #[trigger] found@[j]),
                    answered@ == answered_upto(pending@, response@, i as int),
                    kept@ == kept_upto(pending@, response@, i as int),
                decreases pending@.len() - i,
            {
                proof {
                    lemma_answer_unique(response@, pending@[i as int], found@[i as int]);
                }
                match found[i] {
                    Some((m, k)) => answered.push((i, m, k)),
                    None => kept.push(i),
                }
                i = i + 1;
            }
            Ok(Settlement { answered, failed: Vec::new(), kept })
        },
    }
}

} // verus!
