use xirtam::client::long_poll::{
    settle_pending, PollReply,
    aimd_decrease, aimd_increase, build_args, first_entry_after, poll_answers, timeout_after_poll,
    PollOutcome, LONG_POLL_MAX_MS, LONG_POLL_MIN_MS,
};
use xirtam::structs::blob::Blob;
use xirtam::structs::server::{AuthToken, MailboxEntry, MailboxId, MailboxRecvArgs};
use xirtam::structs::timestamp::NanoTimestamp;

fn mailbox(b: u8) -> MailboxId {
    MailboxId(xirtam::crypt::hash::Hash::from_bytes([b; 32]))
}

fn entry(t: u64) -> MailboxEntry {
    MailboxEntry {
        message: Blob {
            kind: "v1.direct_message".to_string(),
            inner: vec![t as u8],
        },
        received_at: NanoTimestamp(t),
        sender_auth_token_hash: None,
    }
}

#[test]
fn aimd_steps() {
    assert_eq!(aimd_increase(15_000), 20_000);
    assert_eq!(aimd_increase(LONG_POLL_MAX_MS), LONG_POLL_MAX_MS);
    assert_eq!(aimd_increase(u64::MAX), LONG_POLL_MAX_MS);
    assert_eq!(aimd_decrease(100_000), 50_000);
    assert_eq!(aimd_decrease(20_000), LONG_POLL_MIN_MS);
    assert_eq!(aimd_decrease(15_001), LONG_POLL_MIN_MS);
    assert_eq!(aimd_decrease(3_600_001), LONG_POLL_MAX_MS);
}

#[test]
fn timeout_follows_outcomes() {
    assert_eq!(timeout_after_poll(40_000, PollOutcome::TransportError), 20_000);
    assert_eq!(timeout_after_poll(40_000, PollOutcome::Entries { empty: true }), 45_000);
    assert_eq!(timeout_after_poll(40_000, PollOutcome::Entries { empty: false }), 40_000);
    assert_eq!(timeout_after_poll(40_000, PollOutcome::ServerError), 40_000);
}

#[test]
fn timeout_stays_in_bounds() {
    let mut t = LONG_POLL_MIN_MS;
    for i in 0..1000u64 {
        let outcome = if i % 7 == 0 {
            PollOutcome::TransportError
        } else {
            PollOutcome::Entries { empty: true }
        };
        t = timeout_after_poll(t, outcome);
        assert!(t >= LONG_POLL_MIN_MS && t <= LONG_POLL_MAX_MS);
    }
}

#[test]
fn requests_for_one_mailbox_are_merged() {
    let auth = AuthToken([1u8; 20]);
    let other_auth = AuthToken([2u8; 20]);
    let pending = vec![
        MailboxRecvArgs { auth, mailbox: mailbox(1), after: NanoTimestamp(50) },
        MailboxRecvArgs { auth, mailbox: mailbox(2), after: NanoTimestamp(7) },
        MailboxRecvArgs { auth, mailbox: mailbox(1), after: NanoTimestamp(20) },
        MailboxRecvArgs { auth: other_auth, mailbox: mailbox(1), after: NanoTimestamp(30) },
    ];
    let (args, groups) = build_args(&pending);
    assert_eq!(args.len(), 3);
    assert_eq!(args[0].mailbox, mailbox(1));
    assert_eq!(args[0].after, NanoTimestamp(20));
    assert_eq!(groups[0], vec![0, 2]);
    assert_eq!(args[1].mailbox, mailbox(2));
    assert_eq!(args[1].after, NanoTimestamp(7));
    assert_eq!(groups[1], vec![1]);
    assert_eq!(args[2].auth, other_auth);
    assert_eq!(groups[2], vec![3]);
}

#[test]
fn first_entry_after_a_time() {
    let entries = vec![entry(5), entry(10), entry(15)];
    assert_eq!(first_entry_after(&entries, NanoTimestamp(0)), Some(0));
    assert_eq!(first_entry_after(&entries, NanoTimestamp(10)), Some(2));
    assert_eq!(first_entry_after(&entries, NanoTimestamp(15)), None);
}

#[test]
fn answers_go_to_waiting_requests() {
    let auth = AuthToken([1u8; 20]);
    let pending = vec![
        MailboxRecvArgs { auth, mailbox: mailbox(1), after: NanoTimestamp(5) },
        MailboxRecvArgs { auth, mailbox: mailbox(1), after: NanoTimestamp(20) },
        MailboxRecvArgs { auth, mailbox: mailbox(3), after: NanoTimestamp(0) },
    ];
    let response = vec![(mailbox(1), vec![entry(5), entry(10)]), (mailbox(2), vec![entry(1)])];
    let answers = poll_answers(&pending, &response);
    assert_eq!(answers, vec![Some((0, 1)), None, None]);
}

#[test]
fn settle_pending_after_each_reply() {
    let auth = AuthToken([1u8; 20]);
    let pending = vec![
        MailboxRecvArgs { auth, mailbox: mailbox(1), after: NanoTimestamp(5) },
        MailboxRecvArgs { auth, mailbox: mailbox(1), after: NanoTimestamp(20) },
        MailboxRecvArgs { auth, mailbox: mailbox(2), after: NanoTimestamp(0) },
        MailboxRecvArgs { auth, mailbox: mailbox(3), after: NanoTimestamp(0) },
    ];
    assert!(settle_pending(&pending, &PollReply::Unreachable).is_err());
    let refused = settle_pending(&pending, &PollReply::Refused).unwrap();
    assert_eq!(refused.failed, vec![0, 1, 2, 3]);
    assert!(refused.answered.is_empty() && refused.kept.is_empty());
    let response = vec![(mailbox(1), vec![entry(5), entry(10)]), (mailbox(2), vec![entry(1)])];
    let settled = settle_pending(&pending, &PollReply::Entries(response)).unwrap();
    assert_eq!(settled.answered, vec![(0, 0, 1), (2, 1, 0)]);
    assert_eq!(settled.kept, vec![1, 3]);
    assert!(settled.failed.is_empty());
    let empty = settle_pending(&pending, &PollReply::Entries(Vec::new())).unwrap();
    assert_eq!(empty.kept, vec![0, 1, 2, 3]);
    assert!(empty.answered.is_empty());
}
