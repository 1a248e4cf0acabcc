use xirtam::client::notify::notify_decision;
use xirtam::structs::timestamp::NanoTimestamp;
use xirtam::client::convo::{
    admin_acl, check_group_server, check_invitee, member_acl, parse_rekey_payload, rekey_payload,
    GroupError,
};
use xirtam::client::convo_window::ConvoWindow;
use xirtam::crypt::aead::AeadKey;
use xirtam::display::short_group_id;
use xirtam::gateway::{name_registration, signing_secret_from_bytes, NameAction, NameError};
use xirtam::rpc_pool::{transport_kind, TransportKind};
use xirtam::structs::group::GroupId;
use xirtam::structs::server::{AuthToken, ServerDescriptor, ServerName};
use xirtam::structs::username::UserName;

#[test]
fn window_tracks_oldest_and_newest() {
    let mut w = ConvoWindow::default();
    assert_eq!(w.newer_after(), 0);
    w.load_initial(&vec![(10, true), (7, true), (12, false)]);
    assert!(w.initialized);
    assert_eq!(w.oldest_id, Some(7));
    assert_eq!(w.latest_received_id, Some(10));
    assert_eq!(w.newer_after(), 11);
    assert_eq!(w.older_before(), Some(6));
    w.on_older_page(&vec![(3, true), (5, true)]);
    assert_eq!(w.oldest_id, Some(3));
    assert_eq!(w.latest_received_id, Some(10));
    w.on_older_page(&Vec::new());
    assert!(w.no_more_older);
    assert_eq!(w.older_before(), None);
    assert_eq!(ConvoWindow::next_after(&vec![(20, true), (21, true)]), Some(22));
    assert_eq!(ConvoWindow::next_after(&Vec::new()), None);
}

#[test]
fn window_edges() {
    let mut w = ConvoWindow::default();
    assert_eq!(w.older_before(), None);
    assert!(w.no_more_older);
    let mut w = ConvoWindow::default();
    w.apply_messages(&vec![(i64::MIN, false), (i64::MAX, true)]);
    assert_eq!(w.newer_after(), 0);
    assert_eq!(w.older_before(), None);
    assert!(w.no_more_older);
}

#[test]
fn group_ids_are_shortened() {
    let mut bytes = [0u8; 32];
    bytes[0] = 0x0a;
    bytes[1] = 0xff;
    bytes[2] = 0x10;
    bytes[3] = 0x9c;
    bytes[4] = 0x77;
    assert_eq!(short_group_id(&GroupId::from_bytes(bytes)), "0aff109c");
}

#[test]
fn group_access_lists() {
    let t = AuthToken([8u8; 20]);
    let admin = admin_acl(&t);
    let member = member_acl(&t);
    assert_eq!(admin.token_hash, t.bcs_hash());
    let mut token_bcs = vec![20u8];
    token_bcs.extend_from_slice(&[8u8; 20]);
    assert_eq!(admin.token_hash, xirtam::crypt::hash::Hash::digest(&token_bcs));
    assert!(admin.can_edit_acl && admin.can_send && admin.can_recv);
    assert!(!member.can_edit_acl && member.can_send && member.can_recv);
}

#[test]
fn group_checks() {
    let a = ServerName::parse("~serv_01").unwrap();
    let b = ServerName::parse("~serv_02").unwrap();
    assert_eq!(check_group_server(&a, &a), Ok(()));
    assert_eq!(check_group_server(&a, &b), Err(GroupError::ServerMismatch));
    let me = UserName::parse("@myself").unwrap();
    let bob = UserName::parse("@bobby").unwrap();
    assert_eq!(check_invitee(&bob, &me), Ok(()));
    assert_eq!(check_invitee(&me, &me), Err(GroupError::SelfInvite));
}

#[test]
fn rekey_payload_round_trip() {
    let g = GroupId::from_bytes([4u8; 32]);
    let k = AeadKey::from_bytes([9u8; 32]);
    let blob = rekey_payload(&g, &k);
    assert_eq!(blob.kind, "v1.aead_key");
    assert_eq!(blob.inner.len(), 65);
    assert_eq!(blob.inner[0], 32);
    let (g2, k2) = parse_rekey_payload(&blob.inner).expect("payload");
    assert_eq!(g2, g);
    assert_eq!(k2.to_bytes(), k.to_bytes());
    assert!(parse_rekey_payload(&blob.inner[..64]).is_none());
}

#[test]
fn transport_schemes() {
    assert_eq!(transport_kind("http"), Some(TransportKind::Http));
    assert_eq!(transport_kind("https"), Some(TransportKind::Http));
    assert_eq!(transport_kind("tcp"), Some(TransportKind::Tcp));
    assert_eq!(transport_kind("lz4tcp"), Some(TransportKind::Lz4Tcp));
    assert_eq!(transport_kind("ftp"), None);
}

#[test]
fn gateway_name_registration() {
    let sk = signing_secret_from_bytes(&[3u8; 32]).expect("key");
    assert!(signing_secret_from_bytes(&[3u8; 31]).is_none());
    let wanted = ServerDescriptor {
        public_urls: vec!["https://a.example".to_string()],
        server_pk: sk.public_key(),
    };
    assert_eq!(name_registration(&None, &wanted), Ok(NameAction::Register));
    assert_eq!(
        name_registration(&Some(wanted.clone()), &wanted),
        Ok(NameAction::AlreadyRegistered)
    );
    let other = ServerDescriptor {
        public_urls: vec!["https://b.example".to_string()],
        server_pk: sk.public_key(),
    };
    assert_eq!(
        name_registration(&Some(other), &wanted),
        Err(NameError::DescriptorMismatch)
    );
}

#[test]
fn notifications_once_per_message() {
    let peer = UserName::parse("@bobby").unwrap();
    let me = UserName::parse("@myself").unwrap();
    let t = Some(NanoTimestamp(50));
    assert_eq!(notify_decision(false, &peer, &peer, t, 10), Some(50));
    assert_eq!(notify_decision(false, &peer, &peer, t, 50), None);
    assert_eq!(notify_decision(true, &peer, &peer, t, 10), None);
    assert_eq!(notify_decision(false, &peer, &me, t, 10), None);
    assert_eq!(notify_decision(false, &peer, &peer, None, 0), None);
}
