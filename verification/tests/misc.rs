use xirtam::client::proxy::{initial_state, on_proxy_error, route, ProxyFallback, Route};
use xirtam::display::{body_preview, flatten_rpc, truncate_text};
use xirtam::gateway::{
    bytes_to_hash, bytes_to_pk, bytes_to_signature, created_to_timestamp, device_auth_decision,
    medium_pk_decision, timestamp_to_created, GatewayServerError,
};
use xirtam::multitool::{chain_init, chain_issue, expiry_from_ttl, expiry_from_ttl_at, read_up_to};
use xirtam::rpc_pool::{RpcPoolBuilder, TransportSlots};
use xirtam::structs::blob::Blob;
use xirtam::structs::certificate::DeviceSecret;
use xirtam::structs::event::{Event, EventPayload, EventPayloadError, Recipient};
use xirtam::structs::fragment::Attachment;
use xirtam::structs::group::GroupId;
use xirtam::structs::server::{AuthToken, MailboxEntry, MailboxId, ProxyError, ServerName};
use xirtam::structs::timestamp::{NanoTimestamp, Timestamp};
use xirtam::structs::username::{UserDescriptor, UserName};

#[test]
fn proxy_routes() {
    let own = Some(ServerName::parse("~home_1").unwrap());
    let target = ServerName::parse("~away_1").unwrap();
    let mut state = initial_state(&own, &target);
    assert!(!state.unsupported);
    assert_eq!(route(&state, &own, &target), Route::Proxy);
    assert_eq!(route(&state, &own, &own.clone().unwrap()), Route::Direct);
    assert_eq!(route(&state, &None, &target), Route::Direct);
    match on_proxy_error(&mut state, &ProxyError::Upstream("boom".to_string())) {
        ProxyFallback::Fail(m) => assert_eq!(m, "boom"),
        other => panic!("unexpected {:?}", other),
    }
    assert!(!state.unsupported);
    assert!(matches!(
        on_proxy_error(&mut state, &ProxyError::NotSupported),
        ProxyFallback::RetryDirect
    ));
    assert_eq!(route(&state, &own, &target), Route::Direct);
    assert!(initial_state(&own, &own.clone().unwrap()).unsupported);
    assert!(initial_state(&None, &target).unsupported);
}

#[test]
fn rpc_pool_settings_and_slots() {
    assert_eq!(RpcPoolBuilder::new().max_concurrency, 1);
    assert_eq!(RpcPoolBuilder::default().max_concurrency, 1);
    let b = RpcPoolBuilder::new().max_concurrency(3);
    assert_eq!(b.max_concurrency, 3);
    let mut slots = b.build_slots();
    assert_eq!(slots.next_slot(), 0);
    assert_eq!(slots.next_slot(), 1);
    assert_eq!(slots.next_slot(), 2);
    assert_eq!(slots.next_slot(), 0);
    assert_eq!(slots.get(2), None);
    assert_eq!(slots.get_or_insert(2, 10), (10, true));
    assert_eq!(slots.get_or_insert(2, 11), (10, false));
    assert_eq!(slots.get(0), None);
    assert_eq!(slots.get_or_insert(0, 12), (12, true));
    slots.drop_transport(10);
    assert_eq!(slots.get(2), None);
    assert_eq!(slots.get(0), Some(12));
    let mut one = TransportSlots::new(1);
    assert_eq!(one.next_slot(), 0);
    assert_eq!(one.next_slot(), 0);
}

#[test]
fn text_previews() {
    assert_eq!(truncate_text("short", 120), "short");
    assert_eq!(truncate_text("abcdef", 3), "abc...");
    assert_eq!(truncate_text("héllo", 3), "hé...");
    assert_eq!(truncate_text("abc", 3), "abc");
    let ok: Result<Result<u8, String>, String> = Ok(Ok(4));
    assert_eq!(flatten_rpc(ok), Ok(4));
    let inner: Result<Result<u8, String>, String> = Ok(Err("inner".to_string()));
    assert_eq!(flatten_rpc(inner), Err("inner".to_string()));
    let outer: Result<Result<u8, String>, String> = Err("outer".to_string());
    assert_eq!(flatten_rpc(outer), Err("outer".to_string()));
}

#[test]
fn gateway_rows() {
    assert_eq!(bytes_to_hash(&[7u8; 32]).unwrap().to_bytes(), [7u8; 32]);
    assert_eq!(bytes_to_hash(&[7u8; 31]).err(), Some(GatewayServerError::RetryLater));
    assert_eq!(bytes_to_pk(&[1u8; 32]).unwrap().to_bytes(), [1u8; 32]);
    assert!(bytes_to_pk(&[1u8; 33]).is_err());
    assert_eq!(bytes_to_signature(&[2u8; 64]).unwrap().to_bytes(), [2u8; 64]);
    assert!(bytes_to_signature(&[2u8; 32]).is_err());
    assert_eq!(created_to_timestamp(5), Ok(Timestamp(5)));
    assert_eq!(created_to_timestamp(-1), Err(GatewayServerError::RetryLater));
    assert_eq!(timestamp_to_created(Timestamp(9)), Ok(9));
    assert_eq!(
        timestamp_to_created(Timestamp(u64::MAX)),
        Err(GatewayServerError::RetryLater)
    );
}

#[test]
fn gateway_device_auth() {
    let root = DeviceSecret::random();
    let chain = chain_init(&root, Timestamp(u64::MAX), false);
    let own = ServerName::parse("~gate_1").unwrap();
    let descriptor = UserDescriptor {
        server_name: own.clone(),
        root_cert_hash: root.public().bcs_hash(),
    };
    let fresh = AuthToken([5u8; 20]);
    let existing = AuthToken([6u8; 20]);
    assert_eq!(
        device_auth_decision(Some(descriptor.clone()), &own, &chain, &chain, Timestamp(0), None, fresh),
        Ok((fresh, true))
    );
    assert_eq!(
        device_auth_decision(
            Some(descriptor.clone()),
            &own,
            &chain,
            &chain,
            Timestamp(0),
            Some(existing),
            fresh
        ),
        Ok((existing, false))
    );
    assert_eq!(
        device_auth_decision(None, &own, &chain, &chain, Timestamp(0), None, fresh),
        Err(GatewayServerError::AccessDenied)
    );
    let elsewhere = ServerName::parse("~gate_2").unwrap();
    assert_eq!(
        device_auth_decision(Some(descriptor.clone()), &elsewhere, &chain, &chain, Timestamp(0), None, fresh),
        Err(GatewayServerError::AccessDenied)
    );
    let stranger = DeviceSecret::random();
    let bad = UserDescriptor {
        server_name: own.clone(),
        root_cert_hash: stranger.public().bcs_hash(),
    };
    assert_eq!(
        device_auth_decision(Some(bad), &own, &chain, &chain, Timestamp(0), None, fresh),
        Err(GatewayServerError::AccessDenied)
    );
    let foreign = chain_init(&stranger, Timestamp(u64::MAX), false);
    assert_eq!(
        device_auth_decision(Some(descriptor.clone()), &own, &chain, &foreign, Timestamp(0), None, fresh),
        Err(GatewayServerError::AccessDenied)
    );
}

#[test]
fn gateway_medium_keys() {
    let root = DeviceSecret::random();
    let leaf = DeviceSecret::random();
    let chain = chain_issue(
        chain_init(&root, Timestamp(u64::MAX), false),
        &root,
        &leaf,
        Timestamp(u64::MAX),
        true,
    );
    let leaf_hash = leaf.public().bcs_hash();
    let sk = xirtam::crypt::dh::DhSecret::from_bytes([3u8; 32]);
    let signed = xirtam::client::medium_keys::new_signed_medium_pk(&sk, &leaf.0, Timestamp(77));
    assert_eq!(medium_pk_decision(&chain, &leaf_hash, &signed), Ok(77));
    let by_root =
        xirtam::client::medium_keys::new_signed_medium_pk(&sk, &root.0, Timestamp(77));
    assert_eq!(
        medium_pk_decision(&chain, &leaf_hash, &by_root),
        Err(GatewayServerError::AccessDenied)
    );
    let unknown = xirtam::crypt::hash::Hash::from_bytes([0u8; 32]);
    assert_eq!(
        medium_pk_decision(&chain, &unknown, &signed),
        Err(GatewayServerError::AccessDenied)
    );
    let late = xirtam::client::medium_keys::new_signed_medium_pk(&sk, &leaf.0, Timestamp(u64::MAX));
    assert_eq!(
        medium_pk_decision(&chain, &leaf_hash, &late),
        Err(GatewayServerError::RetryLater)
    );
}

#[test]
fn tool_chains_and_expiry() {
    assert_eq!(expiry_from_ttl_at(Timestamp(10), Some(5)), Timestamp(15));
    assert_eq!(expiry_from_ttl_at(Timestamp(10), None), Timestamp(u64::MAX));
    assert_eq!(expiry_from_ttl_at(Timestamp(u64::MAX - 1), Some(5)), Timestamp(u64::MAX));
    assert_eq!(expiry_from_ttl(None), Timestamp(u64::MAX));
    let root = DeviceSecret::random();
    let leaf = DeviceSecret::random();
    let chain = chain_init(&root, Timestamp(u64::MAX), false);
    assert!(chain.this.can_issue);
    let issued = chain_issue(chain_init(&root, Timestamp(u64::MAX), false), &root, &leaf, Timestamp(100), true);
    assert_eq!(issued.ancestors.len(), 1);
    assert_eq!(issued.this.expiry, Timestamp(100));
    assert!(issued.verify_at(root.public().bcs_hash(), Timestamp(50)).is_ok());
    let entries = vec![MailboxEntry {
        message: Blob { kind: "k".to_string(), inner: vec![] },
        received_at: NanoTimestamp(33),
        sender_auth_token_hash: None,
    }];
    assert_eq!(read_up_to(&entries, NanoTimestamp(1)), NanoTimestamp(33));
    assert_eq!(read_up_to(&Vec::new(), NanoTimestamp(1)), NanoTimestamp(1));
}

#[test]
fn event_mime_checks() {
    assert_eq!(Attachment::mime(), "application/vnd.nullspace.v1.attachment");
    let event = Event::from_payload_body::<Attachment>(
        Recipient::Group(GroupId::from_bytes([1u8; 32])),
        NanoTimestamp(5),
        b"{}".to_vec(),
    );
    assert_eq!(event.mime, "application/vnd.nullspace.v1.attachment");
    assert!(event.check_payload_mime::<Attachment>().is_ok());
    let other = Event {
        recipient: Recipient::User(UserName::parse("@bobby").unwrap()),
        sent_at: NanoTimestamp(5),
        mime: "text/plain".to_string(),
        body: Vec::new(),
    };
    match other.check_payload_mime::<Attachment>() {
        Err(EventPayloadError::UnexpectedMime(m)) => assert_eq!(m, "text/plain"),
        r => panic!("unexpected {:?}", r),
    }
}

#[test]
fn mailboxes_are_distinct() {
    let g = GroupId::from_bytes([1u8; 32]);
    assert_eq!(MailboxId::group(&g), MailboxId::group_messages(&g));
    assert_ne!(MailboxId::group_messages(&g), MailboxId::group_management(&g));
    let u = UserName::parse("@bobby").unwrap();
    assert_ne!(MailboxId::direct(&u), MailboxId::direct(&UserName::parse("@carol").unwrap()));
    assert_eq!(AuthToken::anonymous().to_bytes(), [0u8; 20]);
    assert_ne!(AuthToken::random().to_bytes(), AuthToken::random().to_bytes());
}

#[test]
fn blob_kinds() {
    let b = Blob {
        kind: Blob::V1_DIRECT_MESSAGE.to_string(),
        inner: vec![1, 2, 3],
    };
    assert!(b.has_kind("v1.direct_message"));
    assert!(!b.has_kind("v1.group_message"));
    let mut out = Vec::new();
    b.encode_into(&mut out);
    assert_eq!(out.len(), 1 + 17 + 1 + 3);
    assert_eq!(out[0], 17);
    assert_eq!(&out[1..18], b"v1.direct_message");
    assert_eq!(&out[18..], &[3, 1, 2, 3]);
}

#[test]
fn body_preview_shows_text_or_size() {
    assert_eq!(body_preview(b"hello"), "hello");
    assert_eq!(body_preview(b""), "");
    let long = "a".repeat(121);
    assert_eq!(body_preview(long.as_bytes()), format!("{}...", "a".repeat(120)));
    let exact = "b".repeat(120);
    assert_eq!(body_preview(exact.as_bytes()), exact);
    assert_eq!(body_preview(&[0xff, 0xfe]), "<2 bytes>");
    let mut binary = vec![0u8; 1234];
    binary[0] = 0xc3;
    assert_eq!(body_preview(&binary), "<1234 bytes>");
}

#[test]
fn gateway_device_auth_keeps_one_token_per_device() {
    let root = DeviceSecret::random();
    let chain = chain_init(&root, Timestamp(u64::MAX), false);
    let own = ServerName::parse("~gate_1").unwrap();
    let user = UserName::parse("@alice_01").unwrap();
    let descriptor = UserDescriptor {
        server_name: own.clone(),
        root_cert_hash: root.public().bcs_hash(),
    };
    let mut store = xirtam::gateway::AuthTokenStore::new();
    let first = xirtam::gateway::device_auth(
        &mut store,
        &user,
        Some(descriptor.clone()),
        &own,
        &chain,
        &chain,
        Timestamp(0),
        AuthToken([1u8; 20]),
    );
    assert_eq!(first, Ok((AuthToken([1u8; 20]), true)));
    let again = xirtam::gateway::device_auth(
        &mut store,
        &user,
        Some(descriptor.clone()),
        &own,
        &chain,
        &chain,
        Timestamp(0),
        AuthToken([2u8; 20]),
    );
    assert_eq!(again, Ok((AuthToken([1u8; 20]), false)));
    let device = root.public().bcs_hash();
    assert_eq!(store.get(&user, &device), Some(AuthToken([1u8; 20])));
    let other = DeviceSecret::random();
    let other_chain = chain_init(&other, Timestamp(u64::MAX), false);
    let refused = xirtam::gateway::device_auth(
        &mut store,
        &user,
        Some(descriptor.clone()),
        &own,
        &other_chain,
        &other_chain,
        Timestamp(0),
        AuthToken([3u8; 20]),
    );
    assert_eq!(refused, Err(GatewayServerError::AccessDenied));
    assert_eq!(store.get(&user, &other.public().bcs_hash()), None);
    let bob = UserName::parse("@bob_the_builder").unwrap();
    assert_eq!(store.get(&bob, &device), None);
}
