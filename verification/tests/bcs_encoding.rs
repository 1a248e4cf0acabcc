use xirtam::client::convo::{create_group_descriptor, new_group_descriptor, GroupError};
use xirtam::crypt::aead::AeadKey;
use xirtam::structs::server::ServerName;
use xirtam::structs::timestamp::Timestamp;
use xirtam::structs::username::UserName;
use xirtam::crypt::signing::SigningSecret;
use xirtam::dirclient::listing::{signed_update, update_hash};
use xirtam::structs::blob::Blob;
use xirtam::structs::directory::{DirectoryHeader, DirectoryUpdate, DirectoryUpdateInner};
use xirtam::structs::fragment::{Attachment, Fragment, FragmentLeaf, FragmentNode};

fn update_bcs(u: &DirectoryUpdate) -> Vec<u8> {
    let mut out = bcs::to_bytes(&u.prev_update_hash.to_bytes().to_vec()).unwrap();
    match &u.update_type {
        DirectoryUpdateInner::AddOwner(pk) => {
            out.extend(bcs::to_bytes(&(0u8, pk.to_bytes().to_vec())).unwrap())
        }
        DirectoryUpdateInner::DelOwner(pk) => {
            out.extend(bcs::to_bytes(&(1u8, pk.to_bytes().to_vec())).unwrap())
        }
        DirectoryUpdateInner::Update(b) => {
            out.extend(bcs::to_bytes(&(2u8, b.kind.clone(), b.inner.clone())).unwrap())
        }
    }
    out.extend(bcs::to_bytes(&u.signature.to_bytes().to_vec()).unwrap());
    out
}

#[test]
fn update_encoding_is_bcs() {
    let owner = SigningSecret::from_bytes([3u8; 32]);
    let first = signed_update(
        xirtam::crypt::hash::Hash::zero(),
        DirectoryUpdateInner::AddOwner(owner.public_key()),
        &owner,
    );
    assert_eq!(first.encode(), update_bcs(&first));
    let big = vec![0xabu8; 300];
    let second = signed_update(
        update_hash(&first).unwrap(),
        DirectoryUpdateInner::Update(Blob {
            kind: "v1.user_descriptor".to_string(),
            inner: big.clone(),
        }),
        &owner,
    );
    let enc = second.encode();
    assert_eq!(enc, update_bcs(&second));
    assert_eq!(
        update_hash(&second).unwrap(),
        xirtam::crypt::hash::Hash::digest(&update_bcs(&second))
    );
    let mut signed = bcs::to_bytes(&second.prev_update_hash.to_bytes().to_vec()).unwrap();
    signed.extend(bcs::to_bytes(&(2u8, "v1.user_descriptor".to_string(), big)).unwrap());
    assert_eq!(second.signed_value(), signed);
}

#[test]
fn blob_encoding_is_bcs() {
    let b = Blob {
        kind: "v1.direct_message".to_string(),
        inner: vec![7u8; 200],
    };
    let mut out = Vec::new();
    b.encode_into(&mut out);
    assert_eq!(out, bcs::to_bytes(&(b.kind.clone(), b.inner.clone())).unwrap());
}

#[test]
fn header_encoding_is_bcs() {
    let h = DirectoryHeader {
        prev: xirtam::crypt::hash::Hash::from_bytes([1u8; 32]),
        smt_root: xirtam::crypt::hash::Hash::from_bytes([2u8; 32]),
        time_unix: 1_700_000_000,
    };
    let expected = bcs::to_bytes(&(vec![1u8; 32], vec![2u8; 32], 1_700_000_000u64)).unwrap();
    assert_eq!(h.encode(), expected);
}

#[test]
fn fragment_encodings_are_bcs() {
    let leaf = FragmentLeaf {
        nonce: [5u8; 24],
        data: vec![9u8; 130],
    };
    let leaf_bcs = bcs::to_bytes(&(1u8, vec![5u8; 24], vec![9u8; 130])).unwrap();
    assert_eq!(Fragment::Leaf(leaf.clone()).encode(), leaf_bcs);
    assert_eq!(leaf.hash(), xirtam::crypt::hash::Hash::digest(&leaf_bcs));
    let children = vec![(xirtam::crypt::hash::Hash::from_bytes([4u8; 32]), 10u64), (leaf.hash(), 114u64)];
    let wire_children: Vec<(Vec<u8>, u64)> = children
        .iter()
        .map(|(h, s)| (h.to_bytes().to_vec(), *s))
        .collect();
    let node = FragmentNode {
        children: children.clone(),
    };
    let node_bcs = bcs::to_bytes(&(0u8, wire_children.clone())).unwrap();
    assert_eq!(Fragment::Node(node.clone()).encode(), node_bcs);
    assert_eq!(node.hash(), xirtam::crypt::hash::Hash::digest(&node_bcs));
    let att = Attachment {
        filename: "notes.txt".to_string(),
        mime: "text/plain".to_string(),
        children,
        content_key: AeadKey::from_bytes([8u8; 32]),
    };
    let att_bcs = bcs::to_bytes(&(
        "notes.txt".to_string(),
        "text/plain".to_string(),
        wire_children,
        vec![8u8; 32],
    ))
    .unwrap();
    assert_eq!(att.encode(), att_bcs);
    assert_eq!(att.hash(), xirtam::crypt::hash::Hash::digest(&att_bcs));
}

#[test]
fn key_hashes_cover_bcs_bytes() {
    let secret = xirtam::structs::certificate::DeviceSecret::random();
    let public = secret.public();
    let pk = public.signing_public().to_bytes();
    assert_eq!(
        public.bcs_hash(),
        xirtam::crypt::hash::Hash::digest(&bcs::to_bytes(&pk.to_vec()).unwrap())
    );
    let token = xirtam::structs::server::AuthToken::anonymous();
    assert_eq!(
        token.bcs_hash(),
        xirtam::crypt::hash::Hash::digest(&bcs::to_bytes(&vec![0u8; 20]).unwrap())
    );
}

#[test]
fn group_id_is_hash_of_descriptor() {
    let me = UserName::parse("@alice_01").unwrap();
    let home = ServerName::parse("~home_server").unwrap();
    let other = ServerName::parse("~other_server").unwrap();
    let (d, id) = new_group_descriptor(
        &me,
        &home,
        &home,
        xirtam::crypt::hash::Hash::from_bytes([2u8; 32]),
        Timestamp(1234),
        AeadKey::from_bytes([3u8; 32]),
    )
    .unwrap();
    let expected = bcs::to_bytes(&(
        vec![2u8; 32],
        "@alice_01".to_string(),
        1234u64,
        "~home_server".to_string(),
        vec![3u8; 32],
    ))
    .unwrap();
    assert_eq!(d.encode(), expected);
    assert_eq!(id.as_bytes(), xirtam::crypt::hash::Hash::digest(&expected).to_bytes());
    assert_eq!(
        new_group_descriptor(
            &me,
            &home,
            &other,
            xirtam::crypt::hash::Hash::from_bytes([2u8; 32]),
            Timestamp(1234),
            AeadKey::from_bytes([3u8; 32]),
        )
        .unwrap_err(),
        GroupError::ServerMismatch
    );
    let (fresh, fresh_id) = create_group_descriptor(&me, &home, &home).unwrap();
    assert_eq!(fresh.init_admin, me);
    assert_eq!(fresh_id, fresh.id());
    assert!(create_group_descriptor(&me, &home, &other).is_err());
}
