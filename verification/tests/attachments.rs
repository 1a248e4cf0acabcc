use xirtam::client::attachments::candidate_name;
use xirtam::client::attachments::DownloadsInProgress;
use xirtam::client::attachments::saved_copy_complete;
use xirtam::client::attachments::{
    build_fragment_tree, chunk_plan, child_offsets, fragment_step, sanitize_filename, seal_chunk,
    split_extension, DownloadError, FragmentStep, CHUNK_SIZE_BYTES,
};
use xirtam::crypt::aead::AeadKey;
use xirtam::structs::fragment::{Attachment, Fragment, FragmentLeaf, FragmentNode};

fn h(n: u8) -> xirtam::crypt::hash::Hash {
    xirtam::crypt::hash::Hash::from_bytes([n; 32])
}

#[test]
fn chunking_covers_the_file() {
    assert!(chunk_plan(0).is_empty());
    assert_eq!(chunk_plan(1), vec![(0, 1)]);
    assert_eq!(chunk_plan(CHUNK_SIZE_BYTES), vec![(0, CHUNK_SIZE_BYTES)]);
    assert_eq!(
        chunk_plan(CHUNK_SIZE_BYTES + 1),
        vec![(0, CHUNK_SIZE_BYTES), (CHUNK_SIZE_BYTES, 1)]
    );
    let plan = chunk_plan(10 * CHUNK_SIZE_BYTES - 3);
    assert_eq!(plan.len(), 10);
    let total: u64 = plan.iter().map(|(_, len)| *len).sum();
    assert_eq!(total, 10 * CHUNK_SIZE_BYTES - 3);
}

#[test]
fn offsets_are_prefix_sums() {
    let attachment = Attachment {
        filename: "a.txt".to_string(),
        mime: "text/plain".to_string(),
        children: vec![(h(1), 10), (h(2), 5), (h(3), 7)],
        content_key: AeadKey::from_bytes([0u8; 32]),
    };
    assert_eq!(attachment.total_size(), 22);
    assert_eq!(child_offsets(&attachment), vec![(h(1), 0), (h(2), 10), (h(3), 15)]);
}

#[test]
fn offsets_saturate() {
    let attachment = Attachment {
        filename: "a".to_string(),
        mime: "b".to_string(),
        children: vec![(h(1), u64::MAX), (h(2), 5), (h(3), 7)],
        content_key: AeadKey::from_bytes([0u8; 32]),
    };
    assert_eq!(
        child_offsets(&attachment),
        vec![(h(1), 0), (h(2), u64::MAX), (h(3), u64::MAX)]
    );
}

#[test]
fn small_uploads_need_no_nodes() {
    let leaves: Vec<_> = (0..32u8).map(|i| (h(i), 100)).collect();
    let (nodes, root) = build_fragment_tree(leaves.clone());
    assert!(nodes.is_empty());
    assert_eq!(root, leaves);
}

#[test]
fn large_uploads_are_grouped() {
    let leaves: Vec<_> = (0..33u8).map(|i| (h(i), 1 + i as u64)).collect();
    let total: u64 = leaves.iter().map(|(_, s)| *s).sum();
    let (nodes, root) = build_fragment_tree(leaves.clone());
    assert_eq!(nodes.len(), 2);
    assert_eq!(nodes[0].children.len(), 32);
    assert_eq!(nodes[1].children.len(), 1);
    assert_eq!(root.len(), 2);
    assert_eq!(root[0].0, nodes[0].hash());
    assert_eq!(root[0].1, nodes[0].total_size());
    assert_eq!(root[1].1, 33);
    assert_eq!(root[0].1 + root[1].1, total);
}

#[test]
fn very_large_uploads_have_two_levels() {
    let leaves: Vec<_> = (0..(32 * 33) as u32)
        .map(|i| (h((i % 251) as u8), 1))
        .collect();
    let (nodes, root) = build_fragment_tree(leaves);
    assert_eq!(nodes.len(), 33 + 2);
    assert_eq!(root.len(), 2);
    assert_eq!(root[0].1 + root[1].1, 32 * 33);
}

#[test]
fn sealed_chunk_downloads_back() {
    let key = AeadKey::from_bytes([4u8; 32]);
    let (leaf, hash) = seal_chunk(&key, b"chunk bytes").expect("seal");
    assert_eq!(leaf.data.len(), b"chunk bytes".len() + 16);
    let frag = Fragment::Leaf(leaf);
    assert_eq!(frag.hash(), hash);
    match fragment_step(&frag, &hash, 77, &key) {
        Ok(FragmentStep::Write { offset, data }) => {
            assert_eq!(offset, 77);
            assert_eq!(data, b"chunk bytes".to_vec());
        }
        other => panic!("unexpected {:?}", other),
    }
    let wrong_key = AeadKey::from_bytes([5u8; 32]);
    assert_eq!(
        fragment_step(&frag, &hash, 0, &wrong_key).err(),
        Some(DownloadError::Decrypt)
    );
    assert_eq!(
        fragment_step(&frag, &h(0), 0, &key).err(),
        Some(DownloadError::HashMismatch)
    );
}

#[test]
fn node_step_lists_children_at_offsets() {
    let node = FragmentNode {
        children: vec![(h(1), 4), (h(2), 6)],
    };
    let hash = node.hash();
    let frag = Fragment::Node(node);
    assert_eq!(frag.hash(), hash);
    match fragment_step(&frag, &hash, 100, &AeadKey::from_bytes([0u8; 32])) {
        Ok(FragmentStep::Children(c)) => assert_eq!(c, vec![(h(1), 100), (h(2), 104)]),
        other => panic!("unexpected {:?}", other),
    }
}

#[test]
fn leaf_and_node_hashes_differ() {
    let leaf = FragmentLeaf {
        nonce: [0u8; 24],
        data: Vec::new(),
    };
    let node = FragmentNode { children: Vec::new() };
    assert_ne!(leaf.hash(), node.hash());
}

#[test]
fn filenames_are_sanitized() {
    assert_eq!(sanitize_filename("report.pdf"), "report.pdf");
    assert_eq!(sanitize_filename("../../etc/passwd"), "....etcpasswd");
    assert_eq!(sanitize_filename("a\\b\u{0}c\u{7f}d\u{85}e"), "abcde");
    assert_eq!(sanitize_filename("  spaced name.txt \u{3000}"), "spaced name.txt");
    assert_eq!(sanitize_filename(" / \\ "), "attachment.bin");
    assert_eq!(sanitize_filename(""), "attachment.bin");
}

#[test]
fn extensions_split_at_last_dot() {
    assert_eq!(split_extension("photo.jpg"), ("photo", "jpg"));
    assert_eq!(split_extension("archive.tar.gz"), ("archive.tar", "gz"));
    assert_eq!(split_extension("noext"), ("noext", ""));
    assert_eq!(split_extension(".hidden"), (".hidden", ""));
    assert_eq!(split_extension("trailing."), ("trailing.", ""));
}

#[test]
fn attachment_hash_depends_on_name() {
    let a = Attachment {
        filename: "a".to_string(),
        mime: "text/plain".to_string(),
        children: vec![(h(1), 1)],
        content_key: AeadKey::from_bytes([0u8; 32]),
    };
    let mut b = a.clone();
    b.filename = "b".to_string();
    assert_ne!(a.hash(), b.hash());
    assert_eq!(a.hash(), a.clone().hash());
}

#[test]
fn candidate_names() {
    assert_eq!(candidate_name("photo", "jpg", 1), "photo (1).jpg");
    assert_eq!(candidate_name("notes", "", 42), "notes (42)");
    assert_eq!(candidate_name("a", "b", 9999), "a (9999).b");
    assert_eq!(candidate_name("x", "", 0), "x (0)");
}

#[test]
fn downloads_are_not_doubled() {
    let mut d = DownloadsInProgress::new();
    assert!(d.try_begin(&h(1)));
    assert!(!d.try_begin(&h(1)));
    assert!(d.try_begin(&h(2)));
    d.finish(&h(1));
    assert!(d.try_begin(&h(1)));
    assert!(!d.try_begin(&h(2)));
}

#[test]
fn saved_copy_checks() {
    let attachment = Attachment {
        filename: "a".to_string(),
        mime: "b".to_string(),
        children: vec![(h(1), 10), (h(2), 5)],
        content_key: AeadKey::from_bytes([0u8; 32]),
    };
    assert!(saved_copy_complete(true, 15, &attachment));
    assert!(!saved_copy_complete(true, 14, &attachment));
    assert!(!saved_copy_complete(false, 15, &attachment));
}

#[test]
fn temp_file_name_has_sixteen_hex_digits() {
    assert_eq!(
        xirtam::client::attachments::temp_file_name("photo.png", 0x1234_abcd),
        "photo.png.part.000000001234abcd"
    );
    assert_eq!(
        xirtam::client::attachments::temp_file_name("a", u64::MAX),
        "a.part.ffffffffffffffff"
    );
    let fresh = xirtam::client::attachments::create_temp_name("report.pdf");
    assert!(fresh.starts_with("report.pdf.part."));
    assert_eq!(fresh.len(), "report.pdf.part.".len() + 16);
    assert!(fresh["report.pdf.part.".len()..]
        .chars()
        .all(|c| c.is_ascii_digit() || ('a'..='f').contains(&c)));
}

#[test]
fn seal_attachment_covers_the_file_in_order() {
    let n = 2 * CHUNK_SIZE_BYTES as usize + 5;
    let data: Vec<u8> = (0..n).map(|i| (i % 251) as u8).collect();
    let key = AeadKey::from_bytes([6u8; 32]);
    let (leaves, nodes, root) = xirtam::client::attachments::seal_attachment(
        &data,
        "big.bin".to_string(),
        "application/octet-stream".to_string(),
        key,
    )
    .expect("sealed");
    assert_eq!(leaves.len(), 3);
    assert!(nodes.is_empty());
    assert_eq!(root.total_size(), n as u64);
    assert_eq!(root.children.len(), 3);
    assert_eq!(root.filename, "big.bin");
    assert_eq!(root.mime, "application/octet-stream");
    let mut offset = 0usize;
    for (leaf, (hash, size)) in leaves.iter().zip(root.children.iter()) {
        assert_eq!(leaf.hash(), *hash);
        let plain = key.decrypt(leaf.nonce, &leaf.data, &[]).expect("decrypts");
        assert_eq!(plain.len() as u64, *size);
        assert_eq!(&plain[..], &data[offset..offset + plain.len()]);
        offset += plain.len();
    }
    assert_eq!(offset, n);
}

#[test]
fn seal_attachment_of_empty_file_has_no_children() {
    let key = AeadKey::from_bytes([1u8; 32]);
    let (leaves, nodes, root) = xirtam::client::attachments::seal_attachment(
        &[],
        "empty".to_string(),
        "text/plain".to_string(),
        key,
    )
    .expect("sealed");
    assert!(leaves.is_empty());
    assert!(nodes.is_empty());
    assert!(root.children.is_empty());
    assert_eq!(root.total_size(), 0);
}

#[test]
fn download_size_is_checked() {
    let att = Attachment {
        filename: "a.bin".to_string(),
        mime: "application/octet-stream".to_string(),
        children: vec![(h(1), 10), (h(2), 5)],
        content_key: AeadKey::from_bytes([0u8; 32]),
    };
    let w = xirtam::client::attachments::record_written(0, 10);
    let w = xirtam::client::attachments::record_written(w, 5);
    assert_eq!(w, 15);
    assert_eq!(xirtam::client::attachments::download_complete(&att, w), Ok(()));
    assert_eq!(
        xirtam::client::attachments::download_complete(&att, 14),
        Err(DownloadError::SizeMismatch)
    );
    assert_eq!(xirtam::client::attachments::record_written(u64::MAX - 1, 5), u64::MAX);
    let empty = Attachment {
        filename: "e".to_string(),
        mime: "text/plain".to_string(),
        children: vec![],
        content_key: AeadKey::from_bytes([0u8; 32]),
    };
    assert_eq!(xirtam::client::attachments::download_complete(&empty, 0), Ok(()));
}
