use vstd::prelude::*;

use crate::crypt::aead::{aead_len_ok, xchacha20poly1305_open, xchacha20poly1305_seal, AeadKey};
use crate::bytes::MAX_SEQUENCE_LENGTH;
use crate::display::{decimal, hex_alphabet, hex_digit, push_decimal, push_hex_digit};
use crate::structs::certificate::random_array;
use crate::structs::fragment::{
    children_view, fragment_encodable, fragment_hash, lemma_children_view_step, lemma_sizes_total_nonneg, node_hash,
    sizes_sum, sizes_total, Attachment, Fragment, FragmentLeaf, FragmentNode,
};

verus! {

/// The number of plaintext bytes in each uploaded chunk but the last.
pub const CHUNK_SIZE_BYTES: u64 = 524288;

/// The largest number of children of a fragment node or of an attachment.
pub const MAX_FANOUT: usize = 32;

/// How many fragments are transferred at once.
pub const TRANSFER_CONCURRENCY: usize = 16;

/// The number of chunks a file of `total` bytes is cut into.
pub open spec fn chunk_count(total: int) -> int {
    (total + CHUNK_SIZE_BYTES - 1) / (CHUNK_SIZE_BYTES as int)
}

/// The offset and length of chunk `i` of a file of `total` bytes.
pub open spec fn chunk_at(total: int, i: int) -> (int, int) {
    let offset = i * CHUNK_SIZE_BYTES;
    (offset, if total - offset < CHUNK_SIZE_BYTES { total - offset } else { CHUNK_SIZE_BYTES as int })
}

/// Cuts a file of `total` bytes into chunks of `CHUNK_SIZE_BYTES` bytes, the last one possibly
/// shorter, as their offsets and lengths.
pub fn chunk_plan(total: u64) -> (r: Vec<(u64, u64)>)
    ensures
        r@.len() == chunk_count(total as int),
        forall|i: int|
            0 <= i < r@.len() ==> (#[trigger] r@[i]).0 == chunk_at(total as int, i).0 && r@[i].1
                == chunk_at(total as int, i).1,
{
    let mut out: Vec<(u64, u64)> = Vec::new();
    let mut offset: u64 = 0;
    while offset < total
        invariant
            offset <= total,
            offset < total ==> offset == out@.len() * CHUNK_SIZE_BYTES,
            offset == total ==> total <= out@.len() * CHUNK_SIZE_BYTES,
            out@.len() > 0 ==> (out@.len() - 1) * CHUNK_SIZE_BYTES < total,
            forall|i: int|
                0 <= i < out@.len() ==> (#[trigger] out@[i]).0 == chunk_at(total as int, i).0
                    && out@[i].1 == chunk_at(total as int, i).1,
        decreases total - offset,
    {
        let len = if total - offset < CHUNK_SIZE_BYTES {
            total - offset
        } else {
            CHUNK_SIZE_BYTES
        };
        out.push((offset, len));
        offset = offset + len;
    }
    proof {
        let n = out@.len() as int;
        assert(n * CHUNK_SIZE_BYTES >= total);
        assert(chunk_count(total as int) == n) by (nonlinear_arith)
            requires
                n * 524288 >= total,
                n > 0 ==> (n - 1) * 524288 < total,
                n == 0 ==> total == 0,
                total >= 0,
        ;
    }
    out
}

/// The bytes the first `k` chunks of a file of `total` bytes hold together.
pub open spec fn chunks_total(total: int, k: int) -> int
    decreases k,
{
    if k <= 0 {
        0
    } else {
        chunks_total(total, k - 1) + chunk_at(total, k - 1).1
    }
}

/// The first `k` chunks of a file cover its first `k * CHUNK_SIZE_BYTES` bytes, or all of it.
pub proof fn lemma_chunks_prefix(total: int, k: int)
    requires
        total >= 0,
        0 <= k <= chunk_count(total),
    ensures
        chunks_total(total, k) == (if k * CHUNK_SIZE_BYTES < total {
            k * CHUNK_SIZE_BYTES
        } else {
            total
        }),
    decreases k,
{
    if k > 0 {
        lemma_chunks_prefix(total, k - 1);
        let c = chunk_count(total);
        assert((k - 1) * 524288 < total) by (nonlinear_arith)
            requires
                c == (total + 524287) / 524288,
                total >= 0,
                0 < k <= c,
        ;
    }
}

/// The chunks of a file hold exactly its bytes.
pub proof fn lemma_chunks_cover(total: int)
    requires
        total >= 0,
    ensures
        chunks_total(total, chunk_count(total)) == total,
{
    let c = chunk_count(total);
    assert(c >= 0 && c * 524288 >= total) by (nonlinear_arith)
        requires
            c == (total + 524287) / 524288,
            total >= 0,
    ;
    lemma_chunks_prefix(total, c);
}

/// `x`, or the largest 64-bit number where `x` is larger.
pub open spec fn saturate(x: int) -> int {
    if x > u64::MAX {
        u64::MAX as int
    } else {
        x
    }
}

/// The offset where child `i` starts, counting from `start`.
pub open spec fn child_offset(children: Seq<(crate::crypt::hash::Hash, u64)>, start: int, i: int) -> int {
    saturate(start + sizes_sum(children.subrange(0, i)))
}

/// Each child with the offset where its bytes start, counting from `start`; offsets that would
/// pass the largest 64-bit number stay there.
pub fn offsets_from(children: &Vec<(crate::crypt::hash::Hash, u64)>, start: u64) -> (r: Vec<
    (crate::crypt::hash::Hash, u64),
>)
    ensures
        r@.len() == children@.len(),
        forall|i: int|
            0 <= i < r@.len() ==> (#[trigger] r@[i]).0 == children@[i].0 && r@[i].1
                == child_offset(children@, start as int, i),
{
    let mut out: Vec<(crate::crypt::hash::Hash, u64)> = Vec::new();
    let mut offset: u64 = start;
    let mut i: usize = 0;
    proof {
        assert(children_view(children@.subrange(0, 0)) =~= Seq::<(Seq<u8>, u64)>::empty());
    }
    while i < children.len()
        invariant
            0 <= i <= children@.len(),
            out@.len() == i,
            offset == child_offset(children@, start as int, i as int),
            forall|j: int|
                0 <= j < i ==> (#[trigger] out@[j]).0 == children@[j].0 && out@[j].1
                    == child_offset(children@, start as int, j),
        decreases children@.len() - i,
    {
        let (h, size) = children[i];
        out.push((h, offset));
        proof {
            lemma_children_view_step(children@, i as int);
            lemma_sizes_total_nonneg(children_view(children@.subrange(0, i as int)));
        }
        offset = offset.saturating_add(size);
        i = i + 1;
    }
    out
}

/// Each child of an attachment with the offset where its bytes start in the file.
pub fn child_offsets(attachment: &Attachment) -> (r: Vec<(crate::crypt::hash::Hash, u64)>)
    ensures
        r@.len() == attachment.children@.len(),
        forall|i: int|
            0 <= i < r@.len() ==> (#[trigger] r@[i]).0 == attachment.children@[i].0 && r@[i].1
                == child_offset(attachment.children@, 0, i),
{
    offsets_from(&attachment.children, 0)
}

/// Why a chunk could not be prepared for upload.
#[derive(Clone, Copy, Debug, PartialEq, Eq, Structural)]
pub enum UploadError {
    /// The chunk is too long for the cipher.
    Encrypt,
}

/// Encrypts a chunk of plaintext under the attachment's content key with a fresh random nonce,
/// as a fragment leaf, and gives the hash the leaf is stored under.
pub fn seal_chunk(key: &AeadKey, plaintext: &[u8]) -> (r: Result<
    (FragmentLeaf, crate::crypt::hash::Hash),
    UploadError,
>)
    requires
        plaintext@.len() + 16 <= MAX_SEQUENCE_LENGTH,
    ensures
        r is Ok <==> aead_len_ok(plaintext@.len()),
        r matches Ok((leaf, h)) ==> leaf.data@ == xchacha20poly1305_seal(
            key@,
            leaf.nonce@,
            plaintext@,
            Seq::empty(),
        ) && h@ == fragment_hash(Fragment::Leaf(leaf)),
{
    let nonce: [u8; 24] = random_array::<24>();
    let aad: Vec<u8> = Vec::new();
    match key.encrypt(nonce, plaintext, aad.as_slice()) {
        Ok(data) => {
            let leaf = FragmentLeaf { nonce, data };
            let h = leaf.hash();
            Ok((leaf, h))
        },
        Err(_) => Err(UploadError::Encrypt),
    }
}

/// What to do with a downloaded fragment.
#[derive(Debug)]
pub enum FragmentStep {
    /// Fetch each child, writing its bytes from the given offset.
    Children(Vec<(crate::crypt::hash::Hash, u64)>),
    /// Write the plaintext at the offset.
    Write { offset: u64, data: Vec<u8> },
}

/// Why a downloaded fragment was refused.
#[derive(Clone, Copy, Debug, PartialEq, Eq, Structural)]
pub enum DownloadError {
    /// The fragment does not have the hash it was fetched under.
    HashMismatch,
    /// The leaf does not decrypt under the attachment's content key.
    Decrypt,
    /// The bytes written do not add up to the attachment's size.
    SizeMismatch,
}

/// The count of bytes written so far after a leaf of `len` plaintext bytes is written: the sum,
/// or the largest 64-bit number where the sum is larger.
pub fn record_written(written: u64, len: u64) -> (r: u64)
    ensures
        r == saturate(written + len),
{
    written.saturating_add(len)
}

/// Whether a finished download is whole: an attachment without children writes nothing and is
/// whole; otherwise the bytes written must add up to the attachment's total size.
pub fn download_complete(attachment: &Attachment, written: u64) -> (r: Result<(), DownloadError>)
    requires
        sizes_sum(attachment.children@) <= u64::MAX,
    ensures
        r is Ok <==> (attachment.children@.len() == 0 || written == sizes_sum(attachment.children@)),
        r matches Err(e) ==> e == DownloadError::SizeMismatch,
{
    if attachment.children.len() == 0 {
        return Ok(());
    }
    if written != attachment.total_size() {
        return Err(DownloadError::SizeMismatch);
    }
    Ok(())
}


/// Decides what a fragment fetched under `expected`, whose bytes start at `start_offset`,
/// asks for: it must have that hash; a node asks for its children at consecutive offsets, and a
/// leaf asks for its decrypted data to be written.
pub fn fragment_step(
    frag: &Fragment,
    expected: &crate::crypt::hash::Hash,
    start_offset: u64,
    key: &AeadKey,
) -> (r: Result<FragmentStep, DownloadError>)
    requires
        fragment_encodable(*frag),
    ensures
        fragment_hash(*frag) != expected@ ==> r matches Err(DownloadError::HashMismatch),
        fragment_hash(*frag) == expected@ ==> match *frag {
            Fragment::Node(node) => r matches Ok(FragmentStep::Children(c)) && c@.len()
                == node.children@.len() && forall|i: int|
                0 <= i < c@.len() ==> (#[trigger] c@[i]).0 == node.children@[i].0 && c@[i].1
                    == child_offset(node.children@, start_offset as int, i),
            Fragment::Leaf(leaf) => match xchacha20poly1305_open(
                key@,
                leaf.nonce@,
                leaf.data@,
                Seq::empty(),
            ) {
                Some(p) => r matches Ok(FragmentStep::Write { offset, data }) && offset
                    == start_offset && data@ == p,
                None => r matches Err(DownloadError::Decrypt),
            },
        },
{
    let h = frag.hash();
    if !(h == *expected) {
        return Err(DownloadError::HashMismatch);
    }
    match frag {
        Fragment::Node(node) => Ok(FragmentStep::Children(offsets_from(&node.children, start_offset))),
        Fragment::Leaf(leaf) => {
            let aad: Vec<u8> = Vec::new();
            proof {
                assert(aad@ =~= Seq::<u8>::empty());
            }
            match key.decrypt(leaf.nonce, leaf.data.as_slice(), aad.as_slice()) {
                Ok(data) => Ok(FragmentStep::Write { offset: start_offset, data }),
                Err(_) => Err(DownloadError::Decrypt),
            }
        },
    }
}

/// The children of the `g`-th node built over a level: the entries from `g * MAX_FANOUT` up to
/// the next `MAX_FANOUT`, or to the end of the level.
pub open spec fn group_of(level: Seq<(Seq<u8>, u64)>, g: int) -> Seq<(Seq<u8>, u64)> {
    let end = if (g + 1) * 32 < level.len() {
        (g + 1) * 32
    } else {
        level.len() as int
    };
    level.subrange(g * 32, end)
}

/// The number of nodes built over a level of `n` entries.
pub open spec fn group_count(n: int) -> int {
    (n + 31) / 32
}

/// The level above: one entry per node, with the node's hash and the sum of its children's
/// sizes.
pub open spec fn next_level(level: Seq<(Seq<u8>, u64)>) -> Seq<(Seq<u8>, u64)> {
    Seq::new(
        group_count(level.len() as int) as nat,
        |g: int| (node_hash(group_of(level, g)), sizes_total(group_of(level, g)) as u64),
    )
}

/// The children of an attachment over a level: the level itself once it has at most
/// `MAX_FANOUT` entries, else the root level over the level above.
pub open spec fn root_level(level: Seq<(Seq<u8>, u64)>) -> Seq<(Seq<u8>, u64)>
    decreases level.len(),
{
    if level.len() <= 32 {
        level
    } else {
        root_level(next_level(level))
    }
}

/// The children of each node built, level by level, until at most `MAX_FANOUT` entries remain.
pub open spec fn tree_nodes(level: Seq<(Seq<u8>, u64)>) -> Seq<Seq<(Seq<u8>, u64)>>
    decreases level.len(),
{
    if level.len() <= 32 {
        Seq::empty()
    } else {
        Seq::new(group_count(level.len() as int) as nat, |g: int| group_of(level, g)) + tree_nodes(
            next_level(level),
        )
    }
}

/// The children of each node, seen through their hashes' bytes.
pub open spec fn node_views(nodes: Seq<FragmentNode>) -> Seq<Seq<(Seq<u8>, u64)>> {
    nodes.map_values(|n: FragmentNode| children_view(n.children@))
}

/// The sum over two lists one after the other is the sum of their sums.
pub proof fn lemma_sizes_total_concat(a: Seq<(Seq<u8>, u64)>, b: Seq<(Seq<u8>, u64)>)
    ensures
        sizes_total(a + b) == sizes_total(a) + sizes_total(b),
    decreases b.len(),
{
    if b.len() == 0 {
        assert(a + b =~= a);
    } else {
        lemma_sizes_total_concat(a, b.drop_last());
        assert((a + b).drop_last() =~= a + b.drop_last());
    }
}

/// The sum over a part of a list is at most the sum over the list.
pub proof fn lemma_sizes_total_subrange(level: Seq<(Seq<u8>, u64)>, lo: int, hi: int)
    requires
        0 <= lo <= hi <= level.len(),
    ensures
        sizes_total(level.subrange(lo, hi)) <= sizes_total(level),
{
    let a = level.subrange(0, lo);
    let b = level.subrange(lo, hi);
    let c = level.subrange(hi, level.len() as int);
    assert(level =~= a + b + c);
    lemma_sizes_total_concat(a + b, c);
    lemma_sizes_total_concat(a, b);
    lemma_sizes_total_nonneg(a);
    lemma_sizes_total_nonneg(c);
}

/// Building the level above keeps the sum of sizes.
pub proof fn lemma_next_level_total(level: Seq<(Seq<u8>, u64)>)
    requires
        sizes_total(level) <= u64::MAX,
    ensures
        sizes_total(next_level(level)) == sizes_total(level),
{
    let next = next_level(level);
    let n = level.len() as int;
    let k_max = group_count(n);
    assert forall|k: int| 0 <= k <= k_max implies sizes_total(#[trigger] next.subrange(0, k))
        == sizes_total(level.subrange(0, if k * 32 < n { k * 32 } else { n })) by {
        lemma_next_level_prefix(level, k);
    }
    assert(next.subrange(0, k_max) =~= next);
    assert(level.subrange(0, n) =~= level);
}

proof fn lemma_next_level_prefix(level: Seq<(Seq<u8>, u64)>, k: int)
    requires
        sizes_total(level) <= u64::MAX,
        0 <= k <= group_count(level.len() as int),
    ensures
        sizes_total(next_level(level).subrange(0, k)) == sizes_total(
            level.subrange(0, if k * 32 < level.len() { k * 32 } else { level.len() as int }),
        ),
    decreases k,
{
    let n = level.len() as int;
    let next = next_level(level);
    if k == 0 {
        assert(next.subrange(0, 0) =~= Seq::<(Seq<u8>, u64)>::empty());
        assert(level.subrange(0, 0) =~= Seq::<(Seq<u8>, u64)>::empty());
    } else {
        lemma_next_level_prefix(level, k - 1);
        let prev_end = if (k - 1) * 32 < n { (k - 1) * 32 } else { n };
        let end = if k * 32 < n { k * 32 } else { n };
        assert((k - 1) * 32 < n);
        assert(next.subrange(0, k).drop_last() =~= next.subrange(0, k - 1));
        let grp = group_of(level, k - 1);
        assert(level.subrange(0, end) =~= level.subrange(0, prev_end) + grp);
        lemma_sizes_total_concat(level.subrange(0, prev_end), grp);
        lemma_sizes_total_subrange(level, (k - 1) * 32, end);
        lemma_sizes_total_nonneg(grp);
        assert(next[k - 1].1 == sizes_total(grp));
    }
}

/// The children of an attachment carry the same sum of sizes as the chunks they were built
/// from, and there are at most `MAX_FANOUT` of them.
pub proof fn lemma_root_level(level: Seq<(Seq<u8>, u64)>)
    requires
        sizes_total(level) <= u64::MAX,
    ensures
        sizes_total(root_level(level)) == sizes_total(level),
        root_level(level).len() <= MAX_FANOUT,
    decreases level.len(),
{
    if level.len() > 32 {
        lemma_next_level_total(level);
        lemma_root_level(next_level(level));
    }
}

/// Builds the nodes over one level: each run of up to `MAX_FANOUT` consecutive entries becomes
/// a node, appended to `nodes`; answers the level above.
fn build_level(
    current: &Vec<(crate::crypt::hash::Hash, u64)>,
    nodes: &mut Vec<FragmentNode>,
) -> (next: Vec<(crate::crypt::hash::Hash, u64)>)
    requires
        sizes_sum(current@) <= u64::MAX,
    ensures
        children_view(next@) == next_level(children_view(current@)),
        node_views(final(nodes)@) == node_views(old(nodes)@) + Seq::new(
            group_count(current@.len() as int) as nat,
            |g: int| group_of(children_view(current@), g),
        ),
{
    let ghost level = children_view(current@);
    let ghost start_nodes = nodes@;
    let mut next: Vec<(crate::crypt::hash::Hash, u64)> = Vec::new();
    let mut start: usize = 0;
    let mut g: usize = 0;
    while start < current.len()
        invariant
            level == children_view(current@),
            sizes_total(level) <= u64::MAX,
            start <= current@.len(),
            start < current@.len() ==> start == g * 32,
            g <= group_count(current@.len() as int),
            start < current@.len() ==> g < group_count(current@.len() as int),
            start >= current@.len() ==> g == group_count(current@.len() as int),
            next@.len() == g,
            forall|j: int| 0 <= j < g ==> children_view(next@)[j] == next_level(level)[j],
            nodes@.len() == start_nodes.len() + g,
            forall|j: int| 0 <= j < start_nodes.len() ==> nodes@[j] == start_nodes[j],
            forall|j: int|
                0 <= j < g ==> children_view(nodes@[start_nodes.len() + j].children@)
                    == group_of(level, j),
        decreases current@.len() - start,
    {
        let end = if current.len() - start > 32 {
            start + 32
        } else {
            current.len()
        };
        let children = vstd::slice::slice_to_vec(
            vstd::slice::slice_subrange(current.as_slice(), start, end),
        );
        proof {
            assert(children_view(children@) =~= group_of(level, g as int));
            lemma_sizes_total_subrange(level, start as int, end as int);
        }
        let node = FragmentNode { children };
        let h = node.hash();
        let size = node.total_size();
        let ghost prev_next = next@;
        next.push((h, size));
        nodes.push(node);
        proof {
            assert(children_view(next@)[g as int] == next_level(level)[g as int]);
            assert forall|j: int| 0 <= j < g + 1 implies children_view(next@)[j] == next_level(
                level,
            )[j] by {
                if j < g {
                    assert(next@[j] == prev_next[j]);
                    assert(children_view(prev_next)[j] == next_level(level)[j]);
                }
            }
        }
        start = end;
        g = g + 1;
    }
    proof {
        assert(children_view(next@) =~= next_level(level));
        assert(node_views(nodes@) =~= node_views(start_nodes) + Seq::new(
            group_count(current@.len() as int) as nat,
            |g: int| group_of(level, g),
        ));
    }
    next
}

/// Builds the fragment tree over the uploaded chunks: nodes of up to `MAX_FANOUT` children,
/// level by level, until at most `MAX_FANOUT` entries remain; answers the nodes to upload and
/// the attachment's children.
pub fn build_fragment_tree(leaves: Vec<(crate::crypt::hash::Hash, u64)>) -> (r: (
    Vec<FragmentNode>,
    Vec<(crate::crypt::hash::Hash, u64)>,
))
    requires
        sizes_sum(leaves@) <= u64::MAX,
    ensures
        node_views(r.0@) == tree_nodes(children_view(leaves@)),
        children_view(r.1@) == root_level(children_view(leaves@)),
        sizes_sum(r.1@) == sizes_sum(leaves@),
        r.1@.len() <= MAX_FANOUT,
{
    let ghost all = children_view(leaves@);
    let mut current = leaves;
    let mut nodes: Vec<FragmentNode> = Vec::new();
    while current.len() > 32
        invariant
            sizes_total(children_view(current@)) == sizes_total(all),
            sizes_total(all) <= u64::MAX,
            node_views(nodes@) + tree_nodes(children_view(current@)) == tree_nodes(all),
            root_level(children_view(current@)) == root_level(all),
        decreases current@.len(),
    {
        let ghost level = children_view(current@);
        let next = build_level(&current, &mut nodes);
        proof {
            lemma_next_level_total(level);
            assert(node_views(nodes@) + tree_nodes(children_view(next@)) =~= tree_nodes(all));
        }
        current = next;
    }
    proof {
        lemma_root_level(all);
        assert(node_views(nodes@) + Seq::empty() =~= node_views(nodes@));
    }
    (nodes, current)
}

/// The level of leaves of an upload: each leaf's hash with the length of the chunk it holds.
pub open spec fn leaf_level(leaves: Seq<FragmentLeaf>, total: int) -> Seq<(Seq<u8>, u64)> {
    Seq::new(
        leaves.len(),
        |i: int| (fragment_hash(Fragment::Leaf(leaves[i])), chunk_at(total, i).1 as u64),
    )
}

/// The bytes of chunk `i` of `data`.
pub open spec fn chunk_bytes(data: Seq<u8>, i: int) -> Seq<u8> {
    let (offset, len) = chunk_at(data.len() as int, i);
    data.subrange(offset, offset + len)
}

/// Prepares a file for upload: cuts it into chunks, seals each under the content key as a leaf
/// (in file order), groups the leaves into a tree of nodes of at most `MAX_FANOUT` children, and
/// makes the attachment whose children are the top of that tree. The attachment holds exactly
/// the file's bytes; an empty file gives no children.
pub fn seal_attachment(data: &[u8], filename: String, mime: String, content_key: AeadKey) -> (r:
    Result<(Vec<FragmentLeaf>, Vec<FragmentNode>, Attachment), UploadError>)
    requires
        data@.len() <= u64::MAX,
    ensures
        r matches Ok((leaves, nodes, root)) && {
            &&& leaves@.len() == chunk_count(data@.len() as int)
            &&& forall|i: int|
                0 <= i < leaves@.len() ==> (#[trigger] leaves@[i]).data@ == xchacha20poly1305_seal(
                    content_key@,
                    leaves@[i].nonce@,
                    chunk_bytes(data@, i),
                    Seq::empty(),
                )
            &&& node_views(nodes@) == tree_nodes(leaf_level(leaves@, data@.len() as int))
            &&& children_view(root.children@) == root_level(leaf_level(leaves@, data@.len() as int))
            &&& sizes_sum(root.children@) == data@.len()
            &&& root.children@.len() <= MAX_FANOUT
            &&& root.filename@ == filename@
            &&& root.mime@ == mime@
            &&& root.content_key@ == content_key@
        },
{
    let n = data.len() as u64;
    let plan = chunk_plan(n);
    let mut leaves: Vec<FragmentLeaf> = Vec::new();
    let mut level: Vec<(crate::crypt::hash::Hash, u64)> = Vec::new();
    let mut i: usize = 0;
    assert(children_view(level@) =~= Seq::<(Seq<u8>, u64)>::empty());
    while i < plan.len()
        invariant
            n == data@.len(),
            data@.len() <= usize::MAX,
            plan@.len() == chunk_count(n as int),
            forall|j: int|
                0 <= j < plan@.len() ==> (#[trigger] plan@[j]).0 == chunk_at(n as int, j).0
                    && plan@[j].1 == chunk_at(n as int, j).1,
            0 <= i <= plan@.len(),
            leaves@.len() == i,
            children_view(level@) == leaf_level(leaves@, n as int),
            forall|j: int|
                0 <= j < i ==> (#[trigger] leaves@[j]).data@ == xchacha20poly1305_seal(
                    content_key@,
                    leaves@[j].nonce@,
                    chunk_bytes(data@, j),
                    Seq::empty(),
                ),
            sizes_total(children_view(level@)) == chunks_total(n as int, i as int),
        decreases plan@.len() - i,
    {
        let (offset, len) = plan[i];
        proof {
            let c = chunk_count(n as int);
            let k = i as int;
            assert(k * 524288 < n) by (nonlinear_arith)
                requires
                    c == (n + 524287) / 524288,
                    n >= 0,
                    0 <= k < c,
            ;
            assert(offset == k * 524288);
            assert(len <= 524288);
            assert(offset + len <= n);
        }
        let start: usize = offset as usize;
        let end: usize = (offset + len) as usize;
        let chunk = vstd::slice::slice_subrange(data, start, end);
        assert(chunk@.len() == len);
        match seal_chunk(&content_key, chunk) {
            Ok((leaf, h)) => {
                let ghost before = level@;
                let ghost old_leaves = leaves@;
                leaves.push(leaf);
                level.push((h, len));
                proof {
                    let lv = leaf_level(leaves@, n as int);
                    let cv = children_view(level@);
                    assert(leaves@[i as int] == leaf);
                    assert(lv[i as int] == (h@, len));
                    assert(cv[i as int] == (h@, len));
                    assert forall|j: int| 0 <= j < i implies cv[j] == lv[j] by {
                        assert(cv[j] == children_view(before)[j]);
                        assert(leaves@[j] == old_leaves[j]);
                    }
                    assert(cv =~= lv);
                    assert(children_view(level@).drop_last() =~= children_view(before));
                }
            },
            Err(e) => {
                return Err(e);
            },
        }
        i = i + 1;
    }
    proof {
        lemma_chunks_cover(n as int);
    }
    let (nodes, children) = build_fragment_tree(level);
    Ok((leaves, nodes, Attachment { filename, mime, children, content_key }))
}

/// Whether `c` is a control character (general category Cc).
pub open spec fn is_control_char(c: char) -> bool {
    (c as u32) <= 0x1f || (0x7f <= (c as u32) && (c as u32) <= 0x9f)
}

/// Whether `c` has the Unicode White_Space property.
pub open spec fn is_white_space(c: char) -> bool {
    let u = c as u32;
    ||| 0x9 <= u && u <= 0xd
    ||| u == 0x20
    ||| u == 0x85
    ||| u == 0xa0
    ||| u == 0x1680
    ||| 0x2000 <= u && u <= 0x200a
    ||| u == 0x2028
    ||| u == 0x2029
    ||| u == 0x202f
    ||| u == 0x205f
    ||| u == 0x3000
}

fn white_space(c: char) -> (r: bool)
    ensures
        r == is_white_space(c),
{
    let u = c as u32;
    (0x9 <= u && u <= 0xd) || u == 0x20 || u == 0x85 || u == 0xa0 || u == 0x1680 || (0x2000 <= u
        && u <= 0x200a) || u == 0x2028 || u == 0x2029 || u == 0x202f || u == 0x205f || u == 0x3000
}

/// Whether a character may stay in a saved file's name: no path separator and no control
/// character.
pub open spec fn filename_char_kept(c: char) -> bool {
    c != '/' && c != '\\' && !is_control_char(c)
}

/// The characters of `s` that may stay in a file name, in order.
pub open spec fn kept_chars(s: Seq<char>) -> Seq<char>
    decreases s.len(),
{
    if s.len() == 0 {
        s
    } else if filename_char_kept(s.last()) {
        kept_chars(s.drop_last()).push(s.last())
    } else {
        kept_chars(s.drop_last())
    }
}

/// Each character is kept or dropped on its own: the kept characters of two strings one after
/// the other are those of the first followed by those of the second, and a single character
/// is kept exactly when it may stay in a file name.
pub proof fn lemma_kept_chars_concat(a: Seq<char>, b: Seq<char>)
    ensures
        kept_chars(a + b) == kept_chars(a) + kept_chars(b),
        b.len() == 1 ==> kept_chars(b) == if filename_char_kept(b[0]) {
            b
        } else {
            Seq::empty()
        },
    decreases b.len(),
{
    if b.len() == 0 {
        assert(a + b =~= a);
        assert(kept_chars(a) + kept_chars(b) =~= kept_chars(a));
    } else {
        lemma_kept_chars_concat(a, b.drop_last());
        assert((a + b).drop_last() =~= a + b.drop_last());
        assert((a + b).last() == b.last());
        if filename_char_kept(b.last()) {
            assert(kept_chars(a) + kept_chars(b.drop_last()).push(b.last()) =~= (kept_chars(a)
                + kept_chars(b.drop_last())).push(b.last()));
        }
        if b.len() == 1 {
            assert(b.drop_last() =~= Seq::<char>::empty());
            assert(kept_chars(b.drop_last()) == Seq::<char>::empty());
            if filename_char_kept(b.last()) {
                assert(Seq::<char>::empty().push(b.last()) =~= b);
            }
        }
    }
}

/// `s` without its leading white space.
pub open spec fn trim_start(s: Seq<char>) -> Seq<char>
    decreases s.len(),
{
    if s.len() > 0 && is_white_space(s[0]) {
        trim_start(s.drop_first())
    } else {
        s
    }
}

/// `s` without its trailing white space.
pub open spec fn trim_end(s: Seq<char>) -> Seq<char>
    decreases s.len(),
{
    if s.len() > 0 && is_white_space(s.last()) {
        trim_end(s.drop_last())
    } else {
        s
    }
}

/// The name a received attachment is saved under: its name without path separators or control
/// characters and without surrounding white space, or `attachment.bin` where nothing is left.
pub open spec fn sanitized_filename(name: Seq<char>) -> Seq<char> {
    let t = trim_end(trim_start(kept_chars(name)));
    if t.len() == 0 {
        seq!['a', 't', 't', 'a', 'c', 'h', 'm', 'e', 'n', 't', '.', 'b', 'i', 'n']
    } else {
        t
    }
}

proof fn lemma_trim_start_skip(s: Seq<char>, a: int)
    requires
        0 <= a <= s.len(),
        forall|j: int| 0 <= j < a ==> is_white_space(#[trigger] s[j]),
    ensures
        trim_start(s) == trim_start(s.subrange(a, s.len() as int)),
    decreases a,
{
    if a > 0 {
        lemma_trim_start_skip(s.drop_first(), a - 1);
        assert(s.drop_first().subrange(a - 1, s.len() - 1) =~= s.subrange(a, s.len() as int));
    } else {
        assert(s.subrange(0, s.len() as int) =~= s);
    }
}

proof fn lemma_trim_end_skip(s: Seq<char>, b: int)
    requires
        0 <= b <= s.len(),
        forall|j: int| b <= j < s.len() ==> is_white_space(#[trigger] s[j]),
    ensures
        trim_end(s) == trim_end(s.subrange(0, b)),
    decreases s.len() - b,
{
    if b < s.len() {
        lemma_trim_end_skip(s.drop_last(), b);
        assert(s.drop_last().subrange(0, b) =~= s.subrange(0, b));
    } else {
        assert(s.subrange(0, b) =~= s);
    }
}

/// Cleans the name of a received attachment before it is saved: drops path separators and
/// control characters, trims white space, and falls back to `attachment.bin` where nothing is
/// left.
pub fn sanitize_filename(name: &str) -> (r: String)
    ensures
        r@ == sanitized_filename(name@),
{
    let n = name.unicode_len();
    let mut out = String::new();
    let mut i: usize = 0;
    while i < n
        invariant
            n == name@.len(),
            0 <= i <= n,
            out@ == kept_chars(name@.subrange(0, i as int)),
        decreases n - i,
    {
        let c = name.get_char(i);
        proof {
            assert(name@.subrange(0, i as int + 1).drop_last() =~= name@.subrange(0, i as int));
        }
        let control = (c as u32) <= 0x1f || (0x7f <= (c as u32) && (c as u32) <= 0x9f);
        if c != '/' && c != '\\' && !control {
            out.append(name.substring_char(i, i + 1));
        }
        i = i + 1;
    }
    proof {
        assert(name@.subrange(0, n as int) =~= name@);
    }
    let ghost kept = out@;
    let s = out.as_str();
    let m = s.unicode_len();
    let mut a: usize = 0;
    while a < m && white_space(s.get_char(a))
        invariant
            m == kept.len(),
            s@ == kept,
            0 <= a <= m,
            forall|j: int| 0 <= j < a ==> is_white_space(#[trigger] kept[j]),
        decreases m - a,
    {
        a = a + 1;
    }
    proof {
        lemma_trim_start_skip(kept, a as int);
    }
    let mut b: usize = m;
    while b > a && white_space(s.get_char(b - 1))
        invariant
            m == kept.len(),
            s@ == kept,
            0 <= a <= b <= m,
            forall|j: int| b <= j < m ==> is_white_space(#[trigger] kept[j]),
        decreases b - a,
    {
        b = b - 1;
    }
    proof {
        let t0 = kept.subrange(a as int, m as int);
        assert(trim_start(t0) == t0);
        assert forall|j: int| b - a <= j < t0.len() implies is_white_space(#[trigger] t0[j]) by {
            assert(t0[j] == kept[j + a]);
        }
        lemma_trim_end_skip(t0, b - a);
        assert(t0.subrange(0, b - a) =~= kept.subrange(a as int, b as int));
        assert(trim_end(kept.subrange(a as int, b as int)) == kept.subrange(a as int, b as int));
    }
    if b == a {
        let fallback = "attachment.bin";
        proof {
            reveal_strlit("attachment.bin");
        }
        fallback.to_owned()
    } else {
        s.substring_char(a, b).to_owned()
    }
}

/// The position of the last `c` in `s`, if any.
pub open spec fn last_index_of(s: Seq<char>, c: char) -> Option<int>
    decreases s.len(),
{
    if s.len() == 0 {
        None
    } else if s.last() == c {
        Some(s.len() - 1)
    } else {
        last_index_of(s.drop_last(), c)
    }
}

/// `last_index_of` finds the last occurrence: the position holds `c` and no later one does, and
/// there is none exactly when `c` does not occur.
pub proof fn lemma_last_index_of(s: Seq<char>, c: char)
    ensures
        last_index_of(s, c) matches Some(i) ==> 0 <= i < s.len() && s[i] == c && forall|j: int|
            i < j < s.len() ==> s[j] != c,
        last_index_of(s, c) is None <==> !s.contains(c),
    decreases s.len(),
{
    if s.len() > 0 {
        lemma_last_index_of(s.drop_last(), c);
        if s.last() != c {
            if let Some(i) = last_index_of(s.drop_last(), c) {
                assert(s[i] == s.drop_last()[i]);
                assert forall|j: int| i < j < s.len() implies s[j] != c by {
                    if j < s.len() - 1 {
                        assert(s[j] == s.drop_last()[j]);
                    }
                }
            }
            if s.contains(c) {
                let k = choose|k: int| 0 <= k < s.len() && s[k] == c;
                assert(s.drop_last()[k] == c);
            }
            if s.drop_last().contains(c) {
                let k = choose|k: int| 0 <= k < s.drop_last().len() && s.drop_last()[k] == c;
                assert(s[k] == c);
            }
        } else {
            assert(s[s.len() - 1] == c);
        }
    }
}

/// The stem and extension of a file name: the parts before and after its last dot, or the
/// whole name and nothing where there is no dot or either part would be empty.
pub open spec fn split_extension_spec(s: Seq<char>) -> (Seq<char>, Seq<char>) {
    match last_index_of(s, '.') {
        Some(p) => if p == 0 || p == s.len() - 1 {
            (s, Seq::empty())
        } else {
            (s.subrange(0, p), s.subrange(p + 1, s.len() as int))
        },
        None => (s, Seq::empty()),
    }
}

/// Splits a file name into its stem and extension, at its last dot.
pub fn split_extension(filename: &str) -> (r: (&str, &str))
    ensures
        r.0@ == split_extension_spec(filename@).0,
        r.1@ == split_extension_spec(filename@).1,
{
    let n = filename.unicode_len();
    let mut p: usize = n;
    proof {
        assert(filename@.subrange(0, n as int) =~= filename@);
    }
    while p > 0 && filename.get_char(p - 1) != '.'
        invariant
            n == filename@.len(),
            0 <= p <= n,
            last_index_of(filename@, '.') == last_index_of(filename@.subrange(0, p as int), '.'),
        decreases p,
    {
        proof {
            assert(filename@.subrange(0, p as int).drop_last() =~= filename@.subrange(
                0,
                p as int - 1,
            ));
        }
        p = p - 1;
    }
    proof {
        if p == 0 {
            assert(filename@.subrange(0, 0) =~= Seq::<char>::empty());
        } else {
            assert(filename@.subrange(0, p as int).last() == filename@[p - 1]);
        }
    }
    if p == 0 {
        return (filename, filename.substring_char(n, n));
    }
    let dot = p - 1;
    if dot == 0 || dot == n - 1 {
        (filename, filename.substring_char(n, n))
    } else {
        (filename.substring_char(0, dot), filename.substring_char(dot + 1, n))
    }
}

/// Whether a saved copy of an attachment is complete: a regular file holding exactly the
/// attachment's bytes.
pub fn saved_copy_complete(is_file: bool, file_len: u64, attachment: &Attachment) -> (r: bool)
    requires
        sizes_sum(attachment.children@) <= u64::MAX,
    ensures
        r == (is_file && file_len == sizes_sum(attachment.children@)),
{
    is_file && file_len == attachment.total_size()
}

/// Whether some hash in `v` has the bytes `h`.
pub open spec fn holds_hash(v: Seq<crate::crypt::hash::Hash>, h: Seq<u8>) -> bool {
    exists|i: int| 0 <= i < v.len() && #[trigger] v[i]@ == h
}

proof fn lemma_holds_push(v: Seq<crate::crypt::hash::Hash>, x: crate::crypt::hash::Hash, h: Seq<u8>)
    ensures
        holds_hash(v.push(x), h) <==> (holds_hash(v, h) || x@ == h),
{
    if holds_hash(v.push(x), h) && !(x@ == h) {
        let j = choose|j: int| 0 <= j < v.len() + 1 && #[trigger] v.push(x)[j]@ == h;
        assert(v[j]@ == h);
    }
    if holds_hash(v, h) {
        let j = choose|j: int| 0 <= j < v.len() && #[trigger] v[j]@ == h;
        assert(v.push(x)[j]@ == h);
    }
    if x@ == h {
        assert(v.push(x)[v.len() as int]@ == h);
    }
}

/// The attachments being downloaded, so that one is not fetched twice at once.
pub struct DownloadsInProgress {
    ids: Vec<crate::crypt::hash::Hash>,
}

impl DownloadsInProgress {
    /// The attachments being downloaded, by their hashes' bytes.
    pub closed spec fn ids(&self) -> Set<Seq<u8>> {
        Set::new(|h: Seq<u8>| holds_hash(self.ids@, h))
    }

    /// No download in progress.
    pub fn new() -> (d: DownloadsInProgress)
        ensures
            d.ids() == Set::<Seq<u8>>::empty(),
    {
        let d = DownloadsInProgress { ids: Vec::new() };
        assert(d.ids() =~= Set::<Seq<u8>>::empty());
        d
    }

    /// Marks a download as started; answers `false`, changing nothing, where it already is.
    pub fn try_begin(&mut self, id: &crate::crypt::hash::Hash) -> (started: bool)
        ensures
            started == !old(self).ids().contains(id@),
            final(self).ids() == old(self).ids().insert(id@),
    {
        let mut i: usize = 0;
        while i < self.ids.len()
            invariant
                0 <= i <= self.ids@.len(),
                self.ids@ == old(self).ids@,
                forall|j: int| 0 <= j < i ==> (#[trigger] self.ids@[j])@ != id@,
            decreases self.ids@.len() - i,
        {
            if self.ids[i] == *id {
                proof {
                    assert(holds_hash(self.ids@, id@));
                    assert(old(self).ids().insert(id@) =~= old(self).ids());
                }
                return false;
            }
            i = i + 1;
        }
        let ghost before = self.ids@;
        self.ids.push(*id);
        proof {
            assert(!holds_hash(before, id@));
            assert forall|h: Seq<u8>| #[trigger] self.ids().contains(h) <==> old(self).ids().insert(id@).contains(h) by {
                lemma_holds_push(before, *id, h);
            }
            assert(self.ids() =~= old(self).ids().insert(id@));
        }
        true
    }

    /// Marks a download as over.
    pub fn finish(&mut self, id: &crate::crypt::hash::Hash)
        ensures
            final(self).ids() == old(self).ids().remove(id@),
    {
        let mut kept: Vec<crate::crypt::hash::Hash> = Vec::new();
        let mut i: usize = 0;
        while i < self.ids.len()
            invariant
                0 <= i <= self.ids@.len(),
                self.ids@ == old(self).ids@,
                forall|h: Seq<u8>|
                    #[trigger] holds_hash(kept@, h) <==> (h != id@ && holds_hash(
                        self.ids@.subrange(0, i as int),
                        h,
                    )),
            decreases self.ids@.len() - i,
        {
            let ghost before = kept@;
            let x = self.ids[i];
            proof {
                assert(self.ids@.subrange(0, i as int + 1) =~= self.ids@.subrange(0, i as int).push(x));
            }
            if !(x == *id) {
                kept.push(x);
            }
            proof {
                assert forall|h: Seq<u8>|
                    #[trigger] holds_hash(kept@, h) <==> (h != id@ && holds_hash(
                        self.ids@.subrange(0, i as int + 1),
                        h,
                    )) by {
                    lemma_holds_push(self.ids@.subrange(0, i as int), x, h);
                    if !(x@ == id@) {
                        lemma_holds_push(before, x, h);
                    }
                }
            }
            i = i + 1;
        }
        proof {
            assert(self.ids@.subrange(0, self.ids@.len() as int) =~= self.ids@);
        }
        self.ids = kept;
        proof {
            assert(self.ids() =~= old(self).ids().remove(id@));
        }
    }
}

/// The name tried for the `i`-th copy of a file already present: `stem (i)`, followed by a dot
/// and the extension where there is one.
pub open spec fn candidate_name_spec(stem: Seq<char>, ext: Seq<char>, i: nat) -> Seq<char> {
    let base = stem + seq![' ', '('] + decimal(i) + seq![')'];
    if ext.len() == 0 {
        base
    } else {
        base + seq!['.'] + ext
    }
}

/// The name tried for the `i`-th copy of a file already present in the download folder.
pub fn candidate_name(stem: &str, ext: &str, i: u32) -> (r: String)
    ensures
        r@ == candidate_name_spec(stem@, ext@, i as nat),
{
    let mut out = stem.to_owned();
    let open = " (";
    let close = ")";
    let dot = ".";
    proof {
        reveal_strlit(" (");
        reveal_strlit(")");
        reveal_strlit(".");
    }
    out.append(open);
    push_decimal(&mut out, i as u64);
    out.append(close);
    if ext.unicode_len() > 0 {
        out.append(dot);
        out.append(ext);
    }
    proof {
        assert(open@ =~= seq![' ', '(']);
        assert(close@ =~= seq![')']);
        assert(dot@ =~= seq!['.']);
        assert(out@ =~= candidate_name_spec(stem@, ext@, i as nat));
    }
    out
}

/// `n` as `width` lowercase hexadecimal digits, the most significant first.
pub open spec fn hex_fixed(n: nat, width: nat) -> Seq<char>
    decreases width,
{
    if width == 0 {
        Seq::empty()
    } else {
        hex_fixed(n / 16, (width - 1) as nat).push(hex_alphabet()[(n % 16) as int])
    }
}

/// Appends the last `width` hexadecimal digits of `n` to `out`.
fn push_hex_fixed(out: &mut String, n: u64, width: u32)
    ensures
        final(out)@ == old(out)@ + hex_fixed(n as nat, width as nat),
    decreases width,
{
    if width > 0 {
        push_hex_fixed(out, n / 16, width - 1);
        let d: u8 = (n % 16) as u8;
        push_hex_digit(out, d);
        proof {
            assert(hex_digit(d) == hex_alphabet()[(n as nat % 16) as int]);
            assert(final(out)@ =~= old(out)@ + hex_fixed(n as nat, width as nat));
        }
    } else {
        proof {
            assert(final(out)@ =~= old(out)@ + hex_fixed(n as nat, width as nat));
        }
    }
}

/// The name of the temporary file that a download into `stem` is written to before it is
/// moved into place: the name, `.part.` and the nonce as sixteen hexadecimal digits.
pub open spec fn temp_name_spec(stem: Seq<char>, nonce: u64) -> Seq<char> {
    stem + ".part."@ + hex_fixed(nonce as nat, 16)
}

/// The temporary file name for a download into `stem`, with the given nonce.
pub fn temp_file_name(stem: &str, nonce: u64) -> (r: String)
    ensures
        r@ == temp_name_spec(stem@, nonce),
{
    let mut out = stem.to_owned();
    let part = ".part.";
    proof {
        reveal_strlit(".part.");
    }
    out.append(part);
    push_hex_fixed(&mut out, nonce, 16);
    proof {
        assert(out@ =~= temp_name_spec(stem@, nonce));
    }
    out
}

/// A fresh temporary file name for a download into `stem`, with a nonce read little-endian
/// from eight random bytes.
pub fn create_temp_name(stem: &str) -> (r: String)
    ensures
        exists|nonce: u64| r@ == temp_name_spec(stem@, nonce),
{
    let bytes: [u8; 8] = random_array();
    let nonce = vstd::bytes::u64_from_le_bytes(bytes.as_slice());
    temp_file_name(stem, nonce)
}

} // verus!
