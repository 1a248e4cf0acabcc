use vstd::bytes::spec_u64_to_le_bytes;
use vstd::prelude::*;
use vstd::utf8::encode_utf8;

use crate::bytes::{framed, push_bytes, push_framed, push_framed32, push_u64_le, push_uleb128, seq_len_ok, uleb128, MAX_SEQUENCE_LENGTH};
use crate::crypt::aead::AeadKey;
use crate::crypt::hash::spec_digest;
use crate::structs::event::EventPayload;

verus! {

/// A list of children seen through the hashes' bytes.
pub open spec fn children_view(children: Seq<(crate::crypt::hash::Hash, u64)>) -> Seq<(Seq<u8>, u64)> {
    children.map_values(|c: (crate::crypt::hash::Hash, u64)| (c.0@, c.1))
}

/// The sum of the sizes of a list of children.
pub open spec fn sizes_sum(children: Seq<(crate::crypt::hash::Hash, u64)>) -> int {
    sizes_total(children_view(children))
}

/// The sum of the sizes of a list of children, seen through their hashes' bytes.
pub open spec fn sizes_total(children: Seq<(Seq<u8>, u64)>) -> int
    decreases children.len(),
{
    if children.len() == 0 {
        0
    } else {
        sizes_total(children.drop_last()) + children.last().1
    }
}

/// The BCS encoding of a list of children: their number in ULEB128, then each child's hash
/// and size.
pub open spec fn children_encoding(children: Seq<(Seq<u8>, u64)>) -> Seq<u8> {
    uleb128(children.len()) + children_body(children)
}

/// Each child's hash (as a byte string) followed by its size as 8 little-endian bytes, one
/// after another.
pub open spec fn children_body(children: Seq<(Seq<u8>, u64)>) -> Seq<u8>
    decreases children.len(),
{
    if children.len() == 0 {
        Seq::empty()
    } else {
        children_body(children.drop_last()) + framed(children.last().0) + spec_u64_to_le_bytes(
            children.last().1,
        )
    }
}

/// The hash of a fragment node with the given children.
pub open spec fn node_hash(children: Seq<(Seq<u8>, u64)>) -> Seq<u8> {
    spec_digest(seq![0u8] + children_encoding(children))
}

/// Viewing a prefix one child longer adds that child at the end.
pub proof fn lemma_children_view_step(children: Seq<(crate::crypt::hash::Hash, u64)>, i: int)
    requires
        0 <= i < children.len(),
    ensures
        children_view(children.subrange(0, i + 1)).drop_last() == children_view(
            children.subrange(0, i),
        ),
        children_view(children.subrange(0, i + 1)).last() == (children[i].0@, children[i].1),
        children_view(children.subrange(0, i + 1)).len() == i + 1,
{
    assert(children_view(children.subrange(0, i + 1)).drop_last() =~= children_view(
        children.subrange(0, i),
    ));
}

/// The sum of the sizes of a list of children, for sums that fit in 64 bits.
fn sum_sizes(children: &Vec<(crate::crypt::hash::Hash, u64)>) -> (r: u64)
    requires
        sizes_sum(children@) <= u64::MAX,
    ensures
        r == sizes_sum(children@),
{
    let mut total: u64 = 0;
    let mut i: usize = 0;
    while i < children.len()
        invariant
            0 <= i <= children@.len(),
            sizes_sum(children@) <= u64::MAX,
            total == sizes_sum(children@.subrange(0, i as int)),
        decreases children@.len() - i,
    {
        proof {
            lemma_children_view_step(children@, i as int);
            lemma_sizes_sum_prefix(children@, i as int + 1);
        }
        total = total + children[i].1;
        i = i + 1;
    }
    proof {
        assert(children@.subrange(0, children@.len() as int) =~= children@);
    }
    total
}

/// The sum over a prefix is at most the sum over the whole list.
pub proof fn lemma_sizes_sum_prefix(children: Seq<(crate::crypt::hash::Hash, u64)>, n: int)
    requires
        0 <= n <= children.len(),
    ensures
        0 <= sizes_sum(children.subrange(0, n)) <= sizes_sum(children),
    decreases children.len() - n,
{
    if n < children.len() {
        lemma_sizes_sum_prefix(children, n + 1);
        lemma_children_view_step(children, n);
    } else {
        assert(children.subrange(0, n) =~= children);
    }
    lemma_sizes_total_nonneg(children_view(children.subrange(0, n)));
}

/// A sum of sizes is never negative.
pub proof fn lemma_sizes_total_nonneg(children: Seq<(Seq<u8>, u64)>)
    ensures
        sizes_total(children) >= 0,
    decreases children.len(),
{
    if children.len() > 0 {
        lemma_sizes_total_nonneg(children.drop_last());
    }
}

/// Appends the encoding of a list of children.
fn push_children(dst: &mut Vec<u8>, children: &Vec<(crate::crypt::hash::Hash, u64)>)
    requires
        seq_len_ok(children@.len() as nat),
    ensures
        final(dst)@ == old(dst)@ + children_encoding(children_view(children@)),
{
    push_uleb128(dst, children.len() as u32);
    let ghost start = dst@;
    let mut i: usize = 0;
    while i < children.len()
        invariant
            0 <= i <= children@.len(),
            dst@ == start + children_body(children_view(children@.subrange(0, i as int))),
        decreases children@.len() - i,
    {
        proof {
            lemma_children_view_step(children@, i as int);
        }
        let (h, size) = children[i];
        push_framed32(dst, &h.0);
        push_u64_le(dst, size);
        assert(dst@ =~= start + children_body(children_view(children@.subrange(0, i as int + 1))));
        i = i + 1;
    }
    proof {
        assert(children@.subrange(0, children@.len() as int) =~= children@);
    }
    assert(dst@ =~= old(dst)@ + children_encoding(children_view(children@)));
}

/// An attachment, which assigns a filename and mime to a series of encrypted fragments. This is
/// something that can be sent in messages to represent attachments, for example.
#[derive(Clone, Debug)]
pub struct Attachment {
    pub filename: String,
    pub mime: String,
    pub children: Vec<(crate::crypt::hash::Hash, u64)>,
    pub content_key: AeadKey,
}

/// A fragment node, which contains pointers to other fragment nodes and/or leaves.
#[derive(Clone, Debug)]
pub struct FragmentNode {
    pub children: Vec<(crate::crypt::hash::Hash, u64)>,
}

/// A fragment leaf, which must contain a single piece of data.
#[derive(Clone, Debug)]
pub struct FragmentLeaf {
    pub nonce: [u8; 24],
    pub data: Vec<u8>,
}

/// Either a fragment node or leaf.
#[derive(Clone, Debug)]
pub enum Fragment {
    Node(FragmentNode),
    Leaf(FragmentLeaf),
}

impl EventPayload for Attachment {
    open spec fn spec_mime() -> Seq<char> {
        seq!['a', 'p', 'p', 'l', 'i', 'c', 'a', 't', 'i', 'o', 'n', '/', 'v', 'n', 'd', '.', 'n', 'u',
        'l', 'l', 's', 'p', 'a', 'c', 'e', '.', 'v', '1', '.', 'a', 't', 't', 'a', 'c', 'h', 'm',
        'e', 'n', 't']
    }

    fn mime() -> (m: &'static str) {
        let m = "application/vnd.nullspace.v1.attachment";
        proof {
            reveal_strlit("application/vnd.nullspace.v1.attachment");
            assert(m@ =~= Self::spec_mime());
        }
        m
    }
}

/// The BCS encoding of a fragment: the variant's index, then for a node the encoding of its
/// children, and for a leaf its nonce and its data, each as a byte string.
pub open spec fn fragment_encoding(f: Fragment) -> Seq<u8> {
    match f {
        Fragment::Node(node) => seq![0u8] + children_encoding(children_view(node.children@)),
        Fragment::Leaf(leaf) => seq![1u8] + framed(leaf.nonce@) + framed(leaf.data@),
    }
}

/// Whether a fragment can be BCS-encoded: not too many children, or not too much data.
pub open spec fn fragment_encodable(f: Fragment) -> bool {
    match f {
        Fragment::Node(node) => seq_len_ok(node.children@.len() as nat),
        Fragment::Leaf(leaf) => seq_len_ok(leaf.data@.len() as nat),
    }
}

/// Whether an attachment can be BCS-encoded.
pub open spec fn attachment_encodable(a: Attachment) -> bool {
    &&& seq_len_ok(encode_utf8(a.filename@).len())
    &&& seq_len_ok(encode_utf8(a.mime@).len())
    &&& seq_len_ok(a.children@.len() as nat)
}

/// The hash a fragment is stored and fetched under.
pub open spec fn fragment_hash(f: Fragment) -> Seq<u8> {
    spec_digest(fragment_encoding(f))
}

/// The BCS encoding of an attachment: its filename and mime, the encoding of its children,
/// then the content key as a byte string.
pub open spec fn attachment_encoding(a: Attachment) -> Seq<u8> {
    framed(encode_utf8(a.filename@)) + framed(encode_utf8(a.mime@))
        + children_encoding(children_view(a.children@)) + framed(a.content_key@)
}

impl Attachment {
    /// The number of plaintext bytes the attachment holds: the sum of its children's sizes.
    pub fn total_size(&self) -> (r: u64)
        requires
            sizes_sum(self.children@) <= u64::MAX,
        ensures
            r == sizes_sum(self.children@),
    {
        sum_sizes(&self.children)
    }

    /// The canonical bytes of the attachment.
    pub fn encode(&self) -> (r: Vec<u8>)
        requires
            attachment_encodable(*self),
        ensures
            r@ == attachment_encoding(*self),
    {
        let mut out: Vec<u8> = Vec::new();
        push_framed(&mut out, self.filename.as_str().as_bytes());
        push_framed(&mut out, self.mime.as_str().as_bytes());
        push_children(&mut out, &self.children);
        push_framed32(&mut out, &self.content_key.0);
        assert(out@ =~= attachment_encoding(*self));
        out
    }

    /// The hash that identifies the attachment.
    pub fn hash(&self) -> (h: crate::crypt::hash::Hash)
        requires
            attachment_encodable(*self),
        ensures
            h@ == spec_digest(attachment_encoding(*self)),
    {
        let bytes = self.encode();
        crate::crypt::hash::Hash::digest(bytes.as_slice())
    }
}

impl FragmentNode {
    /// The number of plaintext bytes under the node: the sum of its children's sizes.
    pub fn total_size(&self) -> (r: u64)
        requires
            sizes_sum(self.children@) <= u64::MAX,
        ensures
            r == sizes_sum(self.children@),
    {
        sum_sizes(&self.children)
    }

    /// The hash the node is stored and fetched under.
    pub fn hash(&self) -> (h: crate::crypt::hash::Hash)
        requires
            seq_len_ok(self.children@.len() as nat),
        ensures
            h@ == node_hash(children_view(self.children@)),
    {
        let mut out: Vec<u8> = Vec::new();
        out.push(0u8);
        push_children(&mut out, &self.children);
        assert(out@ =~= seq![0u8] + children_encoding(children_view(self.children@)));
        crate::crypt::hash::Hash::digest(out.as_slice())
    }
}

impl FragmentLeaf {
    /// The hash the leaf is stored and fetched under.
    pub fn hash(&self) -> (h: crate::crypt::hash::Hash)
        requires
            seq_len_ok(self.data@.len() as nat),
        ensures
            h@ == fragment_hash(Fragment::Leaf(*self)),
    {
        let mut out: Vec<u8> = Vec::new();
        out.push(1u8);
        push_framed(&mut out, self.nonce.as_slice());
        push_framed(&mut out, self.data.as_slice());
        assert(out@ =~= fragment_encoding(Fragment::Leaf(*self)));
        crate::crypt::hash::Hash::digest(out.as_slice())
    }
}

impl Fragment {
    /// The canonical bytes of the fragment.
    pub fn encode(&self) -> (r: Vec<u8>)
        requires
            fragment_encodable(*self),
        ensures
            r@ == fragment_encoding(*self),
    {
        let mut out: Vec<u8> = Vec::new();
        match self {
            Fragment::Node(node) => {
                out.push(0u8);
                push_children(&mut out, &node.children);
            },
            Fragment::Leaf(leaf) => {
                out.push(1u8);
                push_framed(&mut out, leaf.nonce.as_slice());
                push_framed(&mut out, leaf.data.as_slice());
            },
        }
        assert(out@ =~= fragment_encoding(*self));
        out
    }

    /// The hash the fragment is stored and fetched under.
    pub fn hash(&self) -> (h: crate::crypt::hash::Hash)
        requires
            fragment_encodable(*self),
        ensures
            h@ == fragment_hash(*self),
    {
        let bytes = self.encode();
        crate::crypt::hash::Hash::digest(bytes.as_slice())
    }
}

} // verus!
