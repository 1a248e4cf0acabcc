use vstd::prelude::*;
use vstd::utf8::encode_utf8;

use crate::bytes::{framed, push_framed, seq_len_ok, MAX_SEQUENCE_LENGTH};

verus! {

/// A typed message: a kind tag and its payload.
#[derive(Clone, Debug)]
pub struct Blob {
    pub kind: String,
    pub inner: Vec<u8>,
}

impl View for Blob {
    type V = (Seq<char>, Seq<u8>);

    open spec fn view(&self) -> (Seq<char>, Seq<u8>) {
        (self.kind@, self.inner@)
    }
}

impl Blob {
    /// Copies the blob.
    pub fn duplicate(&self) -> (b: Blob)
        ensures
            b@ == self@,
    {
        Blob { kind: self.kind.clone(), inner: vstd::slice::slice_to_vec(self.inner.as_slice()) }
    }

    pub const V1_USER_DESCRIPTOR: &'static str = "v1.user_descriptor";
    pub const V1_SERVER_DESCRIPTOR: &'static str = "v1.server_descriptor";
    pub const V1_MESSAGE_CONTENT: &'static str = "v1.message_content";
    pub const V1_DIRECT_MESSAGE: &'static str = "v1.direct_message";
    pub const V1_PLAINTEXT_DIRECT_MESSAGE: &'static str = "v1.plaintext_direct_message";
    pub const V1_GROUP_MESSAGE: &'static str = "v1.group_message";
    pub const V1_GROUP_REKEY: &'static str = "v1.group_rekey";
    pub const V1_AEAD_KEY: &'static str = "v1.aead_key";

    /// Whether the blob can be BCS-encoded: its kind and payload are short enough.
    pub open spec fn encodable(&self) -> bool {
        &&& seq_len_ok(encode_utf8(self.kind@).len())
        &&& seq_len_ok(self.inner@.len())
    }

    /// The BCS encoding of the blob: its kind, then its payload.
    pub open spec fn encoding(&self) -> Seq<u8> {
        framed(encode_utf8(self.kind@)) + framed(self.inner@)
    }

    /// Whether the blob can be BCS-encoded.
    pub fn is_encodable(&self) -> (r: bool)
        ensures
            r == self.encodable(),
    {
        self.kind.as_str().as_bytes().len() <= MAX_SEQUENCE_LENGTH && self.inner.len()
            <= MAX_SEQUENCE_LENGTH
    }

    /// Appends the BCS encoding of the blob.
    pub fn encode_into(&self, dst: &mut Vec<u8>)
        requires
            self.encodable(),
        ensures
            final(dst)@ == old(dst)@ + self.encoding(),
    {
        push_framed(dst, self.kind.as_str().as_bytes());
        push_framed(dst, self.inner.as_slice());
        assert(dst@ =~= old(dst)@ + self.encoding());
    }

    /// Whether the blob has the given kind.
    pub fn has_kind(&self, kind: &str) -> (r: bool)
        ensures
            r == (self.kind@ == kind@),
    {
        let k = kind.to_owned();
        self.kind == k
    }
}

} // verus!
