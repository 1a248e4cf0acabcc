use vstd::prelude::*;

use crate::crypt::encoding::{
    base64url_encode, decode_32_base64, encode_32_base64, spec_decode_32, ParseKeyError,
};
use crate::bytes::{framed, push_framed, push_framed32, push_u64_le, seq_len_ok};
use crate::crypt::aead::AeadKey;
use crate::crypt::hash::spec_digest;
use crate::structs::server::ServerName;
use crate::structs::timestamp::Timestamp;
use crate::structs::username::UserName;
use vstd::bytes::spec_u64_to_le_bytes;
use vstd::utf8::encode_utf8;

verus! {

/// The identifier of a group: the hash of its descriptor.
#[derive(Clone, Copy, Debug)]
pub struct GroupId(pub [u8; 32]);

impl View for GroupId {
    type V = Seq<u8>;

    open spec fn view(&self) -> Seq<u8> {
        self.0@
    }
}

impl PartialEq for GroupId {
    fn eq(&self, other: &Self) -> (r: bool) {
        crate::crypt::hash::bytes32_eq(&self.0, &other.0)
    }
}

impl Eq for GroupId {}

impl vstd::std_specs::cmp::PartialEqSpecImpl for GroupId {
    open spec fn obeys_eq_spec() -> bool {
        true
    }

    open spec fn eq_spec(&self, other: &GroupId) -> bool {
        self@ == other@
    }
}

impl GroupId {
    /// Builds a group id from its 32 bytes.
    pub fn from_bytes(bytes: [u8; 32]) -> (g: GroupId)
        ensures
            g@ == bytes@,
    {
        GroupId(bytes)
    }

    /// The 32 bytes of the group id.
    pub fn as_bytes(&self) -> (bytes: [u8; 32])
        ensures
            bytes@ == self@,
    {
        self.0
    }

    /// The text form of the group id: its bytes in URL-safe unpadded base64.
    pub fn to_string(&self) -> (s: String)
        ensures
            s@ == base64url_encode(self@),
    {
        encode_32_base64(self.0)
    }

    /// Reads a group id from its text form. The text form of any group id reads back as that
    /// group id.
    pub fn from_str(s: &str) -> (r: Result<GroupId, ParseKeyError>)
        ensures
            match r {
                Ok(g) => spec_decode_32(s@) == Ok::<Seq<u8>, ParseKeyError>(g@),
                Err(e) => spec_decode_32(s@) == Err::<Seq<u8>, ParseKeyError>(e),
            },
            forall|b: Seq<u8>|
                b.len() == 32 && #[trigger] base64url_encode(b) == s@ ==> (r matches Ok(g) && g@
                    == b),
    {
        match decode_32_base64(s) {
            Ok(b) => Ok(GroupId(b)),
            Err(e) => Err(e),
        }
    }
}

/// A group management message.
#[derive(Clone, Debug)]
pub enum GroupManageMsg {
    InviteSent(UserName),
    InviteAccepted,
    Leave,
    Ban(UserName),
    Unban(UserName),
    AddAdmin(UserName),
    RemoveAdmin(UserName),
}

/// What a group is created from: a random nonce, the creating admin, the creation time, the
/// server the group lives on and the key of its management mailbox.
#[derive(Clone, Debug)]
pub struct GroupDescriptor {
    pub nonce: crate::crypt::hash::Hash,
    pub init_admin: UserName,
    pub created_at: Timestamp,
    pub server: ServerName,
    pub management_key: AeadKey,
}

/// Whether a descriptor's names are short enough for its BCS encoding.
pub open spec fn descriptor_encodable(admin: Seq<char>, server: Seq<char>) -> bool {
    seq_len_ok(encode_utf8(admin).len()) && seq_len_ok(encode_utf8(server).len())
}

/// The BCS encoding of a group descriptor, field by field.
pub open spec fn group_descriptor_encoding(d: GroupDescriptor) -> Seq<u8> {
    framed(d.nonce@) + framed(encode_utf8(d.init_admin@)) + spec_u64_to_le_bytes(d.created_at.0)
        + framed(encode_utf8(d.server@)) + framed(d.management_key@)
}

/// The id of the group a descriptor creates: the hash of the descriptor's BCS encoding.
pub open spec fn group_id_of(d: GroupDescriptor) -> Seq<u8> {
    spec_digest(group_descriptor_encoding(d))
}

impl GroupDescriptor {
    /// The BCS encoding of the descriptor.
    pub fn encode(&self) -> (v: Vec<u8>)
        requires
            descriptor_encodable(self.init_admin@, self.server@),
        ensures
            v@ == group_descriptor_encoding(*self),
    {
        let mut v: Vec<u8> = Vec::new();
        push_framed32(&mut v, &self.nonce.0);
        push_framed(&mut v, self.init_admin.as_str().as_bytes());
        push_u64_le(&mut v, self.created_at.0);
        push_framed(&mut v, self.server.as_str().as_bytes());
        push_framed32(&mut v, &self.management_key.0);
        assert(v@ =~= group_descriptor_encoding(*self));
        v
    }

    /// The id of the group: the hash of the descriptor.
    pub fn id(&self) -> (g: GroupId)
        requires
            descriptor_encodable(self.init_admin@, self.server@),
        ensures
            g@ == group_id_of(*self),
    {
        let v = self.encode();
        GroupId(crate::crypt::hash::Hash::digest(v.as_slice()).to_bytes())
    }
}

} // verus!
