use vstd::prelude::*;

use crate::crypt::dh::DhPublic;
use crate::crypt::hash::spec_keyed_digest;
use crate::crypt::signing::{spec_verify, Signature, SigningPublic, SigningSecret, ed25519_sign};
use crate::structs::blob::Blob;
use crate::structs::group::GroupId;
use crate::structs::timestamp::{NanoTimestamp, Timestamp};
use crate::structs::username::{check_sigil_name, is_sigil_name, UserName};
use vstd::bytes::spec_u64_to_le_bytes;
use vstd::utf8::encode_utf8;

verus! {

/// Whether `s` follows the rules for server names: `~` and then 5 to 15 name characters.
pub open spec fn is_valid_server_name(s: Seq<char>) -> bool {
    is_sigil_name(s, '~')
}

/// What parsing a server name gives: the name itself if it follows the rules, else the name
/// with `~` put in front if that does, else nothing.
pub open spec fn spec_parse_server_name(s: Seq<char>) -> Option<Seq<char>> {
    if is_valid_server_name(s) {
        Some(s)
    } else if is_valid_server_name(seq!['~'] + s) {
        Some(seq!['~'] + s)
    } else {
        None
    }
}

/// A server name that matches the rules for server names.
#[derive(Clone, Debug)]
pub struct ServerName(String);

/// The error for a string that is not a valid server name.
#[derive(Clone, Copy, Debug, PartialEq, Eq, Structural)]
pub struct ServerNameError;

impl View for ServerName {
    type V = Seq<char>;

    closed spec fn view(&self) -> Seq<char> {
        self.0@
    }
}

impl PartialEq for ServerName {
    fn eq(&self, other: &Self) -> (r: bool) {
        self.0 == other.0
    }
}

impl Eq for ServerName {}

impl vstd::std_specs::cmp::PartialEqSpecImpl for ServerName {
    open spec fn obeys_eq_spec() -> bool {
        true
    }

    open spec fn eq_spec(&self, other: &ServerName) -> bool {
        self@ == other@
    }
}

impl ServerName {
    /// Parses a server name; a name without the leading `~` is accepted with it added.
    pub fn parse(name: &str) -> (r: Result<ServerName, ServerNameError>)
        ensures
            r is Ok <==> spec_parse_server_name(name@) is Some,
            r is Ok ==> spec_parse_server_name(name@) == Some(r->Ok_0@),
    {
        if check_sigil_name(name, '~') {
            return Ok(ServerName(name.to_owned()));
        }
        let tilde = "~";
        proof {
            reveal_strlit("~");
        }
        let mut with_tilde = tilde.to_owned();
        with_tilde.append(name);
        assert(with_tilde@ =~= seq!['~'] + name@);
        if check_sigil_name(with_tilde.as_str(), '~') {
            return Ok(ServerName(with_tilde));
        }
        Err(ServerNameError)
    }

    /// The server name as a string.
    pub fn as_str(&self) -> (s: &str)
        ensures
            s@ == self@,
    {
        self.0.as_str()
    }

    /// Copies the server name.
    pub fn duplicate(&self) -> (n: ServerName)
        ensures
            n@ == self@,
    {
        ServerName(self.0.clone())
    }

    /// Checks a string against the server name rules and takes it as a server name.
    pub fn try_from_string(value: String) -> (r: Result<ServerName, ServerNameError>)
        ensures
            r is Ok <==> is_valid_server_name(value@),
            r is Ok ==> r->Ok_0@ == value@,
    {
        if !check_sigil_name(value.as_str(), '~') {
            return Err(ServerNameError);
        }
        Ok(ServerName(value))
    }
}

/// A server descriptor stored at the directory.
#[derive(Clone, Debug)]
pub struct ServerDescriptor {
    /// All the publicly available URLs for this server.
    pub public_urls: Vec<String>,
    /// The public key of the server, used for authentication.
    pub server_pk: SigningPublic,
}

/// The key under which the direct mailbox of a user is derived.
pub open spec fn direct_tag() -> Seq<u8> {
    encode_utf8("direct-mailbox"@)
}

/// The key under which the message mailbox of a group is derived.
pub open spec fn group_messages_tag() -> Seq<u8> {
    encode_utf8("group-messages"@)
}

/// The key under which the management mailbox of a group is derived.
pub open spec fn group_management_tag() -> Seq<u8> {
    encode_utf8("group-management"@)
}

/// A mailbox ID at a server, wrapping a hash value.
#[derive(Clone, Copy, Debug)]
pub struct MailboxId(pub crate::crypt::hash::Hash);

impl View for MailboxId {
    type V = Seq<u8>;

    open spec fn view(&self) -> Seq<u8> {
        self.0@
    }
}

impl PartialEq for MailboxId {
    fn eq(&self, other: &Self) -> (r: bool) {
        self.0 == other.0
    }
}

impl Eq for MailboxId {}

impl vstd::std_specs::cmp::PartialEqSpecImpl for MailboxId {
    open spec fn obeys_eq_spec() -> bool {
        true
    }

    open spec fn eq_spec(&self, other: &MailboxId) -> bool {
        self@ == other@
    }
}

impl MailboxId {
    /// Gets the mailbox ID for DMs to the given username.
    pub fn direct(username: &UserName) -> (m: MailboxId)
        ensures
            m@ == spec_keyed_digest(direct_tag(), encode_utf8(username@)),
    {
        let tag = "direct-mailbox";
        MailboxId(crate::crypt::hash::Hash::keyed_digest(tag.as_bytes(), username.as_str().as_bytes()))
    }

    /// Gets the mailbox ID for a given group: its message mailbox.
    pub fn group(group: &GroupId) -> (m: MailboxId)
        ensures
            m@ == spec_keyed_digest(group_messages_tag(), group@),
    {
        Self::group_messages(group)
    }

    /// Gets the mailbox ID for group messages.
    pub fn group_messages(group: &GroupId) -> (m: MailboxId)
        ensures
            m@ == spec_keyed_digest(group_messages_tag(), group@),
    {
        let tag = "group-messages";
        let bytes = group.as_bytes();
        MailboxId(crate::crypt::hash::Hash::keyed_digest(tag.as_bytes(), &bytes))
    }

    /// Gets the mailbox ID for group management messages.
    pub fn group_management(group: &GroupId) -> (m: MailboxId)
        ensures
            m@ == spec_keyed_digest(group_management_tag(), group@),
    {
        let tag = "group-management";
        let bytes = group.as_bytes();
        MailboxId(crate::crypt::hash::Hash::keyed_digest(tag.as_bytes(), &bytes))
    }

    /// The 32 bytes of the mailbox ID.
    pub fn to_bytes(&self) -> (b: [u8; 32])
        ensures
            b@ == self@,
    {
        self.0.to_bytes()
    }
}

/// Compares two 20-byte arrays.
pub fn bytes20_eq(a: &[u8; 20], b: &[u8; 20]) -> (r: bool)
    ensures
        r == (a@ == b@),
{
    let mut i: usize = 0;
    while i < 20
        invariant
            0 <= i <= 20,
            a@.len() == 20,
            b@.len() == 20,
            forall|j: int| 0 <= j < i ==> a@[j] == b@[j],
        decreases 20 - i,
    {
        if a[i] != b[i] {
            return false;
        }
        i = i + 1;
    }
    assert(a@ =~= b@);
    true
}

/// Fills 20 bytes from the thread-local random number generator, through `rand::random`.
/// Nothing is stated of the bytes.
#[verifier::external_body]
fn random_bytes20() -> (out: [u8; 20]) {
    rand::random()
}

/// An opaque authentication token.
#[derive(Clone, Copy, Debug)]
pub struct AuthToken(pub [u8; 20]);

impl View for AuthToken {
    type V = Seq<u8>;

    open spec fn view(&self) -> Seq<u8> {
        self.0@
    }
}

impl PartialEq for AuthToken {
    fn eq(&self, other: &Self) -> (r: bool) {
        bytes20_eq(&self.0, &other.0)
    }
}

impl Eq for AuthToken {}

impl vstd::std_specs::cmp::PartialEqSpecImpl for AuthToken {
    open spec fn obeys_eq_spec() -> bool {
        true
    }

    open spec fn eq_spec(&self, other: &AuthToken) -> bool {
        self@ == other@
    }
}

impl AuthToken {
    /// Generates a new random authentication token.
    pub fn random() -> (t: AuthToken) {
        AuthToken(random_bytes20())
    }

    /// Returns the all-zero authentication token for implicit ACL matching.
    pub fn anonymous() -> (t: AuthToken)
        ensures
            t@ == Seq::new(20, |i: int| 0u8),
    {
        let t = AuthToken([0u8; 20]);
        assert(t@ =~= Seq::new(20, |i: int| 0u8));
        t
    }

    /// The hash a token is known by in access lists: the digest of its BCS encoding, the 20
    /// bytes as a byte string.
    pub fn bcs_hash(&self) -> (h: crate::crypt::hash::Hash)
        ensures
            h@ == crate::crypt::hash::spec_digest(crate::bytes::framed(self@)),
    {
        let mut v: Vec<u8> = Vec::new();
        crate::bytes::push_framed(&mut v, self.0.as_slice());
        crate::crypt::hash::Hash::digest(v.as_slice())
    }

    /// The 20 bytes of the token.
    pub fn to_bytes(&self) -> (b: [u8; 20])
        ensures
            b@ == self@,
    {
        self.0
    }
}

/// A device's signed medium-term Diffie-Hellman key.
#[derive(Clone, Copy, Debug)]
pub struct SignedMediumPk {
    pub medium_pk: DhPublic,
    pub created: Timestamp,
    pub signature: Signature,
}

/// The bytes a medium-term key's signature covers: the BCS encoding of the key and its
/// creation time.
pub open spec fn medium_pk_signed_value(m: SignedMediumPk) -> Seq<u8> {
    crate::bytes::framed(m.medium_pk@) + spec_u64_to_le_bytes(m.created.0)
}

impl SignedMediumPk {
    /// The bytes covered by the signature.
    pub fn signed_value(&self) -> (v: Vec<u8>)
        ensures
            v@ == medium_pk_signed_value(*self),
    {
        let mut v: Vec<u8> = Vec::new();
        crate::bytes::push_framed32(&mut v, &self.medium_pk.0);
        crate::bytes::push_u64_le(&mut v, self.created.0);
        assert(v@ =~= medium_pk_signed_value(*self));
        v
    }

    /// Checks the signature against a device key.
    pub fn verify(&self, pk: &SigningPublic) -> (ok: bool)
        ensures
            ok == spec_verify(pk@, medium_pk_signed_value(*self), self.signature@),
    {
        let v = self.signed_value();
        pk.verify(v.as_slice(), &self.signature)
    }

    /// Signs the key in place.
    pub fn sign(&mut self, sk: &SigningSecret)
        ensures
            final(self).medium_pk == old(self).medium_pk,
            final(self).created == old(self).created,
            final(self).signature@ == ed25519_sign(sk@, medium_pk_signed_value(*old(self))),
    {
        let v = self.signed_value();
        self.signature = sk.sign(v.as_slice());
    }
}

/// Arguments for receiving messages from a single mailbox.
#[derive(Clone, Copy, Debug)]
pub struct MailboxRecvArgs {
    pub auth: AuthToken,
    pub mailbox: MailboxId,
    pub after: NanoTimestamp,
}

/// An entry stored in a mailbox, with metadata added by the server.
#[derive(Clone, Debug)]
pub struct MailboxEntry {
    pub message: Blob,
    pub received_at: NanoTimestamp,
    pub sender_auth_token_hash: Option<crate::crypt::hash::Hash>,
}

/// An ACL for a mailbox.
#[derive(Clone, Copy, Debug)]
pub struct MailboxAcl {
    pub token_hash: crate::crypt::hash::Hash,
    pub can_edit_acl: bool,
    pub can_send: bool,
    pub can_recv: bool,
}

/// An error from the server.
#[derive(Clone, Copy, Debug, PartialEq, Eq, Structural)]
pub enum ServerRpcError {
    AccessDenied,
    RetryLater,
}

/// An error proxying to another server.
#[derive(Clone, Debug)]
pub enum ProxyError {
    NotSupported,
    Upstream(String),
}

} // verus!
