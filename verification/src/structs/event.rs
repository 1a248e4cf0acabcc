use vstd::prelude::*;

use crate::structs::group::GroupId;
use crate::structs::timestamp::NanoTimestamp;
use crate::structs::username::UserName;

verus! {

/// The intended recipient of an event payload.
#[derive(Clone, Debug)]
pub enum Recipient {
    User(UserName),
    Group(GroupId),
}

impl From<UserName> for Recipient {
    fn from(value: UserName) -> (r: Recipient) {
        Recipient::User(value)
    }
}

impl vstd::std_specs::convert::FromSpecImpl<UserName> for Recipient {
    open spec fn obeys_from_spec() -> bool {
        true
    }

    open spec fn from_spec(v: UserName) -> Recipient {
        Recipient::User(v)
    }
}

impl From<GroupId> for Recipient {
    fn from(value: GroupId) -> (r: Recipient) {
        Recipient::Group(value)
    }
}

impl vstd::std_specs::convert::FromSpecImpl<GroupId> for Recipient {
    open spec fn obeys_from_spec() -> bool {
        true
    }

    open spec fn from_spec(v: GroupId) -> Recipient {
        Recipient::Group(v)
    }
}

/// A decoded event payload.
#[derive(Clone, Debug)]
pub struct Event {
    pub recipient: Recipient,
    pub sent_at: NanoTimestamp,
    pub mime: String,
    pub body: Vec<u8>,
}

/// A structured event payload with a mime.
pub trait EventPayload {
    /// The mime of the payload type.
    spec fn spec_mime() -> Seq<char>;

    /// The mime of the payload type.
    fn mime() -> (m: &'static str)
        ensures
            m@ == Self::spec_mime(),
    ;
}

/// Errors returned by event payload helpers.
#[derive(Clone, Debug)]
pub enum EventPayloadError {
    /// The event carries a payload of another mime, given here.
    UnexpectedMime(String),
    /// The body is not a valid encoding of the payload.
    Decode,
}

impl Event {
    /// Checks that the event carries a payload of type `T`, by its mime; the body can then be
    /// decoded as `T`.
    pub fn check_payload_mime<T: EventPayload>(&self) -> (r: Result<(), EventPayloadError>)
        ensures
            r is Ok <==> self.mime@ == T::spec_mime(),
            r matches Err(e) ==> e matches EventPayloadError::UnexpectedMime(m) && m@ == self.mime@,
    {
        if crate::bytes::str_eq(self.mime.as_str(), T::mime()) {
            Ok(())
        } else {
            Err(EventPayloadError::UnexpectedMime(self.mime.clone()))
        }
    }

    /// An event carrying `body`, the encoding of a payload of type `T`, with the mime of `T`.
    pub fn from_payload_body<T: EventPayload>(
        recipient: Recipient,
        sent_at: NanoTimestamp,
        body: Vec<u8>,
    ) -> (e: Event)
        ensures
            e.recipient == recipient,
            e.sent_at == sent_at,
            e.mime@ == T::spec_mime(),
            e.body@ == body@,
    {
        Event { recipient, sent_at, mime: T::mime().to_owned(), body }
    }
}

} // verus!
