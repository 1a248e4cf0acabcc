//! The rules behind the device command-line tool: certificate lifetimes, building chains,
//! where a user's server is reached, and how far a mailbox has been read.

use vstd::prelude::*;

use crate::structs::certificate::{CertificateChain, DeviceCertificate, DeviceSecret};
use crate::structs::server::{MailboxEntry, ServerDescriptor};
use crate::structs::timestamp::{unix_time, NanoTimestamp, Timestamp};

verus! {

/// The expiry of a certificate issued at `now` for `ttl` seconds, or one that never expires;
/// an expiry past the largest time stays there.
pub open spec fn expiry_spec(now: u64, ttl: Option<u64>) -> u64 {
    match ttl {
        Some(t) => if now + t > u64::MAX {
            u64::MAX
        } else {
            (now + t) as u64
        },
        None => u64::MAX,
    }
}

/// The expiry of a certificate issued at `now` for `ttl` seconds, or one that never expires.
pub fn expiry_from_ttl_at(now: Timestamp, ttl_secs: Option<u64>) -> (t: Timestamp)
    ensures
        t.0 == expiry_spec(now.0, ttl_secs),
{
    match ttl_secs {
        Some(ttl) => Timestamp(now.0.saturating_add(ttl)),
        None => Timestamp(u64::MAX),
    }
}

/// The expiry of a certificate issued now for `ttl` seconds, or one that never expires.
pub fn expiry_from_ttl(ttl_secs: Option<u64>) -> (t: Timestamp)
    ensures
        exists|now: u64| t.0 == expiry_spec(now, ttl_secs),
        ttl_secs is None ==> t.0 == u64::MAX,
{
    expiry_from_ttl_at(unix_time(), ttl_secs)
}

/// A chain of one self-signed root certificate, which may issue others unless it is a leaf.
pub fn chain_init(root_secret: &DeviceSecret, expiry: Timestamp, leaf: bool) -> (c: CertificateChain)
    ensures
        c.ancestors@.len() == 0,
        c.this.pk@ == crate::crypt::signing::ed25519_public(root_secret@),
        c.this.expiry == expiry,
        c.this.can_issue == !leaf,
        c.this.signature@ == crate::crypt::signing::ed25519_sign(
            root_secret@,
            crate::structs::certificate::signed_bytes_of(c.this),
        ),
{
    let cert = root_secret.self_signed(expiry, !leaf);
    CertificateChain { ancestors: Vec::new(), this: cert }
}

/// `chain` extended by a certificate `issuer_secret` issues for `subject_secret`'s device,
/// which may issue others unless it is a leaf; the new certificate is the last of the chain.
pub fn chain_issue(
    chain: CertificateChain,
    issuer_secret: &DeviceSecret,
    subject_secret: &DeviceSecret,
    expiry: Timestamp,
    leaf: bool,
) -> (c: CertificateChain)
    ensures
        c.certs().drop_last() == chain.certs(),
        c.this.pk@ == crate::crypt::signing::ed25519_public(subject_secret@),
        c.this.expiry == expiry,
        c.this.can_issue == !leaf,
        c.this.signature@ == crate::crypt::signing::ed25519_sign(
            issuer_secret@,
            crate::structs::certificate::signed_bytes_of(c.this),
        ),
{
    let cert: DeviceCertificate = issuer_secret.issue_certificate(
        &subject_secret.public(),
        expiry,
        !leaf,
    );
    let mut ancestors = chain.ancestors;
    ancestors.push(chain.this);
    let c = CertificateChain { ancestors, this: cert };
    assert(c.certs().drop_last() =~= chain.certs());
    c
}

/// The URL a server is reached at: the first it publishes, if any.
pub fn first_public_url(descriptor: &ServerDescriptor) -> (r: Option<String>)
    ensures
        r is Some <==> descriptor.public_urls@.len() > 0,
        r matches Some(u) ==> u@ == descriptor.public_urls@[0]@,
{
    if descriptor.public_urls.len() == 0 {
        None
    } else {
        Some(descriptor.public_urls[0].clone())
    }
}

/// How far a mailbox has been read after printing `entries`: the time of the last of them, or
/// `after` where there is none.
pub fn read_up_to(entries: &Vec<MailboxEntry>, after: NanoTimestamp) -> (r: NanoTimestamp)
    ensures
        r == (if entries@.len() == 0 {
            after
        } else {
            entries@.last().received_at
        }),
{
    if entries.len() == 0 {
        after
    } else {
        entries[entries.len() - 1].received_at
    }
}

} // verus!
