use vstd::prelude::*;

use crate::structs::certificate::{chain_verdict, device_hash, CertificateChain};
use crate::structs::server::SignedMediumPk;
use crate::structs::timestamp::{unix_time, Timestamp};

verus! {

/// How long, in seconds, cached information about a user stays fresh.
pub const USER_CACHE_TTL_SECONDS: i64 = 60;

/// Whether information fetched at `fetched_at` is still fresh at `now`, both in seconds.
pub open spec fn spec_is_fresh(now: int, fetched_at: int) -> bool {
    now - fetched_at <= USER_CACHE_TTL_SECONDS
}

/// Whether information fetched at `fetched_at` is still fresh at `now`. The difference is taken
/// without overflow, so a time far in the past is stale and one far in the future is fresh.
pub fn is_fresh_at(now: i64, fetched_at: i64) -> (r: bool)
    ensures
        r == spec_is_fresh(now as int, fetched_at as int),
{
    let elapsed: i128 = now as i128 - fetched_at as i128;
    elapsed <= USER_CACHE_TTL_SECONDS as i128
}

/// The current time in whole seconds since the UNIX epoch, as a signed number; a time past
/// what one can hold reads as the largest.
pub fn now_seconds() -> (r: i64)
    ensures
        r >= 0,
{
    let t = unix_time();
    if t.0 > i64::MAX as u64 {
        i64::MAX
    } else {
        t.0 as i64
    }
}

/// Whether information fetched at `fetched_at` is still fresh now.
pub fn is_fresh(fetched_at: i64) -> (r: bool)
    ensures
        exists|now: i64| now >= 0 && r == spec_is_fresh(now as int, fetched_at as int),
{
    let now = now_seconds();
    is_fresh_at(now, fetched_at)
}

/// The medium-term keys of a list of device entries, as a map from device hash to key; a later
/// entry for the same device replaces an earlier one.
pub open spec fn pk_map(v: Seq<(crate::crypt::hash::Hash, SignedMediumPk)>) -> Map<
    Seq<u8>,
    SignedMediumPk,
>
    decreases v.len(),
{
    if v.len() == 0 {
        Map::empty()
    } else {
        pk_map(v.drop_last()).insert(v.last().0@, v.last().1)
    }
}

/// No device occurs twice.
pub open spec fn keys_unique(v: Seq<(crate::crypt::hash::Hash, SignedMediumPk)>) -> bool {
    forall|i: int, j: int| 0 <= i < j < v.len() ==> #[trigger] v[i].0@ != #[trigger] v[j].0@
}

/// Takes in the key `pk` fetched for device `h`, unless it is older than the key already held.
pub open spec fn merge_step(
    m: Map<Seq<u8>, SignedMediumPk>,
    h: Seq<u8>,
    pk: SignedMediumPk,
) -> Map<Seq<u8>, SignedMediumPk> {
    if m.contains_key(h) && pk.created.0 < m[h].created.0 {
        m
    } else {
        m.insert(h, pk)
    }
}

/// Takes in each fetched key in turn.
pub open spec fn merge_all(
    m: Map<Seq<u8>, SignedMediumPk>,
    fetched: Seq<(crate::crypt::hash::Hash, SignedMediumPk)>,
) -> Map<Seq<u8>, SignedMediumPk>
    decreases fetched.len(),
{
    if fetched.len() == 0 {
        m
    } else {
        merge_step(merge_all(m, fetched.drop_last()), fetched.last().0@, fetched.last().1)
    }
}

/// In a list where no device occurs twice, each entry's key is what the map holds for it.
pub proof fn lemma_pk_map_lookup(v: Seq<(crate::crypt::hash::Hash, SignedMediumPk)>, j: int)
    requires
        keys_unique(v),
        0 <= j < v.len(),
    ensures
        pk_map(v).contains_key(v[j].0@),
        pk_map(v)[v[j].0@] == v[j].1,
    decreases v.len(),
{
    if j < v.len() - 1 {
        lemma_pk_map_lookup(v.drop_last(), j);
        assert(v[j].0@ != v[v.len() - 1].0@);
    }
}

/// A device with no entry in the list has no key in the map.
pub proof fn lemma_pk_map_absent(v: Seq<(crate::crypt::hash::Hash, SignedMediumPk)>, h: Seq<u8>)
    requires
        forall|j: int| 0 <= j < v.len() ==> #[trigger] v[j].0@ != h,
    ensures
        !pk_map(v).contains_key(h),
    decreases v.len(),
{
    if v.len() > 0 {
        lemma_pk_map_absent(v.drop_last(), h);
        assert(v[v.len() - 1].0@ != h);
    }
}

proof fn lemma_pk_map_update(
    v: Seq<(crate::crypt::hash::Hash, SignedMediumPk)>,
    j: int,
    p: (crate::crypt::hash::Hash, SignedMediumPk),
)
    requires
        keys_unique(v),
        0 <= j < v.len(),
        v[j].0@ == p.0@,
    ensures
        pk_map(v.update(j, p)) == pk_map(v).insert(p.0@, p.1),
    decreases v.len(),
{
    let w = v.update(j, p);
    if j == v.len() - 1 {
        assert(w.drop_last() =~= v.drop_last());
        assert(pk_map(w) =~= pk_map(v).insert(p.0@, p.1));
    } else {
        assert(w.drop_last() =~= v.drop_last().update(j, p));
        lemma_pk_map_update(v.drop_last(), j, p);
        assert(v[j].0@ != v[v.len() - 1].0@);
        assert(pk_map(w) =~= pk_map(v).insert(p.0@, p.1));
    }
}

/// Medium-term keys never go back in time: merging fetched keys into cached ones keeps every
/// cached device, and each device's key is at least as recent as the cached one.
pub proof fn lemma_merge_monotonic(
    m: Map<Seq<u8>, SignedMediumPk>,
    fetched: Seq<(crate::crypt::hash::Hash, SignedMediumPk)>,
)
    ensures
        forall|k: Seq<u8>|
            #[trigger] m.contains_key(k) ==> merge_all(m, fetched).contains_key(k) && merge_all(
                m,
                fetched,
            )[k].created.0 >= m[k].created.0,
    decreases fetched.len(),
{
    if fetched.len() > 0 {
        lemma_merge_monotonic(m, fetched.drop_last());
    }
}

/// Every fetched device is present after merging, with the fetched key or a more recent one.
pub proof fn lemma_merge_covers_fetched(
    m: Map<Seq<u8>, SignedMediumPk>,
    fetched: Seq<(crate::crypt::hash::Hash, SignedMediumPk)>,
    i: int,
)
    requires
        0 <= i < fetched.len(),
    ensures
        merge_all(m, fetched).contains_key(fetched[i].0@),
        merge_all(m, fetched)[fetched[i].0@].created.0 >= fetched[i].1.created.0,
    decreases fetched.len(),
{
    let last = fetched.len() - 1;
    if i < last {
        lemma_merge_covers_fetched(m, fetched.drop_last(), i);
        let prev = merge_all(m, fetched.drop_last());
        lemma_merge_monotonic(prev, seq![fetched[last]]);
        assert(merge_all(prev, seq![fetched[last]]) == merge_step(
            merge_all(prev, Seq::empty()),
            fetched[last].0@,
            fetched[last].1,
        )) by {
            assert(seq![fetched[last]].drop_last() =~= Seq::<
                (crate::crypt::hash::Hash, SignedMediumPk),
            >::empty());
        }
    }
}

/// Merges freshly fetched medium-term keys into the cached ones: a fetched key replaces the
/// cached key of its device unless it was created earlier, and keys of new devices are added.
pub fn merge_monotonic_medium_pks(
    cached: Vec<(crate::crypt::hash::Hash, SignedMediumPk)>,
    fetched: &Vec<(crate::crypt::hash::Hash, SignedMediumPk)>,
) -> (r: Vec<(crate::crypt::hash::Hash, SignedMediumPk)>)
    requires
        keys_unique(cached@),
    ensures
        keys_unique(r@),
        pk_map(r@) == merge_all(pk_map(cached@), fetched@),
{
    let mut out = cached;
    let mut i: usize = 0;
    while i < fetched.len()
        invariant
            0 <= i <= fetched@.len(),
            keys_unique(out@),
            pk_map(out@) == merge_all(pk_map(cached@), fetched@.subrange(0, i as int)),
        decreases fetched@.len() - i,
    {
        let (h, pk) = fetched[i];
        let ghost before = out@;
        proof {
            assert(fetched@.subrange(0, i as int + 1).drop_last() =~= fetched@.subrange(
                0,
                i as int,
            ));
        }
        let mut j: usize = 0;
        while j < out.len()
            invariant
                0 <= j <= out@.len(),
                out@ == before,
                forall|k: int| 0 <= k < j ==> #[trigger] out@[k].0@ != h@,
            ensures
                j < out@.len() ==> out@[j as int].0@ == h@,
            decreases out@.len() - j,
        {
            if out[j].0 == h {
                break;
            }
            j = j + 1;
        }
        if j < out.len() {
            proof {
                lemma_pk_map_lookup(before, j as int);
            }
            if !(pk.created.0 < out[j].1.created.0) {
                out.set(j, (h, pk));
                proof {
                    lemma_pk_map_update(before, j as int, (h, pk));
                    assert forall|a: int, b: int| 0 <= a < b < out@.len() implies #[trigger] out@[a].0@
                        != #[trigger] out@[b].0@ by {
                        assert(before[a].0@ != before[b].0@);
                    }
                }
            }
        } else {
            proof {
                lemma_pk_map_absent(before, h@);
            }
            out.push((h, pk));
            proof {
                assert(out@.drop_last() =~= before);
                assert forall|a: int, b: int| 0 <= a < b < out@.len() implies #[trigger] out@[a].0@
                    != #[trigger] out@[b].0@ by {
                    if b < before.len() {
                        assert(before[a].0@ != before[b].0@);
                    }
                }
            }
        }
        i = i + 1;
    }
    proof {
        assert(fetched@.subrange(0, fetched@.len() as int) =~= fetched@);
    }
    out
}

/// Why no device of a user can be used.
#[derive(Clone, Copy, Debug, PartialEq, Eq, Structural)]
pub enum UserInfoError {
    /// None of the user's certificate chains verifies for the device it is listed under.
    NoValidChains,
}

/// Whether a device entry is usable: its chain verifies against the user's root at time
/// `now`, and it is listed under the hash of the device the chain authenticates.
pub open spec fn chain_accepted(
    entry: (crate::crypt::hash::Hash, CertificateChain),
    root: Seq<u8>,
    now: u64,
) -> bool {
    &&& chain_verdict(entry.1.certs(), entry.1.this, root, now) is Ok
    &&& device_hash(entry.1.this.pk@) == entry.0@
}

/// The usable device entries among `chains`, in their order.
pub open spec fn accepted_chains(
    chains: Seq<(crate::crypt::hash::Hash, CertificateChain)>,
    root: Seq<u8>,
    now: u64,
) -> Seq<(crate::crypt::hash::Hash, CertificateChain)>
    decreases chains.len(),
{
    if chains.len() == 0 {
        Seq::empty()
    } else {
        let kept = accepted_chains(chains.drop_last(), root, now);
        if chain_accepted(chains.last(), root, now) {
            kept.push(chains.last())
        } else {
            kept
        }
    }
}

/// Every device entry is judged on its own: the usable entries of two lists one after the
/// other are those of the first followed by those of the second, and a single entry is kept
/// exactly when it is usable.
pub proof fn lemma_accepted_chains_concat(
    a: Seq<(crate::crypt::hash::Hash, CertificateChain)>,
    b: Seq<(crate::crypt::hash::Hash, CertificateChain)>,
    root: Seq<u8>,
    now: u64,
)
    ensures
        accepted_chains(a + b, root, now) == accepted_chains(a, root, now) + accepted_chains(
            b,
            root,
            now,
        ),
        b.len() == 1 ==> accepted_chains(b, root, now) == if chain_accepted(b[0], root, now) {
            b
        } else {
            Seq::empty()
        },
    decreases b.len(),
{
    if b.len() == 0 {
        assert(a + b =~= a);
        assert(accepted_chains(a, root, now) + Seq::empty() =~= accepted_chains(a, root, now));
    } else {
        lemma_accepted_chains_concat(a, b.drop_last(), root, now);
        assert((a + b).drop_last() =~= a + b.drop_last());
        assert((a + b).last() == b.last());
        if chain_accepted(b.last(), root, now) {
            assert(accepted_chains(a, root, now) + accepted_chains(b.drop_last(), root, now).push(
                b.last(),
            ) =~= (accepted_chains(a, root, now) + accepted_chains(b.drop_last(), root, now)).push(
                b.last(),
            ));
        }
        if b.len() == 1 {
            assert(b.drop_last() =~= Seq::<(crate::crypt::hash::Hash, CertificateChain)>::empty());
            assert(accepted_chains(b.drop_last(), root, now) == Seq::<(crate::crypt::hash::Hash, CertificateChain)>::empty());
            if chain_accepted(b.last(), root, now) {
                assert(Seq::<(crate::crypt::hash::Hash, CertificateChain)>::empty().push(b.last()) =~= b);
            }
        }
    }
}

/// Keeps the device entries whose chain verifies against the user's root certificate hash at
/// time `now` and authenticates the device it is listed under; fails where none is left.
pub fn valid_device_chains_at(
    chains: Vec<(crate::crypt::hash::Hash, CertificateChain)>,
    root: crate::crypt::hash::Hash,
    now: Timestamp,
) -> (r: Result<Vec<(crate::crypt::hash::Hash, CertificateChain)>, UserInfoError>)
    ensures
        match r {
            Ok(v) => v@ == accepted_chains(chains@, root@, now.0) && v@.len() > 0,
            Err(_) => accepted_chains(chains@, root@, now.0).len() == 0,
        },
{
    let ghost all = chains@;
    let n = chains.len();
    let mut rest = chains;
    let mut out: Vec<(crate::crypt::hash::Hash, CertificateChain)> = Vec::new();
    let mut i: usize = 0;
    while rest.len() > 0
        invariant
            0 <= i <= all.len(),
            all.len() == n,
            rest@ == all.subrange(i as int, all.len() as int),
            out@ == accepted_chains(all.subrange(0, i as int), root@, now.0),
        decreases rest@.len(),
    {
        let entry = rest.remove(0);
        proof {
            assert(all.subrange(0, i as int + 1).drop_last() =~= all.subrange(0, i as int));
            assert(rest@ =~= all.subrange(i as int + 1, all.len() as int));
        }
        let verdict = entry.1.verify_at(root, now);
        let h = entry.1.last_device().pk.bcs_hash();
        let keep = verdict.is_ok() && h == entry.0;
        proof {
            assert(entry == all[i as int]);
            assert(all.subrange(0, i as int + 1).last() == entry);
            assert(verdict == chain_verdict(entry.1.certs(), entry.1.this, root@, now.0));
            assert(h@ == device_hash(entry.1.this.pk@));
            assert(keep == (verdict is Ok && h@ == entry.0@));
            assert(keep == chain_accepted(entry, root@, now.0));
        }
        proof {
            let prev = all.subrange(0, i as int);
            let next = all.subrange(0, i as int + 1);
            assert(next.drop_last() =~= prev);
            assert(accepted_chains(next, root@, now.0) == if keep {
                accepted_chains(prev, root@, now.0).push(entry)
            } else {
                accepted_chains(prev, root@, now.0)
            });
        }
        if keep {
            out.push(entry);
        }
        i = i + 1;
    }
    proof {
        assert(all.subrange(0, all.len() as int) =~= all);
    }
    if out.len() == 0 {
        Err(UserInfoError::NoValidChains)
    } else {
        Ok(out)
    }
}

/// Keeps the device entries whose chain verifies now against the user's root certificate hash
/// and authenticates the device it is listed under; fails where none is left. The clock is read
/// once.
pub fn valid_device_chains(
    chains: Vec<(crate::crypt::hash::Hash, CertificateChain)>,
    root: crate::crypt::hash::Hash,
) -> (r: Result<Vec<(crate::crypt::hash::Hash, CertificateChain)>, UserInfoError>)
    ensures
        exists|now: u64|
            match r {
                Ok(v) => v@ == accepted_chains(chains@, root@, now) && v@.len() > 0,
                Err(_) => accepted_chains(chains@, root@, now).len() == 0,
            },
{
    let now = unix_time();
    valid_device_chains_at(chains, root, now)
}

} // verus!
