//! Connection pooling for RPC transports: how many transports a server gets, which one serves
//! each call, and which are dropped after a failure.

use vstd::prelude::*;

verus! {

/// Settings for a pool of RPC transports.
#[derive(Clone, Copy, Debug)]
pub struct RpcPoolBuilder {
    pub max_concurrency: usize,
}

impl RpcPoolBuilder {
    /// Settings with one transport per server.
    pub fn new() -> (b: RpcPoolBuilder)
        ensures
            b.max_concurrency == 1,
    {
        RpcPoolBuilder { max_concurrency: 1 }
    }

    /// The same settings with `max_concurrency` transports per server.
    pub fn max_concurrency(self, max_concurrency: usize) -> (b: RpcPoolBuilder)
        ensures
            b.max_concurrency == max_concurrency,
    {
        let mut b = self;
        b.max_concurrency = max_concurrency;
        b
    }

    /// The transport table for one server under these settings, which need at least one
    /// transport.
    pub fn build_slots(&self) -> (s: TransportSlots)
        requires
            self.max_concurrency > 0,
        ensures
            s.max_concurrency() == self.max_concurrency,
            s.next_index() == 0,
            s.slots() == Seq::<Option<u64>>::empty(),
            s.wf(),
    {
        TransportSlots::new(self.max_concurrency)
    }
}

impl Default for RpcPoolBuilder {
    fn default() -> (b: RpcPoolBuilder)
        ensures
            b.max_concurrency == 1,
    {
        RpcPoolBuilder::new()
    }
}

/// The transports of one server, by slot: each holds the identifier of a live transport or
/// nothing. Calls go to the slots in turn.
pub struct TransportSlots {
    max_concurrency: usize,
    next_index: usize,
    slots: Vec<Option<u64>>,
}

impl TransportSlots {
    /// The number of slots calls are spread over.
    pub closed spec fn max_concurrency(&self) -> usize {
        self.max_concurrency
    }

    /// The counter that picks the slot of the next call.
    pub closed spec fn next_index(&self) -> usize {
        self.next_index
    }

    /// What each slot holds.
    pub closed spec fn slots(&self) -> Seq<Option<u64>> {
        self.slots@
    }

    /// The table's invariant: at least one slot is in use, and a server never holds more
    /// transports than `max_concurrency`.
    pub open spec fn wf(&self) -> bool {
        &&& self.max_concurrency() > 0
        &&& self.slots().len() <= self.max_concurrency()
    }

    /// An empty table over `max_concurrency` slots.
    pub fn new(max_concurrency: usize) -> (s: TransportSlots)
        requires
            max_concurrency > 0,
        ensures
            s.max_concurrency() == max_concurrency,
            s.next_index() == 0,
            s.slots() == Seq::<Option<u64>>::empty(),
            s.wf(),
    {
        TransportSlots { max_concurrency, next_index: 0, slots: Vec::new() }
    }

    /// Picks the slot for the next call: the counter modulo the number of slots, advancing the
    /// counter, which wraps around.
    pub fn next_slot(&mut self) -> (index: usize)
        requires
            old(self).wf(),
        ensures
            final(self).wf(),
            index == old(self).next_index() % old(self).max_concurrency(),
            index < old(self).max_concurrency(),
            final(self).next_index() == (if old(self).next_index() == usize::MAX {
                0
            } else {
                old(self).next_index() + 1
            }),
            final(self).max_concurrency() == old(self).max_concurrency(),
            final(self).slots() == old(self).slots(),
    {
        let index = self.next_index % self.max_concurrency;
        self.next_index = self.next_index.wrapping_add(1);
        index
    }

    /// The transport in slot `index`, if any.
    pub fn get(&self, index: usize) -> (r: Option<u64>)
        ensures
            r == (if index < self.slots().len() {
                self.slots()[index as int]
            } else {
                None
            }),
    {
        if index < self.slots.len() {
            self.slots[index]
        } else {
            None
        }
    }

    /// The transport in slot `index`, or, where the slot is empty, `fresh` put there; answers
    /// the transport to use and whether it is the fresh one. Missing slots up to `index` are
    /// added empty; `index` is one of the table's slots, so the table stays within
    /// `max_concurrency` transports.
    pub fn get_or_insert(&mut self, index: usize, fresh: u64) -> (r: (u64, bool))
        requires
            old(self).wf(),
            index < old(self).max_concurrency(),
        ensures
            final(self).wf(),
            final(self).max_concurrency() == old(self).max_concurrency(),
            final(self).next_index() == old(self).next_index(),
            final(self).slots().len() == (if index < old(self).slots().len() {
                old(self).slots().len() as int
            } else {
                index + 1
            }),
            final(self).slots()[index as int] == Some(r.0),
            r.1 == !(index < old(self).slots().len() && old(self).slots()[index as int] is Some),
            r.1 ==> r.0 == fresh,
            !r.1 ==> old(self).slots()[index as int] == Some(r.0),
            forall|j: int|
                0 <= j < final(self).slots().len() && j != index ==> #[trigger] final(self).slots()[j]
                    == (if j < old(self).slots().len() {
                    old(self).slots()[j]
                } else {
                    None
                }),
    {
        while self.slots.len() <= index
            invariant
                self.max_concurrency == old(self).max_concurrency,
                self.next_index == old(self).next_index,
                old(self).slots@.len() <= self.slots@.len(),
                old(self).slots@.len() > index ==> self.slots@.len() == old(self).slots@.len(),
                old(self).slots@.len() <= index ==> self.slots@.len() <= index + 1,
                forall|j: int|
                    0 <= j < self.slots@.len() ==> #[trigger] self.slots@[j] == (if j < old(
                        self,
                    ).slots@.len() {
                        old(self).slots@[j]
                    } else {
                        None
                    }),
            decreases index + 1 - self.slots@.len(),
        {
            self.slots.push(None);
        }
        match self.slots[index] {
            Some(existing) => (existing, false),
            None => {
                self.slots.set(index, Some(fresh));
                (fresh, true)
            },
        }
    }

    /// Empties every slot that holds transport `id`, after a call over it failed.
    pub fn drop_transport(&mut self, id: u64)
        requires
            old(self).wf(),
        ensures
            final(self).wf(),
            final(self).max_concurrency() == old(self).max_concurrency(),
            final(self).next_index() == old(self).next_index(),
            final(self).slots().len() == old(self).slots().len(),
            forall|j: int|
                0 <= j < old(self).slots().len() ==> #[trigger] final(self).slots()[j] == (if old(
                    self,
                ).slots()[j] == Some(id) {
                    None
                } else {
                    old(self).slots()[j]
                }),
    {
        let mut i: usize = 0;
        while i < self.slots.len()
            invariant
                self.max_concurrency == old(self).max_concurrency,
                self.next_index == old(self).next_index,
                self.slots@.len() == old(self).slots@.len(),
                0 <= i <= self.slots@.len(),
                forall|j: int|
                    0 <= j < self.slots@.len() ==> #[trigger] self.slots@[j] == (if j < i
                        && old(self).slots@[j] == Some(id) {
                        None
                    } else {
                        old(self).slots@[j]
                    }),
            decreases self.slots@.len() - i,
        {
            if self.slots[i] == Some(id) {
                self.slots.set(i, None);
            }
            i = i + 1;
        }
    }
}

/// Calls go round the slots: the slot picked is always one of the pool's slots, and the next
/// call picks the following slot, wrapping after the last.
pub proof fn lemma_round_robin(next_index: usize, max_concurrency: usize)
    requires
        max_concurrency > 0,
        next_index < usize::MAX,
    ensures
        next_index % max_concurrency < max_concurrency,
        (next_index + 1) % (max_concurrency as int) == (if next_index % max_concurrency + 1
            == max_concurrency {
            0
        } else {
            next_index % max_concurrency + 1
        }),
{
    let m = max_concurrency as int;
    let n = next_index as int;
    assert((n + 1) % m == (if n % m + 1 == m { 0 } else { n % m + 1 })) by (nonlinear_arith)
        requires
            m > 0,
            n >= 0,
    {
        vstd::arithmetic::div_mod::lemma_fundamental_div_mod(n, m);
        vstd::arithmetic::div_mod::lemma_fundamental_div_mod(n + 1, m);
        vstd::arithmetic::div_mod::lemma_mod_bound(n, m);
        vstd::arithmetic::div_mod::lemma_mod_bound(n + 1, m);
    }
}

/// How an RPC endpoint is spoken to, by the scheme of its URL.
#[derive(Clone, Copy, Debug, PartialEq, Eq, Structural)]
pub enum TransportKind {
    /// JSON over HTTP or HTTPS.
    Http,
    /// Framed JSON over TCP.
    Tcp,
    /// Framed JSON over TCP, compressed with LZ4.
    Lz4Tcp,
}

/// The transport for an endpoint scheme, or nothing for a scheme no transport speaks.
pub fn transport_kind(scheme: &str) -> (r: Option<TransportKind>)
    ensures
        r == (if scheme@ == "http"@ || scheme@ == "https"@ {
            Some(TransportKind::Http)
        } else if scheme@ == "tcp"@ {
            Some(TransportKind::Tcp)
        } else if scheme@ == "lz4tcp"@ {
            Some(TransportKind::Lz4Tcp)
        } else {
            None
        }),
{
    if crate::bytes::str_eq(scheme, "http") || crate::bytes::str_eq(scheme, "https") {
        Some(TransportKind::Http)
    } else if crate::bytes::str_eq(scheme, "tcp") {
        Some(TransportKind::Tcp)
    } else if crate::bytes::str_eq(scheme, "lz4tcp") {
        Some(TransportKind::Lz4Tcp)
    } else {
        None
    }
}

} // verus!
