//! The peers a user has opened direct conversations with, kept sorted by name and without
//! repeats, as the conversation list shows them.

use vstd::prelude::*;

use crate::client::roster::{lemma_name_lt_asym, lemma_name_lt_total, lemma_name_lt_trans, name_less, name_lt};
use crate::structs::username::is_valid_username;

verus! {

/// Whether the names are in strictly increasing order.
pub open spec fn strictly_sorted(names: Seq<Seq<char>>) -> bool {
    forall|i: int, j: int| 0 <= i < j < names.len() ==> name_lt(#[trigger] names[i], #[trigger] names[j])
}

/// The peers of the conversation list, sorted by name, each once.
#[derive(Debug)]
pub struct PeerList {
    names: Vec<String>,
}

/// Why a peer could not be opened.
#[derive(Clone, Copy, Debug, PartialEq, Eq, Structural)]
pub enum PeerInputError {
    /// The text is not a valid username.
    InvalidHandle,
}

impl View for PeerList {
    type V = Seq<Seq<char>>;

    closed spec fn view(&self) -> Seq<Seq<char>> {
        self.names@.map_values(|s: String| s@)
    }
}

impl PeerList {
    /// The list's invariant: strictly sorted, hence without repeats.
    pub open spec fn wf(&self) -> bool {
        strictly_sorted(self@)
    }

    /// No peers.
    pub fn new() -> (l: PeerList)
        ensures
            l@ == Seq::<Seq<char>>::empty(),
            l.wf(),
    {
        let l = PeerList { names: Vec::new() };
        assert(l@ =~= Seq::<Seq<char>>::empty());
        l
    }

    /// The number of peers.
    pub fn len(&self) -> (n: usize)
        ensures
            n == self@.len(),
    {
        self.names.len()
    }

    /// The name of the `i`-th peer in order.
    pub fn get(&self, i: usize) -> (s: &str)
        requires
            i < self@.len(),
        ensures
            s@ == self@[i as int],
    {
        self.names[i].as_str()
    }

    /// Adds a peer in its place by name; answers whether it was new. A peer already listed
    /// leaves the list as it was.
    pub fn insert(&mut self, name: &str) -> (added: bool)
        requires
            old(self).wf(),
        ensures
            final(self).wf(),
            added == !old(self)@.contains(name@),
            final(self)@.to_set() == old(self)@.to_set().insert(name@),
            !added ==> final(self)@ == old(self)@,
    {
        let ghost v = self@;
        let mut i: usize = 0;
        while i < self.names.len() && name_less(self.names[i].as_str(), name)
            invariant
                self@ == v,
                strictly_sorted(v),
                0 <= i <= v.len(),
                forall|j: int| 0 <= j < i ==> name_lt(#[trigger] v[j], name@),
            decreases v.len() - i,
        {
            proof {
                assert(v[i as int] == self.names@[i as int]@);
            }
            i = i + 1;
        }
        if i < self.names.len() && crate::bytes::str_eq(self.names[i].as_str(), name) {
            proof {
                assert(v[i as int] == name@);
                assert(v.contains(name@));
                assert(v.to_set().insert(name@) =~= v.to_set());
            }
            return false;
        }
        proof {
            if i < v.len() {
                assert(v[i as int] == self.names@[i as int]@);
                lemma_name_lt_total(v[i as int], name@);
            }
            assert forall|j: int| i <= j < v.len() implies name_lt(name@, #[trigger] v[j]) by {
                if j > i {
                    lemma_name_lt_trans(name@, v[i as int], v[j]);
                }
            }
            assert forall|j: int| 0 <= j < v.len() implies v[j] != name@ by {
                if j < i {
                    lemma_name_lt_asym(v[j], name@);
                    if v[j] == name@ {
                        lemma_name_lt_asym(name@, name@);
                    }
                } else {
                    if v[j] == name@ {
                        lemma_name_lt_asym(name@, name@);
                    }
                }
            }
        }
        let s = name.to_owned();
        self.names.insert(i, s);
        proof {
            let w = self@;
            assert(w =~= v.insert(i as int, name@));
            assert forall|a: int, b: int| 0 <= a < b < w.len() implies name_lt(
                #[trigger] w[a],
                #[trigger] w[b],
            ) by {
                if b < i {
                } else if b == i {
                } else if a < i {
                    lemma_name_lt_trans(w[a], name@, w[b]);
                } else if a == i {
                } else {
                }
            }
            assert(w.to_set() =~= v.to_set().insert(name@)) by {
                assert forall|x: Seq<char>| w.to_set().contains(x) <==> v.to_set().insert(name@).contains(x) by {
                    if w.contains(x) {
                        let k = choose|k: int| 0 <= k < w.len() && w[k] == x;
                        if k < i {
                            assert(v[k] == x);
                        } else if k > i {
                            assert(v[k - 1] == x);
                        }
                    }
                    if v.contains(x) {
                        let k = choose|k: int| 0 <= k < v.len() && v[k] == x;
                        if k < i {
                            assert(w[k] == x);
                        } else {
                            assert(w[k + 1] == x);
                        }
                    }
                    if x == name@ {
                        assert(w[i as int] == x);
                    }
                }
            }
            assert(!v.contains(name@));
        }
        true
    }
}

/// Opens a conversation with the peer typed in: the text must be a valid username; it is added
/// to the list (where it is not there yet) and answered as the peer to select. Invalid text
/// leaves the list as it was.
pub fn open_peer(input: &str, peers: &mut PeerList) -> (r: Result<String, PeerInputError>)
    requires
        old(peers).wf(),
    ensures
        final(peers).wf(),
        r is Ok <==> is_valid_username(input@),
        r matches Ok(k) ==> k@ == input@ && final(peers)@.to_set() == old(peers)@.to_set().insert(
            input@,
        ),
        r is Err ==> final(peers)@ == old(peers)@ && r == Err::<String, PeerInputError>(
            PeerInputError::InvalidHandle,
        ),
{
    match crate::structs::username::UserName::parse(input) {
        Err(_) => Err(PeerInputError::InvalidHandle),
        Ok(peer) => {
            let key = peer.as_str();
            peers.insert(key);
            Ok(key.to_owned())
        },
    }
}

} // verus!
