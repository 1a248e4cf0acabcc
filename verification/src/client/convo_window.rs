use vstd::prelude::*;

verus! {

/// How many messages a conversation view loads at first.
pub const INITIAL_LIMIT: u16 = 100;

/// How many messages a conversation view loads per page after that.
pub const PAGE_LIMIT: u16 = 100;

/// The smaller of an optional id and `id`.
pub open spec fn min_opt(cur: Option<i64>, id: i64) -> Option<i64> {
    match cur {
        Some(c) => Some(if id < c { id } else { c }),
        None => Some(id),
    }
}

/// The larger of an optional id and `id`.
pub open spec fn max_opt(cur: Option<i64>, id: i64) -> Option<i64> {
    match cur {
        Some(c) => Some(if id > c { id } else { c }),
        None => Some(id),
    }
}

/// The oldest id after a batch of messages, given by id and whether each was received.
pub open spec fn oldest_after(cur: Option<i64>, batch: Seq<(i64, bool)>) -> Option<i64>
    decreases batch.len(),
{
    if batch.len() == 0 {
        cur
    } else {
        min_opt(oldest_after(cur, batch.drop_last()), batch.last().0)
    }
}

/// The newest id of a received message after a batch of messages.
pub open spec fn latest_after(cur: Option<i64>, batch: Seq<(i64, bool)>) -> Option<i64>
    decreases batch.len(),
{
    if batch.len() == 0 {
        cur
    } else {
        let prev = latest_after(cur, batch.drop_last());
        if batch.last().1 {
            max_opt(prev, batch.last().0)
        } else {
            prev
        }
    }
}

/// What a conversation view knows of the messages it shows: the oldest id loaded, the newest
/// id of a received message, whether the first load happened and whether older pages ran out.
#[derive(Clone, Copy, Debug)]
pub struct ConvoWindow {
    pub oldest_id: Option<i64>,
    pub latest_received_id: Option<i64>,
    pub last_update_count_seen: u64,
    pub initialized: bool,
    pub no_more_older: bool,
}

impl Default for ConvoWindow {
    fn default() -> (w: ConvoWindow)
        ensures
            w.oldest_id is None,
            w.latest_received_id is None,
            w.last_update_count_seen == 0,
            !w.initialized,
            !w.no_more_older,
    {
        ConvoWindow {
            oldest_id: None,
            latest_received_id: None,
            last_update_count_seen: 0,
            initialized: false,
            no_more_older: false,
        }
    }
}

impl ConvoWindow {
    /// Takes in a batch of messages, by id and whether each was received: the oldest id and
    /// the newest received id move to cover them.
    pub fn apply_messages(&mut self, batch: &Vec<(i64, bool)>)
        ensures
            final(self).oldest_id == oldest_after(old(self).oldest_id, batch@),
            final(self).latest_received_id == latest_after(old(self).latest_received_id, batch@),
            final(self).last_update_count_seen == old(self).last_update_count_seen,
            final(self).initialized == old(self).initialized,
            final(self).no_more_older == old(self).no_more_older,
    {
        let ghost start = *self;
        let mut i: usize = 0;
        while i < batch.len()
            invariant
                0 <= i <= batch@.len(),
                self.oldest_id == oldest_after(start.oldest_id, batch@.subrange(0, i as int)),
                self.latest_received_id == latest_after(
                    start.latest_received_id,
                    batch@.subrange(0, i as int),
                ),
                self.last_update_count_seen == start.last_update_count_seen,
                self.initialized == start.initialized,
                self.no_more_older == start.no_more_older,
            decreases batch@.len() - i,
        {
            proof {
                assert(batch@.subrange(0, i as int + 1).drop_last() =~= batch@.subrange(0, i as int));
            }
            let (id, received) = batch[i];
            if received {
                self.latest_received_id = match self.latest_received_id {
                    Some(c) => Some(if id > c { id } else { c }),
                    None => Some(id),
                };
            }
            self.oldest_id = match self.oldest_id {
                Some(c) => Some(if id < c { id } else { c }),
                None => Some(id),
            };
            i = i + 1;
        }
        proof {
            assert(batch@.subrange(0, batch@.len() as int) =~= batch@);
        }
    }

    /// Takes in the first load of messages and marks the view loaded.
    pub fn load_initial(&mut self, batch: &Vec<(i64, bool)>)
        ensures
            final(self).oldest_id == oldest_after(old(self).oldest_id, batch@),
            final(self).latest_received_id == latest_after(old(self).latest_received_id, batch@),
            final(self).initialized,
            final(self).no_more_older == old(self).no_more_older,
    {
        self.apply_messages(batch);
        self.initialized = true;
    }

    /// The id after which newer messages are asked for: one past the newest received one, or
    /// from the start where there is none or it is the largest id.
    pub fn newer_after(&self) -> (r: i64)
        ensures
            r == match self.latest_received_id {
                Some(id) => if id < i64::MAX {
                    id + 1
                } else {
                    0
                },
                None => 0,
            },
    {
        match self.latest_received_id {
            Some(id) => match id.checked_add(1) {
                Some(n) => n,
                None => 0,
            },
            None => 0,
        }
    }

    /// Where the next page of newer messages starts after `batch`: one past its last id, or
    /// nothing where the batch is empty and the refresh is over.
    pub fn next_after(batch: &Vec<(i64, bool)>) -> (r: Option<i64>)
        requires
            batch@.len() > 0 ==> batch@.last().0 < i64::MAX,
        ensures
            batch@.len() == 0 ==> r is None,
            batch@.len() > 0 ==> r == Some((batch@.last().0 + 1) as i64),
    {
        if batch.len() == 0 {
            None
        } else {
            Some(batch[batch.len() - 1].0 + 1)
        }
    }

    /// The id before which older messages are asked for, or nothing where there are none to
    /// ask for; finding none marks the view so.
    pub fn older_before(&mut self) -> (r: Option<i64>)
        ensures
            old(self).no_more_older ==> r is None && *final(self) == *old(self),
            !old(self).no_more_older ==> match old(self).oldest_id {
                Some(id) => if id > i64::MIN {
                    r == Some((id - 1) as i64) && *final(self) == *old(self)
                } else {
                    r is None && final(self).no_more_older && final(self).oldest_id
                        == old(self).oldest_id && final(self).latest_received_id == old(
                        self,
                    ).latest_received_id
                },
                None => r is None && final(self).no_more_older && final(self).oldest_id is None
                    && final(self).latest_received_id == old(self).latest_received_id,
            },
            final(self).initialized == old(self).initialized,
            final(self).last_update_count_seen == old(self).last_update_count_seen,
    {
        if self.no_more_older {
            return None;
        }
        match self.oldest_id {
            None => {
                self.no_more_older = true;
                None
            },
            Some(id) => match id.checked_sub(1) {
                None => {
                    self.no_more_older = true;
                    None
                },
                Some(before) => Some(before),
            },
        }
    }

    /// Takes in a page of older messages: an empty page means there are no more.
    pub fn on_older_page(&mut self, batch: &Vec<(i64, bool)>)
        ensures
            batch@.len() == 0 ==> final(self).no_more_older && final(self).oldest_id == old(
                self,
            ).oldest_id && final(self).latest_received_id == old(self).latest_received_id,
            batch@.len() > 0 ==> final(self).oldest_id == oldest_after(old(self).oldest_id, batch@)
                && final(self).latest_received_id == latest_after(
                old(self).latest_received_id,
                batch@,
            ) && final(self).no_more_older == old(self).no_more_older,
    {
        if batch.len() == 0 {
            self.no_more_older = true;
        } else {
            self.apply_messages(batch);
        }
    }
}

/// The oldest id loaded is at most the id of every message taken in.
pub proof fn lemma_oldest_is_min(cur: Option<i64>, batch: Seq<(i64, bool)>, i: int)
    requires
        0 <= i < batch.len(),
    ensures
        oldest_after(cur, batch) matches Some(o) && o <= batch[i].0,
    decreases batch.len(),
{
    if i < batch.len() - 1 {
        lemma_oldest_is_min(cur, batch.drop_last(), i);
    }
}

/// The newest received id is at least the id of every received message taken in.
pub proof fn lemma_latest_is_max(cur: Option<i64>, batch: Seq<(i64, bool)>, i: int)
    requires
        0 <= i < batch.len(),
        batch[i].1,
    ensures
        latest_after(cur, batch) matches Some(l) && l >= batch[i].0,
    decreases batch.len(),
{
    if i < batch.len() - 1 {
        lemma_latest_is_max(cur, batch.drop_last(), i);
        lemma_latest_monotone(latest_after(cur, batch.drop_last()), batch.last());
    }
}

proof fn lemma_latest_monotone(prev: Option<i64>, m: (i64, bool))
    requires
        prev is Some,
    ensures
        (if m.1 { max_opt(prev, m.0) } else { prev }) matches Some(l) && l >= prev->0,
{
}

} // verus!
