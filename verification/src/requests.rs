//! The pending-request table: every outbound request gets a fresh positive
//! ID from a monotonic counter, and the response carrying that ID is
//! delivered to exactly the caller that issued it. A caller is named here
//! by an opaque token (the rim keys its response channels by it).

use vstd::prelude::*;

verus! {

struct PendingEntry {
    id: i32,
    token: u64,
}

/// The table of requests awaiting a response, and the ID counter.
pub struct RequestTracker {
    next_id: i32,
    pending: Vec<PendingEntry>,
}

/// The abstract table: request ID to caller token.
spec fn pending_map_of(entries: Seq<PendingEntry>) -> Map<int, u64>
    decreases entries.len(),
{
    if entries.len() == 0 {
        Map::empty()
    } else {
        pending_map_of(entries.drop_last()).insert(
            entries.last().id as int,
            entries.last().token,
        )
    }
}

impl RequestTracker {
    /// The abstract table: request ID to awaiting caller.
    pub closed spec fn view(&self) -> Map<int, u64> {
        pending_map_of(self.pending@)
    }

    /// The next ID the counter will hand out.
    pub closed spec fn next_id(&self) -> int {
        self.next_id as int
    }

    /// IDs are positive, below the counter, and pairwise distinct; ID 0 is
    /// never used.
    pub closed spec fn wf(&self) -> bool {
        &&& 1 <= self.next_id as int
        &&& forall|i: int|
            0 <= i < self.pending@.len() ==> 1 <= (#[trigger] self.pending@[i].id) as int
                && (self.pending@[i].id as int) < self.next_id as int
        &&& forall|i: int, j: int|
            0 <= i < j < self.pending@.len() ==> self.pending@[i].id != self.pending@[j].id
    }

    /// A fresh tracker: the counter starts at 1 and nothing is pending.
    pub fn new() -> (r: RequestTracker)
        ensures
            r.wf(),
            r@ == Map::<int, u64>::empty(),
            r.next_id() == 1,
    {
        RequestTracker { next_id: 1, pending: Vec::new() }
    }

    /// Draws the next request ID for the caller named by `token` and
    /// records it as pending. The ID is positive, was not pending before,
    /// and the counter moves past it, so no later call can draw it again.
    /// Fails only when the counter is exhausted, leaving the table as it
    /// was.
    pub fn allocate(&mut self, token: u64) -> (r: Option<i32>)
        requires
            old(self).wf(),
        ensures
            final(self).wf(),
            old(self).next_id() == i32::MAX ==> r is None && final(self)@ == old(self)@
                && final(self).next_id() == old(self).next_id(),
            old(self).next_id() < i32::MAX ==> (r matches Some(id)
                && id as int == old(self).next_id() && 1 <= id
                && !old(self)@.contains_key(id as int)
                && final(self)@ == old(self)@.insert(id as int, token)
                && final(self).next_id() == old(self).next_id() + 1),
    {
        if self.next_id == i32::MAX {
            return None;
        }
        let id = self.next_id;
        self.next_id = self.next_id + 1;
        proof {
            lemma_pending_map_contains(self.pending@, id as int);
        }
        self.pending.push(PendingEntry { id, token });
        proof {
            assert(self.pending@.drop_last() =~= old(self).pending@);
        }
        Some(id)
    }

    fn find_idx(&self, id: i32) -> (r: Option<usize>)
        ensures
            match r {
                Some(i) => i < self.pending@.len() && self.pending@[i as int].id == id,
                None => forall|j: int| 0 <= j < self.pending@.len() ==> self.pending@[j].id != id,
            },
    {
        let mut i: usize = 0;
        while i < self.pending.len()
            invariant
                i <= self.pending@.len(),
                forall|j: int| 0 <= j < i ==> self.pending@[j].id != id,
            decreases self.pending@.len() - i,
        {
            if self.pending[i].id == id {
                return Some(i);
            }
            i = i + 1;
        }
        None
    }

    /// Resolves an inbound response: the caller awaiting `id`, if any, is
    /// removed from the table and its token handed back, so the response
    /// reaches exactly the caller whose request bore that ID. An unknown
    /// ID yields nothing and changes nothing (the message is dropped).
    pub fn take(&mut self, id: i32) -> (r: Option<u64>)
        requires
            old(self).wf(),
        ensures
            final(self).wf(),
            final(self).next_id() == old(self).next_id(),
            old(self)@.contains_key(id as int) ==> r == Some(old(self)@[id as int])
                && final(self)@ == old(self)@.remove(id as int),
            !old(self)@.contains_key(id as int) ==> r is None && final(self)@ == old(self)@,
    {
        proof {
            lemma_pending_map_contains(self.pending@, id as int);
            lemma_pending_map_value(self.pending@, id as int);
        }
        match self.find_idx(id) {
            None => None,
            Some(i) => {
                let e = self.pending.remove(i);
                proof {
                    lemma_pending_map_remove(old(self).pending@, i as int);
                }
                Some(e.token)
            },
        }
    }

    /// Empties the table for shutdown, handing back every awaiting
    /// caller's token so each pending sink can be signalled as cancelled.
    pub fn cancel_all(&mut self) -> (r: Vec<u64>)
        requires
            old(self).wf(),
        ensures
            final(self).wf(),
            final(self)@ == Map::<int, u64>::empty(),
            final(self).next_id() == old(self).next_id(),
            r@.len() == old(self)@.dom().len(),
            forall|i: int| 0 <= i < r@.len() ==> old(self)@.contains_value(#[trigger] r@[i]),
    {
        let mut r: Vec<u64> = Vec::new();
        let mut i: usize = 0;
        let n = self.pending.len();
        while i < n
            invariant
                i <= n,
                n == self.pending@.len(),
                self.pending@ == old(self).pending@,
                r@.len() == i,
                forall|j: int|
                    0 <= j < i ==> r@[j] == old(self).pending@[j].token,
        decreases n - i,
        {
            r.push(self.pending[i].token);
            i = i + 1;
        }
        proof {
            lemma_pending_map_size(self.pending@);
            assert forall|j: int| 0 <= j < r@.len() implies pending_map_of(
                old(self).pending@,
            ).contains_value(#[trigger] r@[j]) by {
                lemma_pending_map_values(old(self).pending@, j);
            }
        }
        self.pending.clear();
        r
    }
}

proof fn lemma_pending_map_contains(entries: Seq<PendingEntry>, id: int)
    ensures
        pending_map_of(entries).contains_key(id) <==> exists|i: int|
            0 <= i < entries.len() && entries[i].id as int == id,
    decreases entries.len(),
{
    if entries.len() > 0 {
        lemma_pending_map_contains(entries.drop_last(), id);
        if entries.last().id as int == id {
            assert(entries[entries.len() - 1].id as int == id);
        } else {
            if pending_map_of(entries).contains_key(id) {
                let i = choose|i: int|
                    0 <= i < entries.drop_last().len() && entries.drop_last()[i].id as int == id;
                assert(entries[i].id as int == id);
            }
            if exists|i: int| 0 <= i < entries.len() && entries[i].id as int == id {
                let i = choose|i: int| 0 <= i < entries.len() && entries[i].id as int == id;
                assert(i < entries.len() - 1);
                assert(entries.drop_last()[i].id as int == id);
            }
        }
    }
}

proof fn lemma_pending_map_value(entries: Seq<PendingEntry>, id: int)
    requires
        forall|i: int, j: int| 0 <= i < j < entries.len() ==> entries[i].id != entries[j].id,
    ensures
        forall|i: int|
            0 <= i < entries.len() && (#[trigger] entries[i].id) as int == id ==> pending_map_of(
                entries,
            ).contains_key(id) && pending_map_of(entries)[id] == entries[i].token,
    decreases entries.len(),
{
    if entries.len() > 0 {
        lemma_pending_map_value(entries.drop_last(), id);
        lemma_pending_map_contains(entries.drop_last(), id);
        assert forall|i: int|
            0 <= i < entries.len() && (#[trigger] entries[i].id) as int == id implies pending_map_of(
            entries,
        ).contains_key(id) && pending_map_of(entries)[id] == entries[i].token by {
            if i == entries.len() - 1 {
                if pending_map_of(entries.drop_last()).contains_key(id) {
                    let j = choose|j: int|
                        0 <= j < entries.drop_last().len() && entries.drop_last()[j].id as int
                            == id;
                    assert(entries[j].id as int == id);
                    assert(false);
                }
            } else {
                assert(entries.drop_last()[i].id as int == id);
                assert(entries.last().id as int != id);
            }
        }
    }
}

proof fn lemma_pending_map_remove(entries: Seq<PendingEntry>, i: int)
    requires
        0 <= i < entries.len(),
        forall|a: int, b: int| 0 <= a < b < entries.len() ==> entries[a].id != entries[b].id,
    ensures
        pending_map_of(entries.remove(i)) == pending_map_of(entries).remove(entries[i].id as int),
    decreases entries.len(),
{
    let removed = entries.remove(i);
    if i == entries.len() - 1 {
        assert(removed =~= entries.drop_last());
        lemma_pending_map_contains(entries.drop_last(), entries[i].id as int);
        assert(!pending_map_of(entries.drop_last()).contains_key(entries[i].id as int)) by {
            if pending_map_of(entries.drop_last()).contains_key(entries[i].id as int) {
                let j = choose|j: int|
                    0 <= j < entries.drop_last().len() && entries.drop_last()[j].id as int
                        == entries[i].id as int;
                assert(entries[j].id == entries[i].id);
                assert(false);
            }
        }
        assert(pending_map_of(removed) =~= pending_map_of(entries).remove(entries[i].id as int));
    } else {
        assert(removed.drop_last() =~= entries.drop_last().remove(i));
        lemma_pending_map_remove(entries.drop_last(), i);
        assert(removed.last() == entries.last());
        assert(entries.last().id != entries[i].id);
        assert(pending_map_of(removed) =~= pending_map_of(entries).remove(entries[i].id as int));
    }
}

proof fn lemma_pending_map_size(entries: Seq<PendingEntry>)
    requires
        forall|a: int, b: int| 0 <= a < b < entries.len() ==> entries[a].id != entries[b].id,
    ensures
        pending_map_of(entries).dom().len() == entries.len(),
        pending_map_of(entries).dom().finite(),
    decreases entries.len(),
{
    if entries.len() > 0 {
        lemma_pending_map_size(entries.drop_last());
        lemma_pending_map_contains(entries.drop_last(), entries.last().id as int);
        assert(!pending_map_of(entries.drop_last()).contains_key(entries.last().id as int)) by {
            if pending_map_of(entries.drop_last()).contains_key(entries.last().id as int) {
                let j = choose|j: int|
                    0 <= j < entries.drop_last().len() && entries.drop_last()[j].id as int
                        == entries.last().id as int;
                assert(entries[j].id == entries[entries.len() - 1].id);
                assert(false);
            }
        }
        vstd::set::axiom_set_insert_len(
            pending_map_of(entries.drop_last()).dom(),
            entries.last().id as int,
        );
    }
}

proof fn lemma_pending_map_values(entries: Seq<PendingEntry>, j: int)
    requires
        0 <= j < entries.len(),
        forall|a: int, b: int| 0 <= a < b < entries.len() ==> entries[a].id != entries[b].id,
    ensures
        pending_map_of(entries).contains_value(entries[j].token),
{
    lemma_pending_map_value(entries, entries[j].id as int);
    assert(pending_map_of(entries).dom().contains(entries[j].id as int) && pending_map_of(
        entries,
    )[entries[j].id as int] == entries[j].token);
}

/// The IDs a run of `k` allocations hands out, starting from a counter at
/// `next`: consecutive numbers, so any two distinct concurrent calls hold
/// different request IDs.
pub open spec fn allocation_ids(next: int, k: nat) -> Seq<int> {
    Seq::new(k, |i: int| next + i)
}

/// Any two distinct allocations in a run draw distinct request IDs.
pub proof fn lemma_request_ids_distinct(next: int, k: nat)
    ensures
        forall|i: int, j: int|
            0 <= i < j < k ==> allocation_ids(next, k)[i] != allocation_ids(next, k)[j],
{
}

/// Two concurrent calls correlate: with every pending ID below the
/// counter, the two IDs the calls draw differ, and the table then hands
/// each caller's token back under exactly its own ID.
pub proof fn lemma_concurrent_calls_correlate(pending: Map<int, u64>, next: int, t1: u64, t2: u64)
    requires
        forall|k: int| pending.contains_key(k) ==> k < next,
    ensures
        ({
            let after = pending.insert(next, t1).insert(next + 1, t2);
            next != next + 1 && after[next] == t1 && after[next + 1] == t2
        }),
{
}

} // verus!
