//! The undo window: a queued send or bulk action waits here under a fresh
//! id until its countdown lapses. Whoever removes the entry first owns it:
//! Undo claims it back, the timer claims it to fire, and the loser finds
//! nothing ("too late").
use vstd::prelude::*;

verus! {

/// Items parked under ids handed out in increasing order.
pub struct PendingQueue<T> {
    next_id: u64,
    items: Vec<(u64, T)>,
}

impl<T> PendingQueue<T> {
    /// The parked items by id.
    pub closed spec fn view(&self) -> Map<u64, T> {
        Map::new(
            |id: u64| exists|i: int| 0 <= i < self.items@.len() && self.items@[i].0 == id,
            |id: u64| self.items@[choose|i: int| 0 <= i < self.items@.len() && self.items@[i].0 == id].1,
        )
    }

    /// The id the next parked item gets.
    pub closed spec fn next(&self) -> u64 {
        self.next_id
    }

    /// Ids are unique and all below the next one.
    pub closed spec fn wf(&self) -> bool {
        &&& forall|i: int, j: int|
            0 <= i < j < self.items@.len() ==> (#[trigger] self.items@[i]).0 != (#[trigger] self.items@[j]).0
        &&& forall|i: int| 0 <= i < self.items@.len() ==> (#[trigger] self.items@[i]).0 < self.next_id
    }

    pub fn new() -> (q: Self)
        ensures
            q.wf(),
            q@ == Map::<u64, T>::empty(),
            q.next() == 0,
    {
        let q = PendingQueue { next_id: 0, items: Vec::new() };
        assert(q@ =~= Map::<u64, T>::empty());
        q
    }

    /// Park `item` under a fresh id and return the id.
    pub fn park(&mut self, item: T) -> (id: u64)
        requires
            old(self).wf(),
            old(self).next() < u64::MAX,
        ensures
            final(self).wf(),
            id == old(self).next(),
            !old(self)@.contains_key(id),
            final(self)@ == old(self)@.insert(id, item),
            final(self).next() == id + 1,
    {
        let id = self.next_id;
        let ghost before = self.items@;
        self.items.push((id, item));
        self.next_id = id + 1;
        proof {
            let after = self.items@;
            assert(after.len() == before.len() + 1);
            assert(forall|i: int| 0 <= i < before.len() ==> after[i] == before[i]);
            assert(after[before.len() as int] == (id, item));
            assert(self@ =~= old(self)@.insert(id, item)) by {
                assert forall|k: u64| #[trigger] self@.contains_key(k) == old(self)@.insert(id, item).contains_key(k) by {
                    if k == id {
                        assert(after[before.len() as int].0 == k);
                    }
                    if old(self)@.contains_key(k) {
                        let i = choose|i: int| 0 <= i < before.len() && before[i].0 == k;
                        assert(after[i].0 == k);
                    }
                }
                assert forall|k: u64| #[trigger] self@.contains_key(k) implies self@[k] == old(self)@.insert(
                    id,
                    item,
                )[k] by {
                    let i = choose|i: int| 0 <= i < after.len() && after[i].0 == k;
                    if k == id {
                        assert(i == before.len() as int);
                    } else {
                        let j = choose|j: int| 0 <= j < before.len() && before[j].0 == k;
                        assert(after[j].0 == k);
                        assert(i == j);
                    }
                }
            }
        }
        id
    }

    /// Remove and return the item parked under `id`; `None` when it was
    /// already claimed (or never parked).
    pub fn claim(&mut self, id: u64) -> (r: Option<T>)
        requires
            old(self).wf(),
        ensures
            final(self).wf(),
            final(self).next() == old(self).next(),
            final(self)@ == old(self)@.remove(id),
            match r {
                Some(v) => old(self)@.contains_key(id) && v == old(self)@[id],
                None => !old(self)@.contains_key(id),
            },
    {
        let ghost before = self.items@;
        let mut i: usize = 0;
        while i < self.items.len()
            invariant
                self.items@ == before,
                before == old(self).items@,
                self.next_id == old(self).next_id,
                old(self).wf(),
                i <= before.len(),
                forall|k: int| 0 <= k < i ==> before[k].0 != id,
            decreases before.len() - i,
        {
            if self.items[i].0 == id {
                let (_, v) = self.items.remove(i);
                proof {
                    let after = self.items@;
                    assert(after =~= before.remove(i as int));
                    assert(before[i as int].0 == id);
                    assert(old(self)@.contains_key(id));
                    let w = choose|w: int| 0 <= w < before.len() && before[w].0 == id;
                    assert(w == i);
                    assert(forall|a: int, b: int|
                        0 <= a < b < after.len() ==> (#[trigger] after[a]).0 != (#[trigger] after[b]).0) by {
                        assert forall|a: int, b: int| 0 <= a < b < after.len() implies (#[trigger] after[a]).0
                            != (#[trigger] after[b]).0 by {
                            let a2 = if a < i { a } else { a + 1 };
                            let b2 = if b < i { b } else { b + 1 };
                            assert(after[a] == before[a2]);
                            assert(after[b] == before[b2]);
                        }
                    }
                    assert(forall|a: int| 0 <= a < after.len() ==> (#[trigger] after[a]).0 < self.next_id) by {
                        assert forall|a: int| 0 <= a < after.len() implies (#[trigger] after[a]).0 < self.next_id by {
                            let a2 = if a < i { a } else { a + 1 };
                            assert(after[a] == before[a2]);
                        }
                    }
                    assert(self@ =~= old(self)@.remove(id)) by {
                        assert forall|k: u64| #[trigger] self@.contains_key(k) == old(self)@.remove(id).contains_key(
                            k,
                        ) by {
                            if self@.contains_key(k) {
                                let a = choose|a: int| 0 <= a < after.len() && after[a].0 == k;
                                let a2 = if a < i { a } else { a + 1 };
                                assert(after[a] == before[a2]);
                                assert(k != id);
                            }
                            if old(self)@.remove(id).contains_key(k) {
                                let b = choose|b: int| 0 <= b < before.len() && before[b].0 == k;
                                assert(b != i);
                                let a = if b < i { b } else { b - 1 };
                                assert(after[a] == before[b]);
                            }
                        }
                        assert forall|k: u64| #[trigger] self@.contains_key(k) implies self@[k] == old(
                            self,
                        )@.remove(id)[k] by {
                            let a = choose|a: int| 0 <= a < after.len() && after[a].0 == k;
                            let a2 = if a < i { a } else { a + 1 };
                            assert(after[a] == before[a2]);
                            let b = choose|b: int| 0 <= b < before.len() && before[b].0 == k;
                            assert(b == a2);
                        }
                    }
                }
                return Some(v);
            }
            i = i + 1;
        }
        proof {
            assert(!old(self)@.contains_key(id));
            assert(self@ =~= old(self)@.remove(id));
        }
        None
    }
}

/// Claiming is exclusive: once an entry has been claimed, a second claim
/// of the same id finds nothing. Undo and the lapse timer never both get the
/// same draft or action.
pub proof fn law_claim_is_exclusive<T>(parked: Map<u64, T>, id: u64)
    ensures
        !parked.remove(id).contains_key(id),
{
}

/// A parked item can be claimed back exactly as it was parked, and parking
/// never disturbs the items already waiting.
pub proof fn law_claim_returns_what_was_parked<T>(parked: Map<u64, T>, id: u64, item: T)
    requires
        !parked.contains_key(id),
    ensures
        parked.insert(id, item).contains_key(id),
        parked.insert(id, item)[id] == item,
        parked.insert(id, item).remove(id) == parked,
{
    assert(parked.insert(id, item).remove(id) =~= parked);
}

} // verus!
