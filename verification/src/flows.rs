//! Logins that have been started and not finished.

use vstd::prelude::*;

use crate::text::same_text;

verus! {

/// How many logins of one kind may be open at the same time.
pub const MAX_FLOWS: usize = 10_000;

/// Nanoseconds in a second. Moments are counted in nanoseconds since some fixed moment.
pub const NANOS: u128 = 1_000_000_000;

/// The latest moment a clock can show: the nanoseconds of the longest span of time.
pub const LATEST: u128 = 18_446_744_073_709_551_615_999_999_999;

/// A login under way: it expires, and it can be used up.
pub trait Flow: View + Sized {
    /// When a login expires.
    spec fn ends_at(flow: Self::V) -> u128;

    /// Whether a login is used up.
    spec fn is_used(flow: Self::V) -> bool;

    /// When the login expires.
    fn expires_at(&self) -> (res: u128)
        ensures
            res == Self::ends_at(self@),
    ;

    /// Whether the login is used up.
    fn finished(&self) -> (res: bool)
        ensures
            res == Self::is_used(self@),
    ;
}

/// A login under its name, unless somebody is working on it at the moment.
struct Entry<F> {
    id: String,
    slot: Option<F>,
}

/// The logins of one kind by their names. A login that somebody is working on is absent from its
/// slot.
pub struct FlowTable<F: Flow> {
    entries: Vec<Entry<F>>,
}

/// What a slot stands for.
pub open spec fn slot_of<F: Flow>(slot: Option<F>) -> Option<F::V> {
    match slot {
        Some(flow) => Some(flow@),
        None => None,
    }
}

/// Whether a slot outlives a clearing at the moment `now`: what is being worked on does, and what is
/// neither expired nor used up.
pub open spec fn slot_stays<F: Flow>(slot: Option<F::V>, now: u128) -> bool {
    match slot {
        Some(flow) => F::ends_at(flow) > now && !F::is_used(flow),
        None => true,
    }
}

/// The table without the slots that do not outlive a clearing at the moment `now`.
pub open spec fn cleared<F: Flow>(table: Map<Seq<char>, Option<F::V>>, now: u128) -> Map<
    Seq<char>,
    Option<F::V>,
> {
    Map::new(
        |id: Seq<char>| table.contains_key(id) && slot_stays::<F>(table[id], now),
        |id: Seq<char>| table[id],
    )
}

impl<F: Flow> View for FlowTable<F> {
    type V = Map<Seq<char>, Option<F::V>>;

    closed spec fn view(&self) -> Map<Seq<char>, Option<F::V>> {
        Map::new(|id: Seq<char>| self.has(id), |id: Seq<char>| slot_of(self.entries@[self.place(id)].slot))
    }
}

impl<F: Flow> FlowTable<F> {
    spec fn has(&self, id: Seq<char>) -> bool {
        exists|i: int| 0 <= i < self.entries@.len() && (#[trigger] self.entries@[i]).id@ == id
    }

    spec fn place(&self, id: Seq<char>) -> int {
        choose|i: int| 0 <= i < self.entries@.len() && (#[trigger] self.entries@[i]).id@ == id
    }

    /// Whether each name stands in the table once, and there are no more than may be.
    pub closed spec fn wf(&self) -> bool {
        &&& forall|i: int, j: int|
            0 <= i < j < self.entries@.len() ==> (#[trigger] self.entries@[i]).id@ != (
            #[trigger] self.entries@[j]).id@
        &&& self.entries@.len() <= MAX_FLOWS
    }

    proof fn lemma_place(&self, i: int)
        requires
            self.wf(),
            0 <= i < self.entries@.len(),
        ensures
            self.has(self.entries@[i].id@),
            self.place(self.entries@[i].id@) == i,
            self@.contains_key(self.entries@[i].id@),
            self@[self.entries@[i].id@] == slot_of(self.entries@[i].slot),
    {
        let id = self.entries@[i].id@;
        let k = self.place(id);
        assert(self.entries@[k].id@ == id);
    }

    proof fn lemma_has(&self, id: Seq<char>)
        requires
            self.wf(),
            self@.contains_key(id),
        ensures
            0 <= self.place(id) < self.entries@.len(),
            self.entries@[self.place(id)].id@ == id,
            self@[id] == slot_of(self.entries@[self.place(id)].slot),
    {
    }

    /// There are as many names as entries.
    proof fn lemma_len(&self)
        requires
            self.wf(),
        ensures
            self@.dom().finite(),
            self@.len() == self.entries@.len(),
    {
        let names = self.entries@.map_values(|entry: Entry<F>| entry.id@);
        assert(names.no_duplicates());
        names.unique_seq_to_set();
        assert(self@.dom() =~= names.to_set()) by {
            assert forall|id: Seq<char>| self@.dom().contains(id) implies names.to_set().contains(
                id,
            ) by {
                self.lemma_has(id);
                assert(names[self.place(id)] == id);
            }
            assert forall|id: Seq<char>| names.to_set().contains(id) implies self@.dom().contains(
                id,
            ) by {
                let i = choose|i: int| 0 <= i < names.len() && names[i] == id;
                self.lemma_place(i);
            }
        }
    }

    /// The number of logins in the table is at most the number that may be.
    pub proof fn law_table_is_bounded(&self)
        requires
            self.wf(),
        ensures
            self@.dom().finite(),
            self@.len() <= MAX_FLOWS,
    {
        self.lemma_len();
    }

    /// A table without logins.
    pub fn new() -> (res: FlowTable<F>)
        ensures
            res.wf(),
            res@ == Map::<Seq<char>, Option<F::V>>::empty(),
    {
        let res = FlowTable { entries: Vec::new() };
        assert(res@ =~= Map::<Seq<char>, Option<F::V>>::empty());
        res
    }

    /// How many logins stand in the table.
    pub fn len(&self) -> (res: usize)
        requires
            self.wf(),
        ensures
            res == self@.len(),
    {
        proof {
            self.lemma_len();
        }
        self.entries.len()
    }

    fn find(&self, id: &str) -> (res: Option<usize>)
        requires
            self.wf(),
        ensures
            match res {
                Some(i) => i < self.entries@.len() && self.entries@[i as int].id@ == id@,
                None => !self@.contains_key(id@),
            },
    {
        for i in 0..self.entries.len()
            invariant
                forall|j: int| 0 <= j < i ==> (#[trigger] self.entries@[j]).id@ != id@,
        {
            if same_text(self.entries[i].id.as_str(), id) {
                return Some(i);
            }
        }
        None
    }

    /// The login called `id`: `None` where there is none, `Some(None)` where somebody is working on
    /// it.
    pub fn get(&self, id: &str) -> (res: Option<Option<&F>>)
        requires
            self.wf(),
        ensures
            match res {
                None => !self@.contains_key(id@),
                Some(None) => self@.contains_key(id@) && self@[id@] is None,
                Some(Some(flow)) => self@.contains_key(id@) && self@[id@] == Some(flow@),
            },
    {
        match self.find(id) {
            Some(i) => {
                proof {
                    self.lemma_place(i as int);
                }
                match &self.entries[i].slot {
                    Some(flow) => Some(Some(flow)),
                    None => Some(None),
                }
            },
            None => None,
        }
    }

    fn remove_at(&mut self, i: usize) -> (res: Option<F>)
        requires
            old(self).wf(),
            i < old(self).entries@.len(),
        ensures
            final(self).wf(),
            final(self)@ == old(self)@.remove(old(self).entries@[i as int].id@),
            slot_of(res) == slot_of(old(self).entries@[i as int].slot),
            final(self).entries@.len() == old(self).entries@.len() - 1,
            forall|j: int| 0 <= j < i ==> final(self).entries@[j] == old(self).entries@[j],
    {
        let ghost before = *self;
        let entry = self.entries.swap_remove(i);
        proof {
            let after = *self;
            let gone = before.entries@[i as int].id@;
            let last = before.entries@.len() - 1;
            assert forall|j: int, k: int| 0 <= j < k < after.entries@.len() implies (
            #[trigger] after.entries@[j]).id@ != (#[trigger] after.entries@[k]).id@ by {
                assert(before.entries@[j].id@ != before.entries@[k].id@);
                assert(before.entries@[j].id@ != before.entries@[last].id@);
                assert(before.entries@[k].id@ != before.entries@[last].id@);
            }
            assert forall|id: Seq<char>| #[trigger]
                before@.remove(gone).contains_key(id) implies after@.contains_key(id) && after@[id]
                == before@[id] by {
                before.lemma_has(id);
                let p = before.place(id);
                let q = if p == last {
                    i as int
                } else {
                    p
                };
                assert(after.entries@[q] == before.entries@[p]);
                after.lemma_place(q);
            }
            assert forall|id: Seq<char>| #[trigger] after@.contains_key(id) implies before@.remove(
                gone,
            ).contains_key(id) by {
                after.lemma_has(id);
                let q = after.place(id);
                let p = if q == i {
                    last
                } else {
                    q
                };
                assert(after.entries@[q] == before.entries@[p]);
                before.lemma_place(p);
                assert(p != i);
                if id == gone {
                    before.lemma_place(i as int);
                }
            }
            assert(after@ =~= before@.remove(gone));
        }
        entry.slot
    }

    fn add_last(&mut self, id: String, slot: Option<F>)
        requires
            old(self).wf(),
            !old(self)@.contains_key(id@),
            old(self).entries@.len() < MAX_FLOWS,
        ensures
            final(self).wf(),
            final(self)@ == old(self)@.insert(id@, slot_of(slot)),
    {
        let ghost before = *self;
        let ghost key = id@;
        let ghost value = slot_of(slot);
        self.entries.push(Entry { id, slot });
        proof {
            let after = *self;
            let n = before.entries@.len() as int;
            assert forall|j: int, k: int| 0 <= j < k < after.entries@.len() implies (
            #[trigger] after.entries@[j]).id@ != (#[trigger] after.entries@[k]).id@ by {
                before.lemma_place(j);
                if k < n {
                    assert(before.entries@[j].id@ != before.entries@[k].id@);
                }
            }
            after.lemma_place(n);
            assert forall|other: Seq<char>| #[trigger]
                before@.contains_key(other) implies after@.contains_key(other) && after@[other]
                == before@[other] by {
                before.lemma_has(other);
                let p = before.place(other);
                assert(after.entries@[p] == before.entries@[p]);
                after.lemma_place(p);
            }
            assert forall|other: Seq<char>| #[trigger] after@.contains_key(other) && other
                != key implies before@.contains_key(other) by {
                after.lemma_has(other);
                let p = after.place(other);
                assert(after.entries@[p] == before.entries@[p]);
                before.lemma_place(p);
            }
            assert(after@ =~= before@.insert(key, value));
        }
    }

    /// Takes the login called `id` out of the table.
    pub fn remove(&mut self, id: &str)
        requires
            old(self).wf(),
        ensures
            final(self).wf(),
            final(self)@ == old(self)@.remove(id@),
    {
        match self.find(id) {
            Some(i) => {
                let _ = self.remove_at(i);
            },
            None => {
                assert(self@ =~= self@.remove(id@));
            },
        }
    }

    /// Adds a login, in place of one with the same name. There has to be room for it.
    pub fn insert(&mut self, id: String, flow: F)
        requires
            old(self).wf(),
            old(self)@.len() < MAX_FLOWS,
        ensures
            final(self).wf(),
            final(self)@ == old(self)@.insert(id@, Some(flow@)),
    {
        let ghost before = self@;
        proof {
            self.lemma_len();
        }
        self.remove(id.as_str());
        proof {
            self.lemma_len();
            assert(self@.dom() =~= before.dom().remove(id@));
        }
        self.add_last(id, Some(flow));
        assert(self@ =~= before.insert(id@, Some(flow@)));
    }

    /// Takes the login called `id` out of its slot to work on it. The slot stays in the table.
    pub fn take(&mut self, id: &str) -> (res: Option<F>)
        requires
            old(self).wf(),
        ensures
            final(self).wf(),
            match res {
                Some(flow) => old(self)@.contains_key(id@) && old(self)@[id@] == Some(flow@)
                    && final(self)@ == old(self)@.insert(id@, None),
                None => (old(self)@.contains_key(id@) ==> old(self)@[id@] is None) && final(self)@
                    == old(self)@,
            },
    {
        let ghost before = self@;
        match self.find(id) {
            Some(i) => {
                proof {
                    self.lemma_place(i as int);
                }
                let slot = self.remove_at(i);
                self.add_last(id.to_owned(), None);
                assert(self@ =~= before.insert(id@, None));
                slot
            },
            None => None,
        }
    }

    /// Puts a login back into the slot that it was taken from, if the slot is still there.
    pub fn put_back(&mut self, id: &str, flow: F)
        requires
            old(self).wf(),
        ensures
            final(self).wf(),
            final(self)@ == if old(self)@.contains_key(id@) {
                old(self)@.insert(id@, Some(flow@))
            } else {
                old(self)@
            },
    {
        let ghost before = self@;
        match self.find(id) {
            Some(i) => {
                proof {
                    self.lemma_place(i as int);
                }
                let _ = self.remove_at(i);
                self.add_last(id.to_owned(), Some(flow));
                assert(self@ =~= before.insert(id@, Some(flow@)));
            },
            None => {},
        }
    }

    /// Clears away the logins that are expired or used up, except for those that somebody is working
    /// on.
    pub fn clear_stale(&mut self, now: u128)
        requires
            old(self).wf(),
        ensures
            final(self).wf(),
            final(self)@ == cleared::<F>(old(self)@, now),
    {
        let ghost before = self@;
        let mut i: usize = 0;
        while i < self.entries.len()
            invariant
                self.wf(),
                i <= self.entries@.len(),
                cleared::<F>(self@, now) == cleared::<F>(before, now),
                forall|j: int|
                    0 <= j < i ==> slot_stays::<F>(slot_of((#[trigger] self.entries@[j]).slot), now),
            decreases self.entries@.len() - i,
        {
            let ghost current = *self;
            proof {
                self.lemma_place(i as int);
            }
            let stays = match &self.entries[i].slot {
                Some(flow) => flow.expires_at() > now && !flow.finished(),
                None => true,
            };
            if stays {
                i = i + 1;
            } else {
                let _ = self.remove_at(i);
                assert(cleared::<F>(self@, now) =~= cleared::<F>(current@, now));
            }
        }
        assert(cleared::<F>(self@, now) =~= self@) by {
            assert forall|id: Seq<char>| #[trigger] self@.contains_key(id) implies slot_stays::<F>(
                self@[id],
                now,
            ) by {
                self.lemma_has(id);
            }
        }
    }
}

/// A clearing keeps the logins that somebody is working on and those that are neither expired nor used
/// up, each as it is, and no others.
pub proof fn law_clearing_keeps_what_is_open<F: Flow>(
    table: Map<Seq<char>, Option<F::V>>,
    now: u128,
    id: Seq<char>,
)
    ensures
        cleared::<F>(table, now).contains_key(id) <==> table.contains_key(id) && (table[id] is None || (
        F::ends_at(table[id]->0) > now && !F::is_used(table[id]->0))),
        cleared::<F>(table, now).contains_key(id) ==> cleared::<F>(table, now)[id] == table[id],
{
}

} // verus!
