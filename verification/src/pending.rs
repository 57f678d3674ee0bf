//! The table of outstanding requests: correlation id to completion slot.
//!
//! The slot type is the embedder's business (an async one-shot sender, in
//! practice); the table treats it as cargo. An entry is inserted before its
//! request reaches the wire, and leaves in exactly one of three ways: its
//! response arrives, its timeout fires, or the transport shuts down and the
//! table is drained.

use vstd::prelude::*;

verus! {

/// What a table's entries mean: a finite map from correlation id to slot.
pub open spec fn pairs_map<S>(es: Seq<(String, S)>) -> Map<Seq<char>, S>
    decreases es.len(),
{
    if es.len() == 0 {
        Map::empty()
    } else {
        pairs_map(es.drop_last()).insert(es.last().0@, es.last().1)
    }
}

pub open spec fn ids_distinct<S>(es: Seq<(String, S)>) -> bool {
    forall|i: int, j: int| 0 <= i < j < es.len() ==> (#[trigger] es[i]).0@ != (#[trigger] es[j]).0@
}

pub proof fn lemma_pairs_map_contains<S>(es: Seq<(String, S)>, k: Seq<char>)
    ensures
        pairs_map(es).contains_key(k) <==> exists|i: int|
            0 <= i < es.len() && (#[trigger] es[i]).0@ == k,
    decreases es.len(),
{
    if es.len() > 0 {
        lemma_pairs_map_contains(es.drop_last(), k);
        if pairs_map(es).contains_key(k) {
            if es.last().0@ != k {
                let i = choose|i: int|
                    0 <= i < es.drop_last().len() && (#[trigger] es.drop_last()[i]).0@ == k;
                assert(es[i].0@ == k);
            }
        }
        if exists|i: int| 0 <= i < es.len() && (#[trigger] es[i]).0@ == k {
            let i = choose|i: int| 0 <= i < es.len() && (#[trigger] es[i]).0@ == k;
            if i < es.len() - 1 {
                assert(es.drop_last()[i].0@ == k);
            }
        }
    }
}

pub proof fn lemma_pairs_map_index<S>(es: Seq<(String, S)>, i: int)
    requires
        ids_distinct(es),
        0 <= i < es.len(),
    ensures
        pairs_map(es).contains_key(es[i].0@),
        pairs_map(es)[es[i].0@] == es[i].1,
    decreases es.len(),
{
    if i == es.len() - 1 {
        assert(es.last() == es[i]);
    } else {
        assert(es.drop_last()[i] == es[i]);
        lemma_pairs_map_index(es.drop_last(), i);
        assert(es[es.len() - 1].0@ != es[i].0@);
    }
}

pub proof fn lemma_pairs_map_remove<S>(es: Seq<(String, S)>, i: int)
    requires
        ids_distinct(es),
        0 <= i < es.len(),
    ensures
        pairs_map(es.remove(i)) =~= pairs_map(es).remove(es[i].0@),
    decreases es.len(),
{
    lemma_pairs_map_contains(es.drop_last(), es[i].0@);
    if i == es.len() - 1 {
        assert(es.remove(i) =~= es.drop_last());
        assert(forall|q: int|
            0 <= q < es.drop_last().len() ==> (#[trigger] es.drop_last()[q]).0@ != es[i].0@);
        assert(!pairs_map(es.drop_last()).contains_key(es[i].0@));
    } else {
        let k = es[i].0@;
        let last = es.last();
        assert(es.drop_last()[i] == es[i]);
        lemma_pairs_map_remove(es.drop_last(), i);
        assert(es.remove(i).last() == last);
        assert(es.remove(i).drop_last() =~= es.drop_last().remove(i));
        assert(last.0@ != k);
        assert(pairs_map(es.remove(i)) == pairs_map(es.drop_last().remove(i)).insert(
            last.0@,
            last.1,
        ));
    }
}

/// The outstanding-request table.
pub struct PendingTable<S> {
    pub entries: Vec<(String, S)>,
}

impl<S> PendingTable<S> {
    /// The table as a map from id to slot.
    pub open spec fn view(&self) -> Map<Seq<char>, S> {
        pairs_map(self.entries@)
    }

    pub open spec fn wf(&self) -> bool {
        ids_distinct(self.entries@)
    }

    pub open spec fn count(&self) -> nat {
        self.entries@.len()
    }

    pub fn new() -> (t: Self)
        ensures
            t.wf(),
            t.view() =~= Map::empty(),
            t.count() == 0,
    {
        PendingTable { entries: Vec::new() }
    }

    pub fn len(&self) -> (n: usize)
        ensures
            n == self.count(),
    {
        self.entries.len()
    }

    fn find(&self, id: &str) -> (r: Option<usize>)
        requires
            self.wf(),
        ensures
            match r {
                Some(i) => i < self.entries@.len() && self.entries@[i as int].0@ == id@,
                None => !self.view().contains_key(id@),
            },
    {
        proof {
            lemma_pairs_map_contains(self.entries@, id@);
        }
        let n = self.entries.len();
        let mut i: usize = 0;
        while i < n
            invariant
                i <= n,
                n == self.entries@.len(),
                forall|q: int| 0 <= q < i ==> (#[trigger] self.entries@[q]).0@ != id@,
            decreases n - i,
        {
            if crate::json::str_eq(self.entries[i].0.as_str(), id) {
                return Some(i);
            }
            i = i + 1;
        }
        proof {
            lemma_pairs_map_contains(self.entries@, id@);
        }
        None
    }

    /// Inserts a pairing. A duplicate id is rejected and the slot handed
    /// back, so the caller can fail it as a protocol error; the table is
    /// unchanged in that case.
    pub fn register(&mut self, id: String, slot: S) -> (r: Result<(), S>)
        requires
            old(self).wf(),
        ensures
            final(self).wf(),
            match r {
                Ok(()) => !old(self).view().contains_key(id@) && final(self).view()
                    =~= old(self).view().insert(id@, slot) && final(self).count() == old(
                    self,
                ).count() + 1,
                Err(s) => old(self).view().contains_key(id@) && old(self).count() > 0
                    && *final(self) == *old(self) && s == slot,
            },
    {
        match self.find(id.as_str()) {
            Some(i) => {
                proof {
                    lemma_pairs_map_index(self.entries@, i as int);
                }
                Err(slot)
            },
            None => {
                let ghost es0 = self.entries@;
                self.entries.push((id, slot));
                proof {
                    assert(self.entries@.drop_last() =~= es0);
                    lemma_pairs_map_contains(es0, self.entries@.last().0@);
                    assert forall|i: int, j: int|
                        0 <= i < j < self.entries@.len() implies (#[trigger] self.entries@[i]).0@
                        != (#[trigger] self.entries@[j]).0@ by {
                        if j < self.entries@.len() - 1 {
                            assert(es0[i] == self.entries@[i] && es0[j] == self.entries@[j]);
                        } else {
                            assert(es0[i] == self.entries@[i]);
                        }
                    }
                }
                Ok(())
            },
        }
    }

    /// Removes the entry for `id` and hands its slot back; an unknown id
    /// leaves the table unchanged. Serves both response delivery and
    /// timeout cancellation.
    pub fn take(&mut self, id: &str) -> (r: Option<S>)
        requires
            old(self).wf(),
        ensures
            final(self).wf(),
            match r {
                Some(slot) => old(self).view().contains_key(id@) && slot == old(self).view()[id@]
                    && final(self).view() =~= old(self).view().remove(id@) && final(self).count()
                    + 1 == old(self).count(),
                None => !old(self).view().contains_key(id@) && *final(self) == *old(self),
            },
    {
        match self.find(id) {
            Some(i) => {
                let ghost es0 = self.entries@;
                proof {
                    lemma_pairs_map_index(es0, i as int);
                    lemma_pairs_map_remove(es0, i as int);
                }
                let (_, slot) = self.entries.remove(i);
                proof {
                    assert forall|a: int, b: int|
                        0 <= a < b < self.entries@.len() implies (#[trigger] self.entries@[a]).0@
                        != (#[trigger] self.entries@[b]).0@ by {
                        let a0 = if a < i {
                            a
                        } else {
                            a + 1
                        };
                        let b0 = if b < i {
                            b
                        } else {
                            b + 1
                        };
                        assert(es0[a0] == self.entries@[a] && es0[b0] == self.entries@[b]);
                    }
                }
                Some(slot)
            },
            None => None,
        }
    }

    /// Empties the table, handing every slot back so the caller can fail
    /// each with a closed-channel error on shutdown.
    pub fn drain(&mut self) -> (r: Vec<S>)
        requires
            old(self).wf(),
        ensures
            final(self).wf(),
            final(self).view() =~= Map::<Seq<char>, S>::empty(),
            final(self).count() == 0,
            r@.len() == old(self).count(),
            forall|i: int| 0 <= i < r@.len() ==> #[trigger] r@[i] == old(self).entries@[i].1,
    {
        let mut out: Vec<S> = Vec::new();
        let n = self.entries.len();
        let ghost es0 = self.entries@;
        let mut i: usize = 0;
        while i < n
            invariant
                i <= n,
                n == es0.len(),
                self.entries@ =~= es0.skip(i as int),
                ids_distinct(self.entries@),
                out@.len() == i,
                forall|q: int| 0 <= q < i ==> #[trigger] out@[q] == es0[q].1,
            decreases n - i,
        {
            let (_, slot) = self.entries.remove(0);
            out.push(slot);
            proof {
                assert(self.entries@ =~= es0.skip(i + 1));
            }
            i = i + 1;
        }
        proof {
            assert(self.entries@ =~= Seq::<(String, S)>::empty());
        }
        out
    }
}

/// A delivered or cancelled id leaves every other outstanding request in
/// place: removing one key from the table does not touch the others.
pub proof fn lemma_take_frame<S>(m: Map<Seq<char>, S>, id: Seq<char>, other: Seq<char>)
    requires
        id != other,
    ensures
        m.remove(id).contains_key(other) == m.contains_key(other),
        m.contains_key(other) ==> m.remove(id)[other] == m[other],
{
}

/// A registered slot is delivered back exactly once: after the insert, the
/// id maps to that slot, and taking it restores the old table.
pub proof fn lemma_register_take<S>(m: Map<Seq<char>, S>, id: Seq<char>, slot: S)
    requires
        !m.contains_key(id),
    ensures
        m.insert(id, slot)[id] == slot,
        m.insert(id, slot).remove(id) =~= m,
{
}

} // verus!
