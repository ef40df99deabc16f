//! The session store: an explicit keyed map from opaque session
//! identifiers to their one index each. Kept as an association list with
//! pairwise-distinct keys; a serving layer may wrap it in a lock for
//! shared-read / exclusive-write access.

use vstd::prelude::*;

use crate::index::Index;
use crate::text::str_eq;

verus! {

/// Looks a session id up in the entry list.
pub open spec fn session_lookup(ps: Seq<(String, Index)>, id: Seq<char>) -> Option<Index>
    decreases ps.len(),
{
    if ps.len() == 0 {
        None
    } else if ps.last().0@ == id {
        Some(ps.last().1)
    } else {
        session_lookup(ps.drop_last(), id)
    }
}

/// The session store.
pub struct SessionStore {
    /// The sessions, in creation order.
    pub entries: Vec<(String, Index)>,
}

impl SessionStore {
    /// Well-formed: session ids are pairwise distinct.
    pub open spec fn wf(self) -> bool {
        forall|i: int, j: int|
            0 <= i < j < self.entries@.len() ==> (#[trigger] self.entries@[i]).0@ != (
            #[trigger] self.entries@[j]).0@
    }

    /// The index of session `id`, if that session exists.
    pub open spec fn session_of(self, id: Seq<char>) -> Option<Index> {
        session_lookup(self.entries@, id)
    }

    /// An empty store.
    pub fn new() -> (s: SessionStore)
        ensures
            s.wf(),
            forall|id: Seq<char>| #[trigger] s.session_of(id) is None,
    {
        let s = SessionStore { entries: Vec::new() };
        proof {
            assert forall|id: Seq<char>| #[trigger] s.session_of(id) is None by {
                assert(s.entries@.len() == 0);
            }
        }
        s
    }

    /// Whether the session exists.
    pub fn has(&self, id: &str) -> (b: bool)
        requires
            self.wf(),
        ensures
            b == (self.session_of(id@) is Some),
    {
        let n = self.entries.len();
        let mut i: usize = 0;
        while i < n
            invariant
                n == self.entries@.len(),
                i <= n,
                self.wf(),
                forall|k: int| 0 <= k < i ==> (#[trigger] self.entries@[k]).0@ != id@,
            decreases n - i,
        {
            if str_eq(self.entries[i].0.as_str(), id) {
                proof {
                    lemma_session_at(self.entries@, id@, i as int);
                }
                return true;
            }
            i += 1;
        }
        proof {
            lemma_session_absent(self.entries@, id@);
        }
        false
    }

    /// Borrows the session's index.
    pub fn get(&self, id: &str) -> (r: Option<&Index>)
        requires
            self.wf(),
        ensures
            match r {
                Some(idx) => self.session_of(id@) == Some(*idx),
                None => self.session_of(id@) is None,
            },
    {
        let n = self.entries.len();
        let mut i: usize = 0;
        while i < n
            invariant
                n == self.entries@.len(),
                i <= n,
                self.wf(),
                forall|k: int| 0 <= k < i ==> (#[trigger] self.entries@[k]).0@ != id@,
            decreases n - i,
        {
            if str_eq(self.entries[i].0.as_str(), id) {
                proof {
                    lemma_session_at(self.entries@, id@, i as int);
                }
                return Some(&self.entries[i].1);
            }
            i += 1;
        }
        proof {
            lemma_session_absent(self.entries@, id@);
        }
        None
    }

    /// Removes and returns the session's index, leaving the other
    /// sessions untouched.
    pub fn take(&mut self, id: &str) -> (r: Option<Index>)
        requires
            old(self).wf(),
        ensures
            final(self).wf(),
            match r {
                Some(idx) => {
                    &&& old(self).session_of(id@) == Some(idx)
                    &&& final(self).session_of(id@) is None
                    &&& forall|u: Seq<char>|
                        u != id@ ==> #[trigger] final(self).session_of(u) == old(self).session_of(
                            u,
                        )
                },
                None => {
                    &&& old(self).session_of(id@) is None
                    &&& *final(self) == *old(self)
                },
            },
    {
        let n = self.entries.len();
        let mut i: usize = 0;
        while i < n
            invariant
                n == self.entries@.len(),
                i <= n,
                self.wf(),
                self == old(self),
                forall|k: int| 0 <= k < i ==> (#[trigger] self.entries@[k]).0@ != id@,
            decreases n - i,
        {
            if str_eq(self.entries[i].0.as_str(), id) {
                proof {
                    lemma_session_at(self.entries@, id@, i as int);
                }
                let ghost ps0 = self.entries@;
                let entry = self.entries.remove(i);
                proof {
                    assert(entry == ps0[i as int]);
                    assert(self.entries@ =~= ps0.remove(i as int));
                    lemma_session_remove(ps0, i as int);
                }
                return Some(entry.1);
            }
            i += 1;
        }
        proof {
            lemma_session_absent(self.entries@, id@);
        }
        None
    }

    /// Adds a session that does not exist yet.
    pub fn put(&mut self, id: String, idx: Index)
        requires
            old(self).wf(),
            old(self).session_of(id@) is None,
        ensures
            final(self).wf(),
            final(self).session_of(id@) == Some(idx),
            forall|u: Seq<char>|
                u != id@ ==> #[trigger] final(self).session_of(u) == old(self).session_of(u),
    {
        proof {
            lemma_session_absent_rev(self.entries@, id@);
        }
        let ghost ps0 = self.entries@;
        let ghost idv = id@;
        self.entries.push((id, idx));
        proof {
            assert(self.entries@ =~= ps0.push((self.entries@[ps0.len() as int].0, idx)));
            assert(self.entries@.last().0@ == idv);
            assert forall|u: Seq<char>|
                u != idv implies #[trigger] session_lookup(self.entries@, u) == session_lookup(
                ps0,
                u,
            ) by {
                assert(self.entries@.drop_last() =~= ps0);
            }
        }
    }
}

/// With distinct keys, the stored pair decides the lookup.
proof fn lemma_session_at(ps: Seq<(String, Index)>, id: Seq<char>, i: int)
    requires
        forall|a: int, b: int|
            0 <= a < b < ps.len() ==> (#[trigger] ps[a]).0@ != (#[trigger] ps[b]).0@,
        0 <= i < ps.len(),
        ps[i].0@ == id,
    ensures
        session_lookup(ps, id) == Some(ps[i].1),
    decreases ps.len(),
{
    if i == ps.len() - 1 {
    } else {
        assert(ps.last() == ps[ps.len() - 1]);
        assert(ps.drop_last()[i] == ps[i]);
        lemma_session_at(ps.drop_last(), id, i);
    }
}

/// A key stored nowhere finds nothing.
proof fn lemma_session_absent(ps: Seq<(String, Index)>, id: Seq<char>)
    requires
        forall|k: int| 0 <= k < ps.len() ==> (#[trigger] ps[k]).0@ != id,
    ensures
        session_lookup(ps, id) is None,
    decreases ps.len(),
{
    if ps.len() > 0 {
        assert(ps.last() == ps[ps.len() - 1]);
        assert forall|k: int| 0 <= k < ps.drop_last().len() implies (
        #[trigger] ps.drop_last()[k]).0@ != id by {
            assert(ps.drop_last()[k] == ps[k]);
        }
        lemma_session_absent(ps.drop_last(), id);
    }
}

/// A key that finds nothing is stored nowhere.
proof fn lemma_session_absent_rev(ps: Seq<(String, Index)>, id: Seq<char>)
    requires
        session_lookup(ps, id) is None,
    ensures
        forall|k: int| 0 <= k < ps.len() ==> (#[trigger] ps[k]).0@ != id,
    decreases ps.len(),
{
    if ps.len() > 0 {
        assert(ps.last() == ps[ps.len() - 1]);
        lemma_session_absent_rev(ps.drop_last(), id);
        assert forall|k: int| 0 <= k < ps.len() implies (#[trigger] ps[k]).0@ != id by {
            if k < ps.len() - 1 {
                assert(ps.drop_last()[k] == ps[k]);
            }
        }
    }
}

/// Removing the pair that holds a key removes exactly that session.
proof fn lemma_session_remove(ps: Seq<(String, Index)>, i: int)
    requires
        forall|a: int, b: int|
            0 <= a < b < ps.len() ==> (#[trigger] ps[a]).0@ != (#[trigger] ps[b]).0@,
        0 <= i < ps.len(),
    ensures
        forall|a: int, b: int|
            0 <= a < b < ps.remove(i).len() ==> (#[trigger] ps.remove(i)[a]).0@ != (
            #[trigger] ps.remove(i)[b]).0@,
        session_lookup(ps.remove(i), ps[i].0@) is None,
        forall|u: Seq<char>|
            u != ps[i].0@ ==> #[trigger] session_lookup(ps.remove(i), u) == session_lookup(ps, u),
    decreases ps.len(),
{
    let qs = ps.remove(i);
    assert forall|a: int, b: int|
        0 <= a < b < qs.len() implies (#[trigger] qs[a]).0@ != (#[trigger] qs[b]).0@ by {
        let a2 = if a < i {
            a
        } else {
            a + 1
        };
        let b2 = if b < i {
            b
        } else {
            b + 1
        };
        assert(qs[a] == ps[a2]);
        assert(qs[b] == ps[b2]);
    }
    assert forall|k: int| 0 <= k < qs.len() implies (#[trigger] qs[k]).0@ != ps[i].0@ by {
        let k2 = if k < i {
            k
        } else {
            k + 1
        };
        assert(qs[k] == ps[k2]);
    }
    lemma_session_absent(qs, ps[i].0@);
    assert forall|u: Seq<char>|
        u != ps[i].0@ implies #[trigger] session_lookup(qs, u) == session_lookup(ps, u) by {
        lemma_session_lookup_remove_other(ps, i, u);
    }
}

/// Removing one pair leaves the lookup of every other key unchanged.
proof fn lemma_session_lookup_remove_other(ps: Seq<(String, Index)>, i: int, u: Seq<char>)
    requires
        0 <= i < ps.len(),
        u != ps[i].0@,
    ensures
        session_lookup(ps.remove(i), u) == session_lookup(ps, u),
    decreases ps.len(),
{
    let qs = ps.remove(i);
    if i == ps.len() - 1 {
        assert(qs =~= ps.drop_last());
        assert(ps.last() == ps[ps.len() - 1]);
    } else {
        assert(qs.last() == ps.last());
        assert(qs.drop_last() =~= ps.drop_last().remove(i));
        assert(ps.drop_last()[i] == ps[i]);
        if ps.last().0@ == u {
        } else {
            lemma_session_lookup_remove_other(ps.drop_last(), i, u);
        }
    }
}

} // verus!
