//! Term-frequency tables. A table maps each term to how often it occurs;
//! it is kept as an association list with pairwise-distinct keys and
//! strictly positive counts, so that a term is stored exactly when its
//! count is positive.

use vstd::prelude::*;

use crate::text::str_eq;

verus! {

/// The count stored for key `t` in an association list, 0 when absent.
pub open spec fn assoc_count(ps: Seq<(Seq<char>, usize)>, t: Seq<char>) -> nat
    decreases ps.len(),
{
    if ps.len() == 0 {
        0
    } else if ps.last().0 == t {
        ps.last().1 as nat
    } else {
        assoc_count(ps.drop_last(), t)
    }
}

/// How often token `t` occurs in `toks`.
pub open spec fn occ(toks: Seq<Seq<char>>, t: Seq<char>) -> nat
    decreases toks.len(),
{
    if toks.len() == 0 {
        0
    } else {
        occ(toks.drop_last(), t) + (if toks.last() == t {
            1nat
        } else {
            0nat
        })
    }
}

/// A token occurs at most as often as there are tokens.
pub proof fn lemma_occ_le_len(toks: Seq<Seq<char>>, t: Seq<char>)
    ensures
        occ(toks, t) <= toks.len(),
    decreases toks.len(),
{
    if toks.len() > 0 {
        lemma_occ_le_len(toks.drop_last(), t);
    }
}

/// Whether some pair of the association list has key `t`.
pub open spec fn has_key(ps: Seq<(Seq<char>, usize)>, t: Seq<char>) -> bool {
    exists|k: int| 0 <= k < ps.len() && (#[trigger] ps[k]).0 == t
}

/// With positive counts, a key is present exactly when its count is.
pub proof fn lemma_has_key_count(ps: Seq<(Seq<char>, usize)>, t: Seq<char>)
    requires
        forall|a: int, b: int|
            0 <= a < b < ps.len() ==> (#[trigger] ps[a]).0 != (#[trigger] ps[b]).0,
        forall|i: int| 0 <= i < ps.len() ==> (#[trigger] ps[i]).1 >= 1,
    ensures
        has_key(ps, t) <==> assoc_count(ps, t) > 0,
{
    if has_key(ps, t) {
        let k = choose|k: int| 0 <= k < ps.len() && (#[trigger] ps[k]).0 == t;
        lemma_assoc_at(ps, t, k);
    } else {
        assert forall|k: int| 0 <= k < ps.len() implies (#[trigger] ps[k]).0 != t by {}
        lemma_assoc_absent(ps, t);
    }
}

/// A term-to-count table.
#[derive(Clone)]
pub struct TermCounts {
    pairs: Vec<(String, usize)>,
}

impl TermCounts {
    /// The table as a sequence of (term, count) pairs.
    pub closed spec fn spec_pairs(self) -> Seq<(Seq<char>, usize)> {
        self.pairs.deep_view()
    }

    /// Well-formed: keys are pairwise distinct and counts positive.
    pub open spec fn wf(self) -> bool {
        &&& forall|i: int, j: int|
            0 <= i < j < self.spec_pairs().len() ==> #[trigger] self.spec_pairs()[i].0
                != #[trigger] self.spec_pairs()[j].0
        &&& forall|i: int|
            0 <= i < self.spec_pairs().len() ==> (#[trigger] self.spec_pairs()[i].1) >= 1
    }

    /// The count recorded for term `t` (0 when absent).
    pub open spec fn count(self, t: Seq<char>) -> nat {
        assoc_count(self.spec_pairs(), t)
    }

    /// The terms of the table, in storage order.
    pub open spec fn terms(self) -> Seq<Seq<char>> {
        self.spec_pairs().map_values(|p: (Seq<char>, usize)| p.0)
    }

    /// An empty table.
    pub fn new() -> (m: TermCounts)
        ensures
            m.wf(),
            m.spec_pairs() == Seq::<(Seq<char>, usize)>::empty(),
            forall|t: Seq<char>| #[trigger] m.count(t) == 0,
    {
        let m = TermCounts { pairs: Vec::new() };
        proof {
            assert(m.spec_pairs() =~= Seq::<(Seq<char>, usize)>::empty());
        }
        m
    }

    /// Number of distinct terms.
    pub fn num_terms(&self) -> (n: usize)
        ensures
            n == self.spec_pairs().len(),
    {
        self.pairs.len()
    }

    /// The `i`-th stored term.
    pub fn term_at(&self, i: usize) -> (t: &String)
        requires
            i < self.spec_pairs().len(),
        ensures
            t@ == self.terms()[i as int],
            t@ == self.spec_pairs()[i as int].0,
    {
        &self.pairs[i].0
    }

    /// The count of the `i`-th stored term.
    pub fn count_at(&self, i: usize) -> (c: usize)
        requires
            i < self.spec_pairs().len(),
        ensures
            c == self.spec_pairs()[i as int].1,
    {
        self.pairs[i].1
    }

    /// Looks the term up.
    pub fn count_of(&self, term: &str) -> (c: usize)
        requires
            self.wf(),
        ensures
            c == self.count(term@),
    {
        let n = self.pairs.len();
        let mut i: usize = 0;
        while i < n
            invariant
                n == self.spec_pairs().len(),
                i <= n,
                self.wf(),
                forall|k: int| 0 <= k < i ==> (#[trigger] self.spec_pairs()[k]).0 != term@,
            decreases n - i,
        {
            if str_eq(self.pairs[i].0.as_str(), term) {
                proof {
                    lemma_assoc_at(self.spec_pairs(), term@, i as int);
                }
                return self.pairs[i].1;
            }
            i += 1;
        }
        proof {
            lemma_assoc_absent(self.spec_pairs(), term@);
        }
        0
    }

    /// Raises the count of `t` by `k >= 1` (inserting it at `k` when
    /// absent).
    pub fn add_count(&mut self, t: &str, k: usize)
        requires
            old(self).wf(),
            k >= 1,
            old(self).count(t@) + k <= usize::MAX,
        ensures
            final(self).wf(),
            final(self).count(t@) == old(self).count(t@) + k,
            forall|u: Seq<char>| u != t@ ==> #[trigger] final(self).count(u) == old(self).count(u),
    {
        let n = self.pairs.len();
        let mut i: usize = 0;
        while i < n
            invariant
                n == self.spec_pairs().len(),
                i <= n,
                self.wf(),
                self == old(self),
                k >= 1,
                old(self).count(t@) + k <= usize::MAX,
                forall|j: int| 0 <= j < i ==> (#[trigger] self.spec_pairs()[j]).0 != t@,
            decreases n - i,
        {
            if str_eq(self.pairs[i].0.as_str(), t) {
                proof {
                    assert(self.spec_pairs()[i as int].0 == self.pairs@[i as int].0@);
                    lemma_assoc_at(self.spec_pairs(), t@, i as int);
                    assert(self.count(t@) == self.spec_pairs()[i as int].1);
                }
                let key = self.pairs[i].0.clone();
                let c = self.pairs[i].1;
                proof {
                    assert(self.spec_pairs()[i as int].1 == self.pairs@[i as int].1);
                    assert(c + k <= usize::MAX);
                }
                let ghost old_ps = self.spec_pairs();
                self.pairs.set(i, (key, c + k));
                proof {
                    assert(self.spec_pairs() =~= old_ps.update(i as int, (t@, (c + k) as usize)));
                    lemma_assoc_update(old_ps, t@, i as int, (c + k) as usize);
                }
                return ;
            }
            i += 1;
        }
        proof {
            lemma_assoc_absent(self.spec_pairs(), t@);
        }
        let ghost old_ps = self.spec_pairs();
        self.pairs.push((t.to_owned(), k));
        proof {
            assert(self.spec_pairs() =~= old_ps.push((t@, k)));
            lemma_assoc_push(old_ps, t@, k);
        }
    }

    /// Raises the count of `t` by one (inserting it at 1 when absent).
    pub fn increment(&mut self, t: &str)
        requires
            old(self).wf(),
            old(self).count(t@) < usize::MAX,
        ensures
            final(self).wf(),
            final(self).count(t@) == old(self).count(t@) + 1,
            forall|u: Seq<char>| u != t@ ==> #[trigger] final(self).count(u) == old(self).count(u),
    {
        self.add_count(t, 1);
    }

    /// A positive count and membership among the stored terms coincide.
    pub proof fn lemma_count_positive(self, t: Seq<char>)
        requires
            self.wf(),
        ensures
            self.count(t) > 0 <==> self.terms().contains(t),
    {
        if self.terms().contains(t) {
            let i = choose|i: int|
                0 <= i < self.terms().len() && #[trigger] self.terms()[i] == t;
            lemma_assoc_at(self.spec_pairs(), t, i);
        } else {
            assert forall|k: int| 0 <= k < self.spec_pairs().len() implies (
            #[trigger] self.spec_pairs()[k]).0 != t by {
                assert(self.terms()[k] == self.spec_pairs()[k].0);
            }
            lemma_assoc_absent(self.spec_pairs(), t);
        }
    }
}

/// With distinct keys, the stored pair gives the count.
pub proof fn lemma_assoc_at(ps: Seq<(Seq<char>, usize)>, t: Seq<char>, i: int)
    requires
        forall|a: int, b: int|
            0 <= a < b < ps.len() ==> (#[trigger] ps[a]).0 != (#[trigger] ps[b]).0,
        0 <= i < ps.len(),
        ps[i].0 == t,
    ensures
        assoc_count(ps, t) == ps[i].1,
    decreases ps.len(),
{
    if i == ps.len() - 1 {
    } else {
        assert(ps.last() == ps[ps.len() - 1]);
        assert(ps.last().0 != t);
        assert(ps.drop_last()[i] == ps[i]);
        lemma_assoc_at(ps.drop_last(), t, i);
    }
}

/// A key stored nowhere counts 0.
pub proof fn lemma_assoc_absent(ps: Seq<(Seq<char>, usize)>, t: Seq<char>)
    requires
        forall|k: int| 0 <= k < ps.len() ==> (#[trigger] ps[k]).0 != t,
    ensures
        assoc_count(ps, t) == 0,
    decreases ps.len(),
{
    if ps.len() > 0 {
        assert(ps.last() == ps[ps.len() - 1]);
        assert forall|k: int| 0 <= k < ps.drop_last().len() implies (
        #[trigger] ps.drop_last()[k]).0 != t by {
            assert(ps.drop_last()[k] == ps[k]);
        }
        lemma_assoc_absent(ps.drop_last(), t);
    }
}

/// Updating the pair that holds key `t` sets its count and keeps others.
pub proof fn lemma_assoc_update(ps: Seq<(Seq<char>, usize)>, t: Seq<char>, i: int, v: usize)
    requires
        forall|a: int, b: int|
            0 <= a < b < ps.len() ==> (#[trigger] ps[a]).0 != (#[trigger] ps[b]).0,
        0 <= i < ps.len(),
        ps[i].0 == t,
    ensures
        forall|u: Seq<char>|
            #[trigger] assoc_count(ps.update(i, (t, v)), u) == if u == t {
                v as nat
            } else {
                assoc_count(ps, u)
            },
    decreases ps.len(),
{
    let ps2 = ps.update(i, (t, v));
    assert forall|u: Seq<char>| #[trigger] assoc_count(ps2, u) == (if u == t {
        v as nat
    } else {
        assoc_count(ps, u)
    }) by {
        if i == ps.len() - 1 {
            assert(ps2.last() == (t, v));
            if u != t {
                assert(ps2.drop_last() =~= ps.drop_last());
                assert(ps.last().0 == t);
            }
        } else {
            assert(ps2.last() == ps.last());
            assert(ps.last().0 != t);
            assert(ps2.drop_last() =~= ps.drop_last().update(i, (t, v)));
            assert forall|a: int, b: int|
                0 <= a < b < ps.drop_last().len() implies (#[trigger] ps.drop_last()[a]).0 != (
            #[trigger] ps.drop_last()[b]).0 by {
                assert(ps.drop_last()[a] == ps[a]);
                assert(ps.drop_last()[b] == ps[b]);
            }
            assert(ps.drop_last()[i] == ps[i]);
            lemma_assoc_update(ps.drop_last(), t, i, v);
            if u == ps.last().0 {
            } else {
                assert(assoc_count(ps2, u) == assoc_count(ps2.drop_last(), u));
            }
        }
    }
}

/// Appending a fresh key sets its count and keeps others.
pub proof fn lemma_assoc_push(ps: Seq<(Seq<char>, usize)>, t: Seq<char>, v: usize)
    ensures
        forall|u: Seq<char>|
            #[trigger] assoc_count(ps.push((t, v)), u) == if u == t {
                v as nat
            } else {
                assoc_count(ps, u)
            },
{
    let ps2 = ps.push((t, v));
    assert forall|u: Seq<char>| #[trigger] assoc_count(ps2, u) == (if u == t {
        v as nat
    } else {
        assoc_count(ps, u)
    }) by {
        assert(ps2.last() == (t, v));
        if u != t {
            assert(ps2.drop_last() =~= ps);
        }
    }
}

/// Counts each token of the list: the table holding exactly the
/// occurrence counts of `tokens`.
pub fn bow_tf(tokens: &Vec<String>) -> (m: TermCounts)
    ensures
        m.wf(),
        forall|t: Seq<char>| #[trigger] m.count(t) == occ(tokens.deep_view(), t),
{
    let n = tokens.len();
    let mut m = TermCounts::new();
    let mut i: usize = 0;
    proof {
        assert forall|t: Seq<char>| #[trigger] m.count(t) == occ(
            tokens.deep_view().take(0),
            t,
        ) by {
            assert(tokens.deep_view().take(0) =~= Seq::<Seq<char>>::empty());
        }
    }
    while i < n
        invariant
            n == tokens@.len(),
            i <= n,
            m.wf(),
            forall|t: Seq<char>| #[trigger] m.count(t) == occ(tokens.deep_view().take(i as int), t),
        decreases n - i,
    {
        let ghost pre = tokens.deep_view().take(i as int);
        let tok = &tokens[i];
        proof {
            lemma_occ_le_len(pre, tok@);
            assert(m.count(tok@) == occ(pre, tok@));
        }
        m.increment(tok.as_str());
        proof {
            let post = tokens.deep_view().take(i + 1);
            assert(post.drop_last() =~= pre);
            assert(post.last() == tokens.deep_view()[i as int]);
            assert(tokens.deep_view()[i as int] == tok@);
            assert forall|t: Seq<char>| #[trigger] m.count(t) == occ(post, t) by {
                if t == tok@ {
                    assert(occ(post, t) == occ(pre, t) + 1);
                } else {
                    assert(occ(post, t) == occ(pre, t));
                }
            }
        }
        i += 1;
    }
    proof {
        assert(tokens.deep_view().take(n as int) =~= tokens.deep_view());
    }
    m
}

} // verus!
