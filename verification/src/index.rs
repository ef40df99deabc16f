//! Chunks and the index over them. The index keeps, beside the chunk list,
//! the per-term document frequency, the number of chunks, and the summed
//! token length; its invariant ties each of these exactly to the chunk
//! list, and extending the index preserves the invariant by merging totals
//! rather than re-scanning old chunks.

use vstd::prelude::*;

use std::hash::{Hash, Hasher};

use crate::segment::{chunk_text, segmented};
use crate::terms::{has_key, lemma_has_key_count, occ, TermCounts};
use crate::terms::bow_tf;
use crate::text::{dec_str, tokenize_lower, tokens_of, usize_to_dec};

verus! {

/// Names the digest that the standard library's default hasher assigns to
/// a text: a fixed function of the characters alone, since every default
/// hasher instance created through `new` hashes identically.
pub uninterp spec fn digest_of(s: Seq<char>) -> u64;

/// Relies on `DefaultHasher` (`new`, `Hash::hash`, `finish`): all
/// instances created through `new` are documented to hash identically, so
/// the digest depends on the text alone; it is named by [`digest_of`].
#[verifier::external_body]
pub fn sip_hash_u64(s: &str) -> (h: u64)
    ensures
        h == digest_of(s@),
{
    let mut hasher = std::collections::hash_map::DefaultHasher::new();
    s.hash(&mut hasher);
    hasher.finish()
}

/// Whether the list holds the digest.
fn seen_contains(v: &Vec<u64>, h: u64) -> (b: bool)
    ensures
        b == v@.to_set().contains(h),
{
    let n = v.len();
    let mut i: usize = 0;
    while i < n
        invariant
            n == v@.len(),
            i <= n,
            forall|k: int| 0 <= k < i ==> v@[k] != h,
        decreases n - i,
    {
        if v[i] == h {
            return true;
        }
        i += 1;
    }
    proof {
        if v@.to_set().contains(h) {
            let k = choose|k: int| 0 <= k < v@.len() && v@[k] == h;
            assert(v@[k] != h);
        }
    }
    false
}

proof fn lemma_push_to_set_u64(s: Seq<u64>, x: u64)
    ensures
        s.push(x).to_set() == s.to_set().insert(x),
{
    assert forall|y: u64| #[trigger] s.push(x).to_set().contains(y) implies s.to_set().insert(
        x,
    ).contains(y) by {
        let k = choose|k: int| 0 <= k < s.push(x).len() && s.push(x)[k] == y;
        if k < s.len() {
            assert(s[k] == y);
        }
    }
    assert forall|y: u64| s.to_set().insert(x).contains(y) implies #[trigger] s.push(x)
        .to_set().contains(y) by {
        if y == x {
            assert(s.push(x)[s.len() as int] == y);
        } else {
            let k = choose|k: int| 0 <= k < s.len() && s[k] == y;
            assert(s.push(x)[k] == y);
        }
    }
    assert(s.push(x).to_set() =~= s.to_set().insert(x));
}

/// The windowed pieces of one source: for each window of the text, the
/// source, the window ordinal, and the window text.
pub open spec fn pair_pieces(url: Seq<char>, text: Seq<char>, target: int, overlap: int) -> Seq<
    (Seq<char>, int, Seq<char>),
> {
    Seq::new(
        segmented(text, target, overlap).len(),
        |i: int| (url, i, segmented(text, target, overlap)[i]),
    )
}

/// All pieces of the source pairs, in order.
pub open spec fn pieces_of(pairs: Seq<(Seq<char>, Seq<char>)>, target: int, overlap: int) -> Seq<
    (Seq<char>, int, Seq<char>),
>
    decreases pairs.len(),
{
    if pairs.len() == 0 {
        Seq::empty()
    } else {
        pair_pieces(pairs[0].0, pairs[0].1, target, overlap) + pieces_of(
            pairs.drop_first(),
            target,
            overlap,
        )
    }
}

/// Keeps the first piece of every digest and drops later pieces whose text
/// digest was already seen.
pub open spec fn dedup_pieces(ps: Seq<(Seq<char>, int, Seq<char>)>, seen: Set<u64>) -> Seq<
    (Seq<char>, int, Seq<char>),
>
    decreases ps.len(),
{
    if ps.len() == 0 {
        Seq::empty()
    } else if seen.contains(digest_of(ps[0].2)) {
        dedup_pieces(ps.drop_first(), seen)
    } else {
        seq![ps[0]] + dedup_pieces(ps.drop_first(), seen.insert(digest_of(ps[0].2)))
    }
}

/// The pieces that survive planning: every window of every pair, with
/// digest-duplicates dropped after their first appearance.
pub open spec fn planned_pieces(
    pairs: Seq<(Seq<char>, Seq<char>)>,
    target: int,
    overlap: int,
) -> Seq<(Seq<char>, int, Seq<char>)> {
    dedup_pieces(pieces_of(pairs, target, overlap), Set::empty())
}

/// The chunk records exactly the piece: same source, the identifier formed
/// from the source and the window ordinal, and the window text.
pub open spec fn chunk_matches(c: Chunk, p: (Seq<char>, int, Seq<char>)) -> bool {
    &&& c.url@ == p.0
    &&& c.text@ == p.2
    &&& c.id@ == p.0 + "#"@ + dec_str(p.1 as nat)
}

/// Law: chunks with pairwise-distinct text digests have pairwise-distinct
/// texts — so within one planning call no chunk text is kept (and later
/// embedded) more than once.
pub proof fn lemma_distinct_digests_distinct_texts(cs: Seq<Chunk>)
    requires
        forall|k1: int, k2: int|
            0 <= k1 < k2 < cs.len() ==> digest_of((#[trigger] cs[k1]).text@) != digest_of(
                (#[trigger] cs[k2]).text@,
            ),
    ensures
        forall|k1: int, k2: int|
            0 <= k1 < k2 < cs.len() ==> (#[trigger] cs[k1]).text@ != (#[trigger] cs[k2]).text@,
{
}

/// One indexed text segment with its derived statistics.
#[derive(Clone)]
pub struct Chunk {
    /// Identifier: the source followed by `#` and the window ordinal.
    pub id: String,
    /// The source (a URL, or a file marker) the text came from.
    pub url: String,
    /// The window text itself.
    pub text: String,
    /// Term frequencies of the window text.
    pub tf: TermCounts,
    /// Number of tokens in the window text.
    pub tok_len: usize,
}

impl Chunk {
    /// The statistics stored with the chunk agree exactly with its text.
    pub open spec fn wf(self) -> bool {
        &&& self.tf.wf()
        &&& forall|t: Seq<char>| #[trigger] self.tf.count(t) == occ(tokens_of(self.text@), t)
        &&& self.tok_len == tokens_of(self.text@).len()
    }
}

/// How many chunks of the list contain term `t` at least once.
pub open spec fn df_count(cs: Seq<Chunk>, t: Seq<char>) -> nat
    decreases cs.len(),
{
    if cs.len() == 0 {
        0
    } else {
        df_count(cs.drop_last(), t) + (if cs.last().tf.count(t) > 0 {
            1nat
        } else {
            0nat
        })
    }
}

/// The set of sources the chunks came from.
pub open spec fn source_set(cs: Seq<Chunk>) -> Set<Seq<char>>
    decreases cs.len(),
{
    if cs.len() == 0 {
        Set::empty()
    } else {
        source_set(cs.drop_last()).insert(cs.last().url@)
    }
}

/// The summed token length of the chunks.
pub open spec fn sum_len(cs: Seq<Chunk>) -> nat
    decreases cs.len(),
{
    if cs.len() == 0 {
        0
    } else {
        sum_len(cs.drop_last()) + (cs.last().tok_len as nat)
    }
}

/// No term is in more chunks than there are chunks.
pub proof fn lemma_df_count_le_len(cs: Seq<Chunk>, t: Seq<char>)
    ensures
        df_count(cs, t) <= cs.len(),
    decreases cs.len(),
{
    if cs.len() > 0 {
        lemma_df_count_le_len(cs.drop_last(), t);
    }
}

/// The summed token length is at most one maximal length per chunk.
pub proof fn lemma_sum_len_bound(cs: Seq<Chunk>)
    ensures
        sum_len(cs) <= cs.len() * (usize::MAX as nat),
    decreases cs.len(),
{
    if cs.len() > 0 {
        lemma_sum_len_bound(cs.drop_last());
        assert(cs.drop_last().len() * (usize::MAX as nat) + (usize::MAX as nat) == cs.len() * (
        usize::MAX as nat)) by (nonlinear_arith)
            requires
                cs.len() >= 1,
                cs.drop_last().len() == cs.len() - 1,
        ;
    }
}

/// Document frequency splits over concatenation.
pub proof fn lemma_df_count_add(a: Seq<Chunk>, b: Seq<Chunk>, t: Seq<char>)
    ensures
        df_count(a + b, t) == df_count(a, t) + df_count(b, t),
    decreases b.len(),
{
    if b.len() == 0 {
        assert(a + b =~= a);
    } else {
        assert((a + b).drop_last() =~= a + b.drop_last());
        assert((a + b).last() == b.last());
        lemma_df_count_add(a, b.drop_last(), t);
    }
}

/// Summed token length splits over concatenation.
pub proof fn lemma_sum_len_add(a: Seq<Chunk>, b: Seq<Chunk>)
    ensures
        sum_len(a + b) == sum_len(a) + sum_len(b),
    decreases b.len(),
{
    if b.len() == 0 {
        assert(a + b =~= a);
    } else {
        assert((a + b).drop_last() =~= a + b.drop_last());
        assert((a + b).last() == b.last());
        lemma_sum_len_add(a, b.drop_last());
    }
}

/// A batch of freshly prepared chunks with its merged statistics, ready to
/// start or extend an index.
pub struct ChunkBatch {
    /// The new chunks, in order of appearance.
    pub chunks: Vec<Chunk>,
    /// Document frequency over exactly these chunks.
    pub df: TermCounts,
    /// Summed token length of these chunks.
    pub total_len: u128,
    /// Number of these chunks.
    pub total_docs: usize,
}

impl ChunkBatch {
    /// The batch statistics agree exactly with its chunk list.
    pub open spec fn wf(self) -> bool {
        &&& forall|i: int| 0 <= i < self.chunks@.len() ==> (#[trigger] self.chunks@[i]).wf()
        &&& self.df.wf()
        &&& forall|t: Seq<char>| #[trigger] self.df.count(t) == df_count(self.chunks@, t)
        &&& self.total_len as nat == sum_len(self.chunks@)
        &&& self.total_docs == self.chunks@.len()
    }
}

/// The per-session index: the chunk list and the corpus statistics over it.
#[derive(Clone)]
pub struct Index {
    /// Model identifier used to embed chunks.
    pub embed_model: String,
    /// Model identifier used for generation.
    pub gen_model: String,
    /// All chunks, in insertion order.
    pub chunks: Vec<Chunk>,
    /// Creation timestamp, as the caller rendered it.
    pub created_at: String,
    /// The URL scope the content was collected under.
    pub source_scope: String,
    /// Document frequency: for each term, the number of chunks holding it.
    pub df: TermCounts,
    /// Number of chunks.
    pub total_docs: usize,
    /// Summed token length over all chunks; the average document length is
    /// this total divided by `total_docs`.
    pub total_len: u128,
}

impl Index {
    /// The index invariant: every statistic agrees exactly with the chunk
    /// list, so that `total_len / total_docs` is the true average length.
    pub open spec fn wf(self) -> bool {
        &&& forall|i: int| 0 <= i < self.chunks@.len() ==> (#[trigger] self.chunks@[i]).wf()
        &&& self.df.wf()
        &&& forall|t: Seq<char>| #[trigger] self.df.count(t) == df_count(self.chunks@, t)
        &&& self.total_len as nat == sum_len(self.chunks@)
        &&& self.total_docs == self.chunks@.len()
    }

    /// Builds a fresh index from one prepared batch.
    pub fn build(
        batch: ChunkBatch,
        embed_model: String,
        gen_model: String,
        created_at: String,
        source_scope: String,
    ) -> (idx: Index)
        requires
            batch.wf(),
        ensures
            idx.wf(),
            idx.chunks@ == batch.chunks@,
            idx.total_docs == batch.total_docs,
            idx.total_len == batch.total_len,
            forall|t: Seq<char>| #[trigger] idx.df.count(t) == batch.df.count(t),
            idx.embed_model@ == embed_model@,
            idx.gen_model@ == gen_model@,
            idx.created_at@ == created_at@,
            idx.source_scope@ == source_scope@,
    {
        Index {
            embed_model,
            gen_model,
            chunks: batch.chunks,
            created_at,
            source_scope,
            df: batch.df,
            total_docs: batch.total_docs,
            total_len: batch.total_len,
        }
    }

    /// How many distinct sources the chunks came from.
    pub fn distinct_source_count(&self) -> (n: usize)
        ensures
            n == source_set(self.chunks@).len(),
    {
        let total = self.chunks.len();
        let mut seen: Vec<String> = Vec::new();
        let mut i: usize = 0;
        proof {
            assert(self.chunks@.take(0) =~= Seq::<Chunk>::empty());
            assert(seen.deep_view() =~= Seq::<Seq<char>>::empty());
            assert(seen.deep_view().to_set() =~= source_set(self.chunks@.take(0)));
        }
        while i < total
            invariant
                total == self.chunks@.len(),
                i <= total,
                seen.deep_view().no_duplicates(),
                seen.deep_view().to_set() == source_set(self.chunks@.take(i as int)),
            decreases total - i,
        {
            proof {
                assert(self.chunks@.take(i + 1).drop_last() =~= self.chunks@.take(i as int));
                assert(self.chunks@.take(i + 1).last() == self.chunks@[i as int]);
            }
            let url = &self.chunks[i].url;
            if !crate::query::vec_contains_str(&seen, url.as_str()) {
                let ghost s0 = seen.deep_view();
                seen.push(url.clone());
                proof {
                    assert(seen.deep_view() =~= s0.push(url@));
                    crate::text::lemma_push_to_set_str(s0, url@);
                    assert forall|a: int, b: int|
                        0 <= a < b < seen.deep_view().len() implies seen.deep_view()[a]
                        != seen.deep_view()[b] by {
                        if b == seen.deep_view().len() - 1 {
                            assert(s0[a] == seen.deep_view()[a]);
                            assert(s0.to_set().contains(s0[a]));
                        } else {
                            assert(s0[a] == seen.deep_view()[a]);
                            assert(s0[b] == seen.deep_view()[b]);
                        }
                    }
                }
            } else {
                proof {
                    assert(seen.deep_view().to_set().insert(self.chunks@[i as int].url@)
                        =~= seen.deep_view().to_set());
                }
            }
            i += 1;
        }
        proof {
            assert(self.chunks@.take(total as int) =~= self.chunks@);
            seen.deep_view().unique_seq_to_set();
        }
        seen.len()
    }

    /// The document frequency of a term.
    pub fn df_of(&self, term: &str) -> (c: usize)
        requires
            self.wf(),
        ensures
            c == self.df.count(term@),
    {
        self.df.count_of(term)
    }

    /// Extends the index with a prepared batch: chunks are appended, the
    /// document count grows by exactly the batch's count, document
    /// frequencies are summed per term, and the summed token length is
    /// merged from the two totals — never recomputed from old chunks.
    pub fn extend(&mut self, batch: ChunkBatch)
        requires
            old(self).wf(),
            batch.wf(),
        ensures
            final(self).wf(),
            final(self).chunks@ == old(self).chunks@ + batch.chunks@,
            final(self).total_docs == old(self).total_docs + batch.total_docs,
            final(self).total_len == old(self).total_len + batch.total_len,
            forall|t: Seq<char>|
                #[trigger] final(self).df.count(t) == old(self).df.count(t) + batch.df.count(t),
            final(self).embed_model == old(self).embed_model,
            final(self).gen_model == old(self).gen_model,
            final(self).created_at == old(self).created_at,
            final(self).source_scope == old(self).source_scope,
    {
        let ghost old_chunks = self.chunks@;
        let ghost batch_chunks = batch.chunks@;
        let mut incoming = batch.chunks;
        self.chunks.append(&mut incoming);
        let combined = self.chunks.len();
        proof {
            assert(self.chunks@ =~= old_chunks + batch_chunks);
        }
        // Merge document frequencies term by term from the batch table.
        let ghost df_before = self.df;
        let n = batch.df.num_terms();
        let mut i: usize = 0;
        while i < n
            invariant
                n == batch.df.spec_pairs().len(),
                i <= n,
                batch.df.wf(),
                self.df.wf(),
                combined == old_chunks.len() + batch_chunks.len(),
                combined == self.chunks@.len(),
                self.chunks@ == old_chunks + batch_chunks,
                df_before.wf(),
                forall|t: Seq<char>| #[trigger] df_before.count(t) == df_count(old_chunks, t),
                forall|t: Seq<char>|
                    #[trigger] batch.df.count(t) == df_count(batch_chunks, t),
                forall|t: Seq<char>|
                    #[trigger] self.df.count(t) == df_before.count(t) + crate::terms::assoc_count(
                        batch.df.spec_pairs().take(i as int),
                        t,
                    ),
                self.embed_model == old(self).embed_model,
                self.gen_model == old(self).gen_model,
                self.created_at == old(self).created_at,
                self.source_scope == old(self).source_scope,
                self.total_docs == old(self).total_docs,
                self.total_len == old(self).total_len,
                self.chunks@ == old(self).chunks@ + batch_chunks,
            decreases n - i,
        {
            let term = batch.df.term_at(i).clone();
            let add = batch.df.count_at(i);
            proof {
                let ps = batch.df.spec_pairs();
                // The term was not among the earlier pairs, so its partial
                // contribution so far is zero.
                assert forall|k: int| 0 <= k < ps.take(i as int).len() implies (#[trigger] ps.take(
                    i as int,
                )[k]).0 != term@ by {
                    assert(ps.take(i as int)[k] == ps[k]);
                }
                crate::terms::lemma_assoc_absent(ps.take(i as int), term@);
                assert(self.df.count(term@) == df_before.count(term@));
                // Bound everything by the combined chunk count.
                lemma_df_count_le_len(old_chunks, term@);
                lemma_df_count_le_len(batch_chunks, term@);
                crate::terms::lemma_assoc_at(ps, term@, i as int);
                assert(add == batch.df.count(term@));
            }
            self.df.add_count(term.as_str(), add);
            proof {
                let ps = batch.df.spec_pairs();
                let pre = ps.take(i as int);
                let post = ps.take(i + 1);
                assert(post.drop_last() =~= pre);
                assert(post.last() == ps[i as int]);
                assert forall|t: Seq<char>|
                    #[trigger] self.df.count(t) == df_before.count(t) + crate::terms::assoc_count(
                        post,
                        t,
                    ) by {
                    if t == term@ {
                        assert(crate::terms::assoc_count(post, t) == add as nat);
                    } else {
                        assert(crate::terms::assoc_count(post, t) == crate::terms::assoc_count(
                            pre,
                            t,
                        ));
                    }
                }
            }
            i += 1;
        }
        proof {
            assert(batch.df.spec_pairs().take(n as int) =~= batch.df.spec_pairs());
            assert forall|t: Seq<char>|
                #[trigger] self.df.count(t) == df_count(self.chunks@, t) by {
                assert(batch.df.count(t) == crate::terms::assoc_count(batch.df.spec_pairs(), t));
                assert(self.df.count(t) == df_before.count(t) + batch.df.count(t));
                lemma_df_count_add(old_chunks, batch_chunks, t);
            }
        }
        // Merge the totals.
        proof {
            lemma_sum_len_bound(old_chunks);
            lemma_sum_len_bound(batch_chunks);
            assert(old_chunks.len() * (usize::MAX as nat) + batch_chunks.len() * (usize::MAX
                as nat) == (old_chunks.len() + batch_chunks.len()) * (usize::MAX as nat))
                by (nonlinear_arith);
            assert((old_chunks.len() + batch_chunks.len()) * (usize::MAX as nat) <= (usize::MAX
                as nat) * (usize::MAX as nat)) by (nonlinear_arith)
                requires
                    old_chunks.len() + batch_chunks.len() <= usize::MAX as nat,
            ;
            assert((usize::MAX as nat) * (usize::MAX as nat) < u128::MAX as nat)
                by (nonlinear_arith)
                requires
                    usize::MAX as nat <= u64::MAX as nat,
            ;
            lemma_sum_len_add(old_chunks, batch_chunks);
        }
        self.total_len = self.total_len + batch.total_len;
        self.total_docs = combined;
    }
}

/// Segments every source pair into windows, drops windows whose exact text
/// (by digest) already appeared earlier in this call, and derives each
/// surviving chunk's statistics. The resulting chunks correspond one to
/// one to the planned pieces, and no two of them share a text digest — so
/// no duplicate text is handed on (to be embedded) twice.
pub fn plan_chunks(pairs: &Vec<(String, String)>, target: usize, overlap: usize) -> (b: ChunkBatch)
    requires
        overlap < target,
    ensures
        b.wf(),
        b.chunks@.len() == planned_pieces(
            pairs.deep_view(),
            target as int,
            overlap as int,
        ).len(),
        forall|k: int|
            0 <= k < b.chunks@.len() ==> chunk_matches(
                #[trigger] b.chunks@[k],
                planned_pieces(pairs.deep_view(), target as int, overlap as int)[k],
            ),
        forall|k1: int, k2: int|
            0 <= k1 < k2 < b.chunks@.len() ==> digest_of((#[trigger] b.chunks@[k1]).text@)
                != digest_of((#[trigger] b.chunks@[k2]).text@),
{
    let ghost pairs_dv = pairs.deep_view();
    let ghost tt = target as int;
    let ghost oo = overlap as int;
    let ghost all = planned_pieces(pairs_dv, tt, oo);
    let mut chunks: Vec<Chunk> = Vec::new();
    let mut df = TermCounts::new();
    let mut total_len: u128 = 0;
    let mut seen: Vec<u64> = Vec::new();
    let ghost mut built: Seq<(Seq<char>, int, Seq<char>)> = Seq::empty();
    let np = pairs.len();
    let mut i: usize = 0;
    proof {
        assert(pairs_dv.skip(0) =~= pairs_dv);
        assert(seen@.to_set() =~= Set::<u64>::empty());
        assert(built + dedup_pieces(pieces_of(pairs_dv, tt, oo), seen@.to_set()) =~= dedup_pieces(
            pieces_of(pairs_dv, tt, oo),
            seen@.to_set(),
        ));
    }
    while i < np
        invariant
            overlap < target,
            tt == target as int,
            oo == overlap as int,
            pairs_dv == pairs.deep_view(),
            all == planned_pieces(pairs_dv, tt, oo),
            np == pairs@.len(),
            i <= np,
            all == built + dedup_pieces(pieces_of(pairs_dv.skip(i as int), tt, oo), seen@.to_set()),
            chunks@.len() == built.len(),
            forall|k: int|
                0 <= k < built.len() ==> chunk_matches(#[trigger] chunks@[k], built[k]),
            forall|k: int| 0 <= k < chunks@.len() ==> (#[trigger] chunks@[k]).wf(),
            df.wf(),
            forall|t: Seq<char>| #[trigger] df.count(t) == df_count(chunks@, t),
            total_len as nat == sum_len(chunks@),
            forall|k: int|
                0 <= k < chunks@.len() ==> seen@.to_set().contains(
                    digest_of((#[trigger] chunks@[k]).text@),
                ),
            forall|k1: int, k2: int|
                0 <= k1 < k2 < chunks@.len() ==> digest_of((#[trigger] chunks@[k1]).text@)
                    != digest_of((#[trigger] chunks@[k2]).text@),
        decreases np - i,
    {
        let ghost rest_pairs = pairs_dv.skip(i as int);
        proof {
            assert(rest_pairs[0] == pairs_dv[i as int]);
            assert(pairs_dv[i as int] == (pairs@[i as int].0@, pairs@[i as int].1@));
            assert(rest_pairs.drop_first() =~= pairs_dv.skip(i + 1));
        }
        let ws = chunk_text(pairs[i].1.as_str(), target, overlap);
        let ghost url_v = pairs@[i as int].0@;
        let ghost pp = pair_pieces(url_v, pairs@[i as int].1@, tt, oo);
        proof {
            assert(ws.deep_view() == segmented(pairs@[i as int].1@, tt, oo));
            assert(pp.len() == ws.deep_view().len());
            assert(pieces_of(rest_pairs, tt, oo) == pp + pieces_of(pairs_dv.skip(i + 1), tt, oo));
            assert(pp.skip(0) =~= pp);
        }
        let nw = ws.len();
        let mut j: usize = 0;
        while j < nw
            invariant
                overlap < target,
                tt == target as int,
                oo == overlap as int,
                pairs_dv == pairs.deep_view(),
                all == planned_pieces(pairs_dv, tt, oo),
                np == pairs@.len(),
                i < np,
                nw == ws@.len(),
                j <= nw,
                url_v == pairs@[i as int].0@,
                pp == pair_pieces(url_v, pairs@[i as int].1@, tt, oo),
                ws.deep_view() == segmented(pairs@[i as int].1@, tt, oo),
                pp.len() == ws@.len(),
                all == built + dedup_pieces(
                    pp.skip(j as int) + pieces_of(pairs_dv.skip(i + 1), tt, oo),
                    seen@.to_set(),
                ),
                chunks@.len() == built.len(),
                forall|k: int|
                    0 <= k < built.len() ==> chunk_matches(#[trigger] chunks@[k], built[k]),
                forall|k: int| 0 <= k < chunks@.len() ==> (#[trigger] chunks@[k]).wf(),
                df.wf(),
                forall|t: Seq<char>| #[trigger] df.count(t) == df_count(chunks@, t),
                total_len as nat == sum_len(chunks@),
                forall|k: int|
                    0 <= k < chunks@.len() ==> seen@.to_set().contains(
                        digest_of((#[trigger] chunks@[k]).text@),
                    ),
                forall|k1: int, k2: int|
                    0 <= k1 < k2 < chunks@.len() ==> digest_of((#[trigger] chunks@[k1]).text@)
                        != digest_of((#[trigger] chunks@[k2]).text@),
            decreases nw - j,
        {
            let ghost rem = pp.skip(j as int) + pieces_of(pairs_dv.skip(i + 1), tt, oo);
            proof {
                assert(pp[j as int] == (url_v, j as int, ws.deep_view()[j as int]));
                assert(rem[0] == pp[j as int]);
                assert(rem.drop_first() =~= pp.skip(j + 1) + pieces_of(
                    pairs_dv.skip(i + 1),
                    tt,
                    oo,
                ));
                assert(ws.deep_view()[j as int] == ws@[j as int]@);
            }
            let h = sip_hash_u64(ws[j].as_str());
            if seen_contains(&seen, h) {
                proof {
                    assert(seen@.to_set().contains(digest_of(rem[0].2)));
                    assert(dedup_pieces(rem, seen@.to_set()) == dedup_pieces(
                        rem.drop_first(),
                        seen@.to_set(),
                    ));
                }
            } else {
                let num = usize_to_dec(j);
                let mut id = pairs[i].0.clone();
                id.append("#");
                id.append(num.as_str());
                let url = pairs[i].0.clone();
                let text = ws[j].clone();
                let tokens = tokenize_lower(text.as_str());
                let tf = bow_tf(&tokens);
                let tok_len = tokens.len();
                let c = Chunk { id, url, text, tf, tok_len };
                proof {
                    assert(tokens.deep_view() == tokens_of(c.text@));
                    assert(c.wf());
                }
                let ghost prev_chunks = chunks@;
                chunks.push(c);
                let lnow = chunks.len();
                proof {
                    assert(chunks@ =~= prev_chunks.push(c));
                    assert(chunks@.drop_last() =~= prev_chunks);
                    assert(lnow == prev_chunks.len() + 1);
                }
                // Update the document frequency: one per distinct term of
                // the new chunk.
                let ghost tfps = c.tf.spec_pairs();
                let ntf = chunks[lnow - 1].tf.num_terms();
                let mut m: usize = 0;
                proof {
                    assert(tfps.take(0) =~= Seq::<(Seq<char>, usize)>::empty());
                    assert forall|t: Seq<char>|
                        #[trigger] df.count(t) == df_count(prev_chunks, t) + (if has_key(
                            tfps.take(0),
                            t,
                        ) {
                            1nat
                        } else {
                            0nat
                        }) by {
                        if has_key(tfps.take(0), t) {
                            let k = choose|k: int|
                                0 <= k < tfps.take(0).len() && (#[trigger] tfps.take(0)[k]).0 == t;
                        }
                    }
                }
                while m < ntf
                    invariant
                        ntf == tfps.len(),
                        m <= ntf,
                        lnow >= 1,
                        lnow == chunks@.len(),
                        chunks@.len() == prev_chunks.len() + 1,
                        chunks@.drop_last() == prev_chunks,
                        chunks@.last().tf.spec_pairs() == tfps,
                        chunks@.last().tf.wf(),
                        chunks@ == prev_chunks.push(chunks@.last()),
                        df.wf(),
                        forall|t: Seq<char>|
                            #[trigger] df.count(t) == df_count(prev_chunks, t) + (if has_key(
                                tfps.take(m as int),
                                t,
                            ) {
                                1nat
                            } else {
                                0nat
                            }),
                    decreases ntf - m,
                {
                    let term = chunks[lnow - 1].tf.term_at(m).clone();
                    proof {
                        assert(term@ == tfps[m as int].0);
                        // The key is fresh among the first `m` pairs.
                        assert(!has_key(tfps.take(m as int), term@)) by {
                            if has_key(tfps.take(m as int), term@) {
                                let k = choose|k: int|
                                    0 <= k < tfps.take(m as int).len() && (#[trigger] tfps.take(
                                        m as int,
                                    )[k]).0 == term@;
                                assert(tfps[k] == tfps.take(m as int)[k]);
                            }
                        }
                        lemma_df_count_le_len(prev_chunks, term@);
                    }
                    df.increment(term.as_str());
                    proof {
                        let pre = tfps.take(m as int);
                        let post = tfps.take(m + 1);
                        assert(post[m as int] == tfps[m as int]);
                        assert forall|t: Seq<char>|
                            #[trigger] df.count(t) == df_count(prev_chunks, t) + (if has_key(
                                post,
                                t,
                            ) {
                                1nat
                            } else {
                                0nat
                            }) by {
                            if t == term@ {
                                assert(has_key(post, t));
                            } else {
                                assert(has_key(post, t) == has_key(pre, t)) by {
                                    if has_key(post, t) {
                                        let k = choose|k: int|
                                            0 <= k < post.len() && (#[trigger] post[k]).0 == t;
                                        assert(k < m);
                                        assert(pre[k] == post[k]);
                                    }
                                    if has_key(pre, t) {
                                        let k = choose|k: int|
                                            0 <= k < pre.len() && (#[trigger] pre[k]).0 == t;
                                        assert(post[k] == pre[k]);
                                    }
                                }
                            }
                        }
                    }
                    m += 1;
                }
                proof {
                    assert(tfps.take(ntf as int) =~= tfps);
                    assert forall|t: Seq<char>|
                        #[trigger] df.count(t) == df_count(chunks@, t) by {
                        lemma_has_key_count(tfps, t);
                        assert(chunks@.last().tf.count(t) == crate::terms::assoc_count(tfps, t));
                        assert(df_count(chunks@, t) == df_count(prev_chunks, t) + (if chunks@
                            .last().tf.count(t) > 0 {
                            1nat
                        } else {
                            0nat
                        }));
                    }
                }
                // Update the summed token length.
                proof {
                    lemma_sum_len_bound(prev_chunks);
                    assert(prev_chunks.len() <= usize::MAX - 1);
                    assert((prev_chunks.len()) * (usize::MAX as nat) + (usize::MAX as nat) <= (
                    usize::MAX as nat) * (usize::MAX as nat)) by (nonlinear_arith)
                        requires
                            prev_chunks.len() <= usize::MAX - 1,
                    ;
                    assert((usize::MAX as nat) * (usize::MAX as nat) < u128::MAX as nat)
                        by (nonlinear_arith)
                        requires
                            usize::MAX as nat <= u64::MAX as nat,
                    ;
                }
                total_len = total_len + (tok_len as u128);
                proof {
                    assert(sum_len(chunks@) == sum_len(prev_chunks) + chunks@.last().tok_len);
                }
                // Record the digest and the planned piece.
                let ghost seen_before = seen@;
                seen.push(h);
                proof {
                    assert(seen@ =~= seen_before.push(h));
                    lemma_push_to_set_u64(seen_before, h);
                    assert(!seen_before.to_set().contains(digest_of(rem[0].2)));
                    assert(dedup_pieces(rem, seen_before.to_set()) == seq![rem[0]]
                        + dedup_pieces(rem.drop_first(), seen_before.to_set().insert(h)));
                }
                proof {
                    let old_built = built;
                    built = built.push(pp[j as int]);
                    assert(old_built + (seq![rem[0]] + dedup_pieces(
                        rem.drop_first(),
                        seen@.to_set(),
                    )) =~= built + dedup_pieces(rem.drop_first(), seen@.to_set()));
                    // The new chunk records the new piece.
                    assert(chunks@.last().id@ == url_v + "#"@ + dec_str(j as nat));
                    assert(chunk_matches(chunks@.last(), pp[j as int]));
                    assert forall|k: int|
                        0 <= k < built.len() implies chunk_matches(
                        #[trigger] chunks@[k],
                        built[k],
                    ) by {
                        if k < old_built.len() {
                            assert(chunks@[k] == prev_chunks[k]);
                            assert(built[k] == old_built[k]);
                        } else {
                            assert(chunks@[k] == chunks@.last());
                        }
                    }
                }
            }
            j += 1;
        }
        proof {
            assert(pp.skip(nw as int) =~= Seq::<(Seq<char>, int, Seq<char>)>::empty());
            assert(pp.skip(nw as int) + pieces_of(pairs_dv.skip(i + 1), tt, oo) =~= pieces_of(
                pairs_dv.skip(i + 1),
                tt,
                oo,
            ));
        }
        i += 1;
    }
    proof {
        assert(pairs_dv.skip(np as int) =~= Seq::<(Seq<char>, Seq<char>)>::empty());
        assert(dedup_pieces(pieces_of(pairs_dv.skip(np as int), tt, oo), seen@.to_set())
            =~= Seq::<(Seq<char>, int, Seq<char>)>::empty());
        assert(built + Seq::<(Seq<char>, int, Seq<char>)>::empty() =~= built);
    }
    let total_docs = chunks.len();
    ChunkBatch { chunks, df, total_len, total_docs }
}

} // verus!
