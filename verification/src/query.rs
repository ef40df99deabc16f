//! Query-term expansion: the tokens of the question plus domain synonyms
//! injected by fixed substring-triggered rules, kept as one ordered list of
//! distinct terms.

use vstd::prelude::*;

use crate::text::{chars_of, contains_lit, contains_seq, lower_seq, lower_vec, str_eq, tokens_of,
    tokenize_lower};

verus! {

/// Pairwise-distinct term lists.
pub open spec fn distinct_strs(ss: Seq<Seq<char>>) -> bool {
    forall|i: int, j: int| 0 <= i < j < ss.len() ==> ss[i] != ss[j]
}

/// The synonym terms that the lower-cased question text triggers.
pub open spec fn query_synonyms(lq: Seq<char>) -> Set<Seq<char>> {
    (if contains_seq(lq, "incharge"@) || contains_seq(lq, "in charge"@) {
        set!["responsible"@, "contact"@, "head"@]
    } else {
        Set::empty()
    }).union(
        if contains_seq(lq, "admission"@) || contains_seq(lq, "admissions"@) {
            set!["enrolment"@, "studierendensekretariat"@, "admissions"@, "admissions office"@]
        } else {
            Set::empty()
        },
    ).union(
        if contains_seq(lq, "uniassist"@) || contains_seq(lq, "uni-assist"@) || contains_seq(
            lq,
            "uni assist"@,
        ) {
            set!["uni-assist"@]
        } else {
            Set::empty()
        },
    ).union(
        if contains_seq(lq, "aps"@) {
            set!["akademische"@, "pr\u{fc}fstelle"@]
        } else {
            Set::empty()
        },
    ).union(
        if contains_seq(lq, "deadline"@) || contains_seq(lq, "last date"@) || contains_seq(
            lq,
            "closing date"@,
        ) {
            set!["application"@, "closing"@, "date"@]
        } else {
            Set::empty()
        },
    ).union(
        if contains_seq(lq, "ects"@) || contains_seq(lq, "credit"@) || contains_seq(
            lq,
            "credits"@,
        ) || contains_seq(lq, "points"@) {
            set!["ects"@, "credit"@, "module"@, "thesis"@]
        } else {
            Set::empty()
        },
    )
}

/// The full expanded term set of a question: its tokens plus the triggered
/// synonyms.
pub open spec fn expanded_terms(q: Seq<char>) -> Set<Seq<char>> {
    tokens_of(q).to_set().union(query_synonyms(lower_seq(q)))
}

/// Whether some element of the list reads `s`.
pub fn vec_contains_str(v: &Vec<String>, s: &str) -> (b: bool)
    ensures
        b == v.deep_view().contains(s@),
{
    let n = v.len();
    let mut i: usize = 0;
    while i < n
        invariant
            n == v@.len(),
            i <= n,
            forall|k: int| 0 <= k < i ==> v.deep_view()[k] != s@,
        decreases n - i,
    {
        if str_eq(v[i].as_str(), s) {
            proof {
                assert(v.deep_view()[i as int] == s@);
            }
            return true;
        }
        i += 1;
    }
    proof {
        if v.deep_view().contains(s@) {
            let k = choose|k: int| 0 <= k < v.deep_view().len() && v.deep_view()[k] == s@;
            assert(v.deep_view()[k] != s@);
        }
    }
    false
}

/// Appends `s` unless the list already holds it; the set of terms grows by
/// exactly `s`, and distinctness is preserved.
fn push_unique(v: &mut Vec<String>, s: &str)
    requires
        distinct_strs(old(v).deep_view()),
    ensures
        distinct_strs(final(v).deep_view()),
        final(v).deep_view().to_set() == old(v).deep_view().to_set().insert(s@),
{
    let present = vec_contains_str(v, s);
    if !present {
        let ghost old_dv = v.deep_view();
        v.push(s.to_owned());
        proof {
            assert(v.deep_view() =~= old_dv.push(s@));
            assert forall|y: Seq<char>| #[trigger] v.deep_view().to_set().contains(y) implies
                old_dv.to_set().insert(s@).contains(y) by {
                let k = choose|k: int|
                    0 <= k < v.deep_view().len() && v.deep_view()[k] == y;
                if k < old_dv.len() {
                    assert(old_dv[k] == y);
                }
            }
            assert forall|y: Seq<char>| old_dv.to_set().insert(s@).contains(y) implies #[trigger] v
                .deep_view().to_set().contains(y) by {
                if y == s@ {
                    assert(v.deep_view()[old_dv.len() as int] == y);
                } else {
                    let k = choose|k: int| 0 <= k < old_dv.len() && old_dv[k] == y;
                    assert(v.deep_view()[k] == y);
                }
            }
            assert(v.deep_view().to_set() =~= old_dv.to_set().insert(s@));
        }
    } else {
        proof {
            assert(v.deep_view().to_set() =~= v.deep_view().to_set().insert(s@));
        }
    }
}

/// Tokenizes the question and adds the synonym terms of every triggered
/// rule; the result lists each expanded term exactly once.
pub fn expand_query_terms(q: &str) -> (r: Vec<String>)
    ensures
        distinct_strs(r.deep_view()),
        r.deep_view().to_set() == expanded_terms(q@),
{
    let qv = chars_of(q);
    let lq = lower_vec(&qv);
    let toks = tokenize_lower(q);
    let mut out: Vec<String> = Vec::new();
    let n = toks.len();
    let mut i: usize = 0;
    proof {
        assert(out.deep_view().to_set() =~= toks.deep_view().take(0).to_set());
    }
    while i < n
        invariant
            n == toks@.len(),
            i <= n,
            distinct_strs(out.deep_view()),
            out.deep_view().to_set() == toks.deep_view().take(i as int).to_set(),
        decreases n - i,
    {
        push_unique(&mut out, toks[i].as_str());
        proof {
            let pre = toks.deep_view().take(i as int);
            let post = toks.deep_view().take(i + 1);
            assert(post.drop_last() =~= pre);
            assert(post.last() == toks.deep_view()[i as int]);
            assert forall|y: Seq<char>| #[trigger] post.to_set().contains(y) implies pre.to_set()
                .insert(toks.deep_view()[i as int]).contains(y) by {
                let k = choose|k: int| 0 <= k < post.len() && post[k] == y;
                if k < pre.len() {
                    assert(pre[k] == y);
                }
            }
            assert forall|y: Seq<char>|
                pre.to_set().insert(toks.deep_view()[i as int]).contains(y) implies #[trigger] post
                .to_set().contains(y) by {
                if y == toks.deep_view()[i as int] {
                    assert(post[pre.len() as int] == y);
                } else {
                    let k = choose|k: int| 0 <= k < pre.len() && pre[k] == y;
                    assert(post[k] == y);
                }
            }
            assert(post.to_set() =~= pre.to_set().insert(toks.deep_view()[i as int]));
        }
        i += 1;
    }
    proof {
        assert(toks.deep_view().take(n as int) =~= toks.deep_view());
        assert(toks.deep_view() == tokens_of(q@));
        assert(lq@ == lower_seq(q@));
    }
    if contains_lit(&lq, "incharge") || contains_lit(&lq, "in charge") {
        push_unique(&mut out, "responsible");
        push_unique(&mut out, "contact");
        push_unique(&mut out, "head");
    }
    if contains_lit(&lq, "admission") || contains_lit(&lq, "admissions") {
        push_unique(&mut out, "enrolment");
        push_unique(&mut out, "studierendensekretariat");
        push_unique(&mut out, "admissions");
        push_unique(&mut out, "admissions office");
    }
    if contains_lit(&lq, "uniassist") || contains_lit(&lq, "uni-assist") || contains_lit(
        &lq,
        "uni assist",
    ) {
        push_unique(&mut out, "uni-assist");
    }
    if contains_lit(&lq, "aps") {
        push_unique(&mut out, "akademische");
        push_unique(&mut out, "pr\u{fc}fstelle");
    }
    if contains_lit(&lq, "deadline") || contains_lit(&lq, "last date") || contains_lit(
        &lq,
        "closing date",
    ) {
        push_unique(&mut out, "application");
        push_unique(&mut out, "closing");
        push_unique(&mut out, "date");
    }
    if contains_lit(&lq, "ects") || contains_lit(&lq, "credit") || contains_lit(&lq, "credits")
        || contains_lit(&lq, "points") {
        push_unique(&mut out, "ects");
        push_unique(&mut out, "credit");
        push_unique(&mut out, "module");
        push_unique(&mut out, "thesis");
    }
    proof {
        assert(out.deep_view().to_set() =~= expanded_terms(q@));
    }
    out
}

} // verus!
