//! The deterministic ingredients of the hybrid reranker: the additive
//! keyword bonus (pattern matches between question and chunk, in tenths,
//! capped at 2.0), the stage-one candidate floor, the retrieval depth of a
//! question, the primary source, and the answer's source list.

use vstd::prelude::*;

use crate::query::vec_contains_str;
use crate::text::{char_is_alnum, chars_of, contains_chars, contains_lit, contains_seq,
    is_alnum, is_digit, is_digit_char, is_lower_char, is_upper_char, lower_seq, lower_vec,
    slice_chars};

verus! {

/// A word character in the sense of the digit-boundary rule: alphanumeric
/// or an underscore.
pub open spec fn word_char(c: char) -> bool {
    is_alnum(c) || c == '_'
}

/// A capitalized pair of words somewhere in the text: an ASCII uppercase
/// letter at `a`, lowercase letters up to the space at `m`, then again an
/// uppercase letter followed by a lowercase one.
pub open spec fn name_match_at(t: Seq<char>, a: int, m: int) -> bool {
    &&& 0 <= a
    &&& a + 1 < m
    &&& m + 2 < t.len()
    &&& is_upper_char(t[a])
    &&& forall|j: int| a < j < m ==> is_lower_char(#[trigger] t[j])
    &&& t[m] == ' '
    &&& is_upper_char(t[m + 1])
    &&& is_lower_char(t[m + 2])
}

/// The text holds a capitalized two-word sequence.
pub open spec fn spec_name_pattern(t: Seq<char>) -> bool {
    exists|a: int, m: int| name_match_at(t, a, m)
}

/// Scans for a capitalized two-word sequence.
pub fn name_pattern(t: &Vec<char>) -> (b: bool)
    ensures
        b == spec_name_pattern(t@),
{
    let n = t.len();
    let mut a: usize = 0;
    while a < n
        invariant
            n == t@.len(),
            a <= n,
            forall|a2: int, m: int| 0 <= a2 < a ==> !name_match_at(t@, a2, m),
        decreases n - a,
    {
        if 'A' <= t[a] && t[a] <= 'Z' {
            // Measure the lowercase run after `a`.
            let mut k: usize = a + 1;
            while k < n && 'a' <= t[k] && t[k] <= 'z'
                invariant
                    n == t@.len(),
                    a + 1 <= k <= n,
                    forall|j: int| a < j < k ==> is_lower_char(#[trigger] t@[j]),
                decreases n - k,
            {
                k += 1;
            }
            if k > a + 1 && k < n && n - k > 2 && t[k] == ' ' && 'A' <= t[k + 1] && t[k + 1] <= 'Z'
                && 'a' <= t[k + 2] && t[k + 2] <= 'z' {
                proof {
                    assert(name_match_at(t@, a as int, k as int));
                }
                return true;
            }
            proof {
                assert forall|m: int| !name_match_at(t@, a as int, m) by {
                    if name_match_at(t@, a as int, m) {
                        // The lowercase run ends exactly at `k`.
                        if m < k {
                            assert(is_lower_char(t@[m]));
                        } else if m > k {
                            assert(is_lower_char(t@[k as int]));
                        }
                    }
                }
            }
        } else {
            proof {
                assert forall|m: int| !name_match_at(t@, a as int, m) by {}
            }
        }
        a += 1;
    }
    proof {
        if spec_name_pattern(t@) {
            let (a2, m) = choose|a2: int, m: int| name_match_at(t@, a2, m);
            assert(a2 < n);
        }
    }
    false
}

/// `room`, optional whitespace, then at least one decimal digit, somewhere
/// in the (lower-cased) text.
pub open spec fn room_match_at(t: Seq<char>, i: int, g: int) -> bool {
    &&& 0 <= i
    &&& i + 4 <= g
    &&& g < t.len()
    &&& t.subrange(i, i + 4) == "room"@
    &&& forall|j: int| i + 4 <= j < g ==> crate::text::is_ws_char(#[trigger] t[j])
    &&& is_digit_char(t[g])
}

/// The text holds a room-number pattern.
pub open spec fn spec_room_pattern(t: Seq<char>) -> bool {
    exists|i: int, g: int| room_match_at(t, i, g)
}

/// Scans for a room-number pattern.
pub fn room_pattern(t: &Vec<char>) -> (b: bool)
    ensures
        b == spec_room_pattern(t@),
{
    let n = t.len();
    if n < 5 {
        proof {
            if spec_room_pattern(t@) {
                let (i, g) = choose|i: int, g: int| room_match_at(t@, i, g);
            }
        }
        return false;
    }
    let room = chars_of("room");
    proof {
        reveal_strlit("room");
    }
    let mut i: usize = 0;
    while i <= n - 5
        invariant
            n == t@.len(),
            n >= 5,
            room@ == "room"@,
            "room"@.len() == 4,
            i <= n,
            forall|i2: int, g: int| 0 <= i2 < i ==> !room_match_at(t@, i2, g),
        decreases n - i,
    {
        let here = crate::text::matches_at(t, i, &room);
        if here {
            // Measure the whitespace run after the word.
            let mut k: usize = i + 4;
            while k < n && crate::text::is_ws(t[k])
                invariant
                    n == t@.len(),
                    i + 4 <= k <= n,
                    forall|j: int| i + 4 <= j < k ==> crate::text::is_ws_char(#[trigger] t@[j]),
                decreases n - k,
            {
                k += 1;
            }
            if k < n && is_digit(t[k]) {
                proof {
                    assert(room_match_at(t@, i as int, k as int));
                }
                return true;
            }
            proof {
                assert forall|g: int| !room_match_at(t@, i as int, g) by {
                    if room_match_at(t@, i as int, g) {
                        if g < k {
                            assert(crate::text::is_ws_char(t@[g]));
                        } else if g > k {
                            if k < n {
                                assert(crate::text::is_ws_char(t@[k as int]));
                            }
                        }
                    }
                }
            }
        } else {
            proof {
                assert forall|g: int| !room_match_at(t@, i as int, g) by {
                    if room_match_at(t@, i as int, g) {
                        assert(t@.subrange(i as int, i + 4) == "room"@);
                    }
                }
            }
        }
        i += 1;
    }
    proof {
        if spec_room_pattern(t@) {
            let (i2, g) = choose|i2: int, g: int| room_match_at(t@, i2, g);
            assert(i2 <= n - 5);
        }
    }
    false
}

/// Length of the leading run of decimal digits.
pub open spec fn dlen(cs: Seq<char>) -> nat
    decreases cs.len(),
{
    if cs.len() == 0 {
        0
    } else if is_digit_char(cs[0]) {
        1 + dlen(cs.drop_first())
    } else {
        0
    }
}

proof fn lemma_dlen_le(cs: Seq<char>)
    ensures
        dlen(cs) <= cs.len(),
    decreases cs.len(),
{
    if cs.len() > 0 && is_digit_char(cs[0]) {
        lemma_dlen_le(cs.drop_first());
    }
}

/// The standalone small numbers of the text: maximal decimal-digit runs
/// of at most three digits whose neighbours are not word characters.
/// `prev_word` says whether the character before `cs` was a word
/// character.
pub open spec fn num_runs_from(cs: Seq<char>, prev_word: bool) -> Seq<Seq<char>>
    decreases cs.len(),
    via num_runs_from_decreases
{
    if cs.len() == 0 {
        Seq::empty()
    } else if is_digit_char(cs[0]) && !prev_word {
        let d = dlen(cs) as int;
        let run = cs.take(d);
        let rest = cs.skip(d);
        (if d <= 3 && (rest.len() == 0 || !word_char(rest[0])) {
            seq![run]
        } else {
            Seq::empty()
        }) + num_runs_from(rest, true)
    } else {
        num_runs_from(cs.drop_first(), word_char(cs[0]))
    }
}

#[via_fn]
proof fn num_runs_from_decreases(cs: Seq<char>, prev_word: bool) {
    if cs.len() > 0 && is_digit_char(cs[0]) && !prev_word {
        lemma_dlen_le(cs);
    }
}

/// How many of the runs occur in the chunk text or in its source.
pub open spec fn num_hits(runs: Seq<Seq<char>>, lt: Seq<char>, lu: Seq<char>) -> nat
    decreases runs.len(),
{
    if runs.len() == 0 {
        0
    } else {
        (if contains_seq(lt, runs[0]) || contains_seq(lu, runs[0]) {
            1nat
        } else {
            0nat
        }) + num_hits(runs.drop_first(), lt, lu)
    }
}

proof fn lemma_num_hits_le(runs: Seq<Seq<char>>, lt: Seq<char>, lu: Seq<char>)
    ensures
        num_hits(runs, lt, lu) <= runs.len(),
    decreases runs.len(),
{
    if runs.len() > 0 {
        lemma_num_hits_le(runs.drop_first(), lt, lu);
    }
}

/// Counts the standalone small numbers of `lq` that occur in `lt` or
/// `lu`.
fn count_number_hits(lq: &Vec<char>, lt: &Vec<char>, lu: &Vec<char>) -> (h: usize)
    ensures
        h == num_hits(num_runs_from(lq@, false), lt@, lu@),
{
    let n = lq.len();
    let mut h: usize = 0;
    let mut i: usize = 0;
    let mut prev_word: bool = false;
    proof {
        assert(lq@.skip(0) =~= lq@);
        lemma_num_hits_le(num_runs_from(lq@, false), lt@, lu@);
    }
    while i < n
        invariant
            n == lq@.len(),
            i <= n,
            h <= i,
            num_hits(num_runs_from(lq@, false), lt@, lu@) == h + num_hits(
                num_runs_from(lq@.skip(i as int), prev_word),
                lt@,
                lu@,
            ),
        decreases n - i,
    {
        let ghost pre = lq@.skip(i as int);
        let c = lq[i];
        proof {
            assert(pre[0] == lq@[i as int]);
            assert(pre.drop_first() =~= lq@.skip(i + 1));
        }
        if is_digit(c) && !prev_word {
            // Measure the digit run.
            let mut k: usize = i;
            while k < n && is_digit(lq[k])
                invariant
                    n == lq@.len(),
                    i <= k <= n,
                    forall|j: int| i <= j < k ==> is_digit_char(#[trigger] lq@[j]),
                decreases n - k,
            {
                k += 1;
            }
            let d = k - i;
            proof {
                lemma_dlen_at(lq@, i as int, k as int);
                assert(dlen(pre) == d);
                assert(pre.skip(d as int) =~= lq@.skip(k as int));
                assert(pre.take(d as int) =~= lq@.subrange(i as int, k as int));
            }
            let eligible = if d <= 3 {
                if k == n {
                    true
                } else {
                    let after = lq[k];
                    let word = char_is_alnum(after) || after == '_';
                    !word
                }
            } else {
                false
            };
            let mut hit_here: bool = false;
            if eligible {
                let run = slice_chars(lq, i, k);
                if contains_chars(lt, &run) || contains_chars(lu, &run) {
                    hit_here = true;
                }
            }
            proof {
                let d2 = dlen(pre) as int;
                let rest = pre.skip(d2);
                let runv = pre.take(d2);
                assert(rest =~= lq@.skip(k as int));
                if eligible {
                    assert(num_runs_from(pre, false) == seq![runv] + num_runs_from(rest, true));
                    assert((seq![runv] + num_runs_from(rest, true)).drop_first()
                        =~= num_runs_from(rest, true));
                    assert((seq![runv] + num_runs_from(rest, true))[0] == runv);
                } else {
                    assert(num_runs_from(pre, false) == num_runs_from(rest, true));
                }
            }
            if hit_here {
                h += 1;
            }
            i = k;
            prev_word = true;
        } else {
            let w = char_is_alnum(c) || c == '_';
            proof {
                assert(num_runs_from(pre, prev_word) == num_runs_from(
                    lq@.skip(i + 1),
                    word_char(lq@[i as int]),
                ));
            }
            prev_word = w;
            i += 1;
        }
    }
    proof {
        assert(lq@.skip(n as int) =~= Seq::<char>::empty());
    }
    h
}

/// The weight a trigger word earns when the question mentions it and the
/// chunk text or its source does too.
pub open spec fn hit_bonus(lq: Seq<char>, lt: Seq<char>, lu: Seq<char>, h: Seq<char>, w: nat) -> nat {
    if contains_seq(lq, h) && (contains_seq(lt, h) || contains_seq(lu, h)) {
        w
    } else {
        0
    }
}

/// The weight-9 trigger words' joint contribution.
pub open spec fn curriculum_bonus(lq: Seq<char>, lt: Seq<char>, lu: Seq<char>) -> nat {
    hit_bonus(lq, lt, lu, "ects"@, 9) + hit_bonus(lq, lt, lu, "credit"@, 9) + hit_bonus(lq, lt, lu, "credits"@, 9) + hit_bonus(lq, lt, lu, "thesis"@, 9) + hit_bonus(lq, lt, lu, "module"@, 9) + hit_bonus(lq, lt, lu, "modules"@, 9) + hit_bonus(lq, lt, lu, "study plan"@, 9) + hit_bonus(lq, lt, lu, "curriculum"@, 9) + hit_bonus(lq, lt, lu, "program structure"@, 9) + hit_bonus(lq, lt, lu, "pflichtbereich"@, 9) + hit_bonus(lq, lt, lu, "wahlpflichtbereich"@, 9)
}

/// The weight-8 trigger words' joint contribution.
pub open spec fn application_bonus(lq: Seq<char>, lt: Seq<char>, lu: Seq<char>) -> nat {
    hit_bonus(lq, lt, lu, "uni-assist"@, 8) + hit_bonus(lq, lt, lu, "uni assist"@, 8) + hit_bonus(lq, lt, lu, "aps"@, 8) + hit_bonus(lq, lt, lu, "application deadline"@, 8) + hit_bonus(lq, lt, lu, "admissions office"@, 8) + hit_bonus(lq, lt, lu, "studierendensekretariat"@, 8)
}

#[verifier::rlimit(100)]
fn curriculum_bonus_of(lq: &Vec<char>, lt: &Vec<char>, lu: &Vec<char>) -> (s: u32)
    ensures
        s == curriculum_bonus(lq@, lt@, lu@),
        s <= 99,
{
    let ghost mut total: nat = 0;
    let mut s: u32 = 0;
    if contains_lit(lq, "ects") && (contains_lit(lt, "ects") || contains_lit(lu, "ects")) {
        s += 9;
    }
    proof {
        total = total + hit_bonus(lq@, lt@, lu@, "ects"@, 9);
        assert(s == total);
    }
    if contains_lit(lq, "credit") && (contains_lit(lt, "credit") || contains_lit(lu, "credit")) {
        s += 9;
    }
    proof {
        total = total + hit_bonus(lq@, lt@, lu@, "credit"@, 9);
        assert(s == total);
    }
    if contains_lit(lq, "credits") && (contains_lit(lt, "credits") || contains_lit(lu, "credits")) {
        s += 9;
    }
    proof {
        total = total + hit_bonus(lq@, lt@, lu@, "credits"@, 9);
        assert(s == total);
    }
    if contains_lit(lq, "thesis") && (contains_lit(lt, "thesis") || contains_lit(lu, "thesis")) {
        s += 9;
    }
    proof {
        total = total + hit_bonus(lq@, lt@, lu@, "thesis"@, 9);
        assert(s == total);
    }
    if contains_lit(lq, "module") && (contains_lit(lt, "module") || contains_lit(lu, "module")) {
        s += 9;
    }
    proof {
        total = total + hit_bonus(lq@, lt@, lu@, "module"@, 9);
        assert(s == total);
    }
    if contains_lit(lq, "modules") && (contains_lit(lt, "modules") || contains_lit(lu, "modules")) {
        s += 9;
    }
    proof {
        total = total + hit_bonus(lq@, lt@, lu@, "modules"@, 9);
        assert(s == total);
    }
    if contains_lit(lq, "study plan") && (contains_lit(lt, "study plan") || contains_lit(lu, "study plan")) {
        s += 9;
    }
    proof {
        total = total + hit_bonus(lq@, lt@, lu@, "study plan"@, 9);
        assert(s == total);
    }
    if contains_lit(lq, "curriculum") && (contains_lit(lt, "curriculum") || contains_lit(lu, "curriculum")) {
        s += 9;
    }
    proof {
        total = total + hit_bonus(lq@, lt@, lu@, "curriculum"@, 9);
        assert(s == total);
    }
    if contains_lit(lq, "program structure") && (contains_lit(lt, "program structure") || contains_lit(lu, "program structure")) {
        s += 9;
    }
    proof {
        total = total + hit_bonus(lq@, lt@, lu@, "program structure"@, 9);
        assert(s == total);
    }
    if contains_lit(lq, "pflichtbereich") && (contains_lit(lt, "pflichtbereich") || contains_lit(lu, "pflichtbereich")) {
        s += 9;
    }
    proof {
        total = total + hit_bonus(lq@, lt@, lu@, "pflichtbereich"@, 9);
        assert(s == total);
    }
    if contains_lit(lq, "wahlpflichtbereich") && (contains_lit(lt, "wahlpflichtbereich") || contains_lit(lu, "wahlpflichtbereich")) {
        s += 9;
    }
    proof {
        total = total + hit_bonus(lq@, lt@, lu@, "wahlpflichtbereich"@, 9);
        assert(s == total);
    }
    proof {
        assert(total == curriculum_bonus(lq@, lt@, lu@));
    }
    s
}

#[verifier::rlimit(100)]
fn application_bonus_of(lq: &Vec<char>, lt: &Vec<char>, lu: &Vec<char>) -> (s: u32)
    ensures
        s == application_bonus(lq@, lt@, lu@),
        s <= 48,
{
    let ghost mut total: nat = 0;
    let mut s: u32 = 0;
    if contains_lit(lq, "uni-assist") && (contains_lit(lt, "uni-assist") || contains_lit(lu, "uni-assist")) {
        s += 8;
    }
    proof {
        total = total + hit_bonus(lq@, lt@, lu@, "uni-assist"@, 8);
        assert(s == total);
    }
    if contains_lit(lq, "uni assist") && (contains_lit(lt, "uni assist") || contains_lit(lu, "uni assist")) {
        s += 8;
    }
    proof {
        total = total + hit_bonus(lq@, lt@, lu@, "uni assist"@, 8);
        assert(s == total);
    }
    if contains_lit(lq, "aps") && (contains_lit(lt, "aps") || contains_lit(lu, "aps")) {
        s += 8;
    }
    proof {
        total = total + hit_bonus(lq@, lt@, lu@, "aps"@, 8);
        assert(s == total);
    }
    if contains_lit(lq, "application deadline") && (contains_lit(lt, "application deadline") || contains_lit(lu, "application deadline")) {
        s += 8;
    }
    proof {
        total = total + hit_bonus(lq@, lt@, lu@, "application deadline"@, 8);
        assert(s == total);
    }
    if contains_lit(lq, "admissions office") && (contains_lit(lt, "admissions office") || contains_lit(lu, "admissions office")) {
        s += 8;
    }
    proof {
        total = total + hit_bonus(lq@, lt@, lu@, "admissions office"@, 8);
        assert(s == total);
    }
    if contains_lit(lq, "studierendensekretariat") && (contains_lit(lt, "studierendensekretariat") || contains_lit(lu, "studierendensekretariat")) {
        s += 8;
    }
    proof {
        total = total + hit_bonus(lq@, lt@, lu@, "studierendensekretariat"@, 8);
        assert(s == total);
    }
    proof {
        assert(total == application_bonus(lq@, lt@, lu@));
    }
    s
}

/// The remaining base contributions: the English-program mention and the
/// contact-question patterns.
pub open spec fn misc_bonus(t: Seq<char>, lt: Seq<char>, lq: Seq<char>) -> nat {
    (if (contains_seq(lq, "english"@) || contains_seq(lq, "program"@)) && (contains_seq(
        lt,
        "master of science"@,
    ) || contains_seq(lt, "master of arts"@) || contains_seq(lt, "master of laws"@)
        || contains_seq(lt, "english-taught"@)) {
        6nat
    } else {
        0nat
    }) + (if contains_seq(lq, "who"@) || contains_seq(lq, "incharge"@) || contains_seq(
        lq,
        "in charge"@,
    ) || contains_seq(lq, "responsible"@) || contains_seq(lq, "contact"@) {
        (if spec_name_pattern(t) {
            5nat
        } else {
            0nat
        }) + (if contains_seq(lt, "@"@) || spec_room_pattern(lt) {
            3nat
        } else {
            0nat
        })
    } else {
        0nat
    })
}

#[verifier::rlimit(100)]
fn misc_bonus_of(tv: &Vec<char>, lt: &Vec<char>, lq: &Vec<char>) -> (s: u32)
    ensures
        s == misc_bonus(tv@, lt@, lq@),
        s <= 14,
{
    let ghost mut total: nat = 0;
    let mut s: u32 = 0;
    if (contains_lit(lq, "english") || contains_lit(lq, "program")) && (contains_lit(
        lt,
        "master of science",
    ) || contains_lit(lt, "master of arts") || contains_lit(lt, "master of laws")
        || contains_lit(lt, "english-taught")) {
        s += 6;
    }
    proof {
        total = total + (if (contains_seq(lq@, "english"@) || contains_seq(lq@, "program"@)) && (
        contains_seq(lt@, "master of science"@) || contains_seq(lt@, "master of arts"@)
            || contains_seq(lt@, "master of laws"@) || contains_seq(lt@, "english-taught"@)) {
            6nat
        } else {
            0nat
        });
        assert(s == total);
    }
    if contains_lit(lq, "who") || contains_lit(lq, "incharge") || contains_lit(
        lq,
        "in charge",
    ) || contains_lit(lq, "responsible") || contains_lit(lq, "contact") {
        if name_pattern(tv) {
            s += 5;
        }
        if contains_lit(lt, "@") || room_pattern(lt) {
            s += 3;
        }
    }
    proof {
        total = total + (if contains_seq(lq@, "who"@) || contains_seq(lq@, "incharge"@)
            || contains_seq(lq@, "in charge"@) || contains_seq(lq@, "responsible"@)
            || contains_seq(lq@, "contact"@) {
            (if spec_name_pattern(tv@) {
                5nat
            } else {
                0nat
            }) + (if contains_seq(lt@, "@"@) || spec_room_pattern(lt@) {
                3nat
            } else {
                0nat
            })
        } else {
            0nat
        });
        assert(s == total);
        assert(total == misc_bonus(tv@, lt@, lq@));
    }
    s
}

/// The base bonus of a chunk for a question: every contribution except
/// the shared standalone numbers.
pub open spec fn base_bonus_total(t: Seq<char>, u: Seq<char>, q: Seq<char>) -> nat {
    curriculum_bonus(lower_seq(q), lower_seq(t), lower_seq(u)) + application_bonus(
        lower_seq(q),
        lower_seq(t),
        lower_seq(u),
    ) + misc_bonus(t, lower_seq(t), lower_seq(q))
}

/// The uncapped total: the base bonus plus two per shared standalone
/// number.
pub open spec fn bonus_total(t: Seq<char>, u: Seq<char>, q: Seq<char>) -> nat {
    base_bonus_total(t, u, q) + 2 * num_hits(
        num_runs_from(lower_seq(q), false),
        lower_seq(t),
        lower_seq(u),
    )
}

/// The keyword bonus, capped at 2.0 (20 tenths).
pub open spec fn spec_keyword_bonus_tenths(t: Seq<char>, u: Seq<char>, q: Seq<char>) -> nat {
    if bonus_total(t, u, q) > 20 {
        20
    } else {
        bonus_total(t, u, q)
    }
}

/// Computes the base bonus (everything but the shared-number part).
fn base_bonus(text: &str, url: &str, q: &str) -> (s: u32)
    ensures
        s == base_bonus_total(text@, url@, q@),
        s <= 161,
{
    let tv = chars_of(text);
    let lt = lower_vec(&tv);
    let uv = chars_of(url);
    let lu = lower_vec(&uv);
    let qv = chars_of(q);
    let lq = lower_vec(&qv);
    let a = curriculum_bonus_of(&lq, &lt, &lu);
    let b = application_bonus_of(&lq, &lt, &lu);
    let c = misc_bonus_of(&tv, &lt, &lq);
    proof {
        assert(lq@ == lower_seq(q@));
        assert(lt@ == lower_seq(text@));
        assert(lu@ == lower_seq(url@));
        assert(tv@ == text@);
    }
    a + b + c
}

/// Computes the additive keyword bonus of a chunk (text and source) for a
/// question, in tenths of a point, capped at 20 (2.0 points).
pub fn keyword_bonus_tenths(text: &str, url: &str, q: &str) -> (r: u32)
    ensures
        r == spec_keyword_bonus_tenths(text@, url@, q@),
{
    let s = base_bonus(text, url, q);
    let tv = chars_of(text);
    let lt = lower_vec(&tv);
    let uv = chars_of(url);
    let lu = lower_vec(&uv);
    let qv = chars_of(q);
    let lq = lower_vec(&qv);
    let h = count_number_hits(&lq, &lt, &lu);
    proof {
        assert(s + 2 * num_hits(num_runs_from(lower_seq(q@), false), lower_seq(text@), lower_seq(
            url@,
        )) == bonus_total(text@, url@, q@));
    }
    if s >= 20 {
        20
    } else if h >= 10 {
        20
    } else {
        let with_numbers = s + 2 * (h as u32);
        if with_numbers > 20 {
            20
        } else {
            with_numbers
        }
    }
}

/// The question asks to list English-language programs.
pub open spec fn spec_wants_program_list(lq: Seq<char>) -> bool {
    (contains_seq(lq, "english"@) || contains_seq(lq, "in english"@)) && (contains_seq(
        lq,
        "program"@,
    ) || contains_seq(lq, "study program"@) || contains_seq(lq, "list"@))
}

/// Executable test for [`spec_wants_program_list`].
pub fn wants_program_list(q: &str) -> (b: bool)
    ensures
        b == spec_wants_program_list(lower_seq(q@)),
{
    let qv = chars_of(q);
    let lq = lower_vec(&qv);
    (contains_lit(&lq, "english") || contains_lit(&lq, "in english")) && (contains_lit(
        &lq,
        "program",
    ) || contains_lit(&lq, "study program") || contains_lit(&lq, "list"))
}

/// The retrieval depth of a question: a list-style question defaults to
/// 30, any other to 18, and a requested depth is honoured up to that
/// default.
pub fn retrieval_k(question: &str, top_k: Option<usize>) -> (k: usize)
    ensures
        ({
            let d: usize = if spec_wants_program_list(lower_seq(question@)) {
                30
            } else {
                18
            };
            k == (match top_k {
                Some(v) => if v < d {
                    v
                } else {
                    d
                },
                None => d,
            })
        }),
{
    let d: usize = if wants_program_list(question) {
        30
    } else {
        18
    };
    match top_k {
        Some(v) => if v < d {
            v
        } else {
            d
        },
        None => d,
    }
}

/// How many candidates the coarse stage keeps: the larger of the final
/// take and 50.
pub fn stage1_keep(take: usize) -> (r: usize)
    ensures
        r == (if take > 50 {
            take
        } else {
            50
        }),
{
    if take > 50 {
        take
    } else {
        50
    }
}

/// The primary source: the source of the top-ranked pick, or the empty
/// string when nothing was ranked.
pub fn choose_primary_source(picks: &Vec<(String, String)>) -> (r: String)
    ensures
        picks@.len() == 0 ==> r@ == Seq::<char>::empty(),
        picks@.len() > 0 ==> r@ == picks.deep_view()[0].0,
{
    if picks.len() == 0 {
        String::new()
    } else {
        proof {
            assert(picks.deep_view()[0] == (picks@[0].0@, picks@[0].1@));
        }
        picks[0].0.clone()
    }
}

/// Adds sources in order, skipping ones already present, until the list
/// holds eight.
pub open spec fn add_sources(acc: Seq<Seq<char>>, urls: Seq<Seq<char>>) -> Seq<Seq<char>>
    decreases urls.len(),
{
    if urls.len() == 0 {
        acc
    } else if acc.len() >= 8 {
        acc
    } else if acc.contains(urls[0]) {
        add_sources(acc, urls.drop_first())
    } else {
        add_sources(acc.push(urls[0]), urls.drop_first())
    }
}

/// The answer's source list: the primary source first (when there is
/// one), then the picks' sources in rank order, duplicates dropped, eight
/// at most.
pub open spec fn spec_collect_sources(primary: Seq<char>, urls: Seq<Seq<char>>) -> Seq<Seq<char>> {
    add_sources(
        if primary.len() == 0 {
            Seq::empty()
        } else {
            seq![primary]
        },
        urls,
    )
}

/// Builds the answer's source list.
pub fn collect_sources(primary: &str, urls: &Vec<String>) -> (r: Vec<String>)
    ensures
        r.deep_view() == spec_collect_sources(primary@, urls.deep_view()),
{
    let mut out: Vec<String> = Vec::new();
    if !primary.is_empty() {
        out.push(primary.to_owned());
        proof {
            assert(out.deep_view() =~= seq![primary@]);
        }
    } else {
        proof {
            assert(out.deep_view() =~= Seq::<Seq<char>>::empty());
        }
    }
    let n = urls.len();
    let mut i: usize = 0;
    proof {
        assert(urls.deep_view().skip(0) =~= urls.deep_view());
    }
    while i < n
        invariant
            n == urls@.len(),
            i <= n,
            spec_collect_sources(primary@, urls.deep_view()) == add_sources(
                out.deep_view(),
                urls.deep_view().skip(i as int),
            ),
        decreases n - i,
    {
        let ghost pre = urls.deep_view().skip(i as int);
        proof {
            assert(pre[0] == urls.deep_view()[i as int]);
            assert(pre.drop_first() =~= urls.deep_view().skip(i + 1));
        }
        if out.len() < 8 {
            if !vec_contains_str(&out, urls[i].as_str()) {
                let ghost out0 = out.deep_view();
                out.push(urls[i].clone());
                proof {
                    assert(out.deep_view() =~= out0.push(urls.deep_view()[i as int]));
                }
            }
        }
        i += 1;
    }
    proof {
        assert(urls.deep_view().skip(n as int) =~= Seq::<Seq<char>>::empty());
    }
    out
}

/// What the answer looks like after the source check: unchanged when it
/// already cites a source (case-insensitively) or when there is none to
/// cite, else with the first source appended on its own line.
pub open spec fn spec_with_source(ans: Seq<char>, sources: Seq<Seq<char>>) -> Seq<char> {
    if contains_seq(lower_seq(ans), "source:"@) || sources.len() == 0 {
        ans
    } else {
        ans + "\n\nSource: "@ + sources[0]
    }
}

/// Appends the first source to an answer that cites none.
pub fn append_source_if_missing(answer: String, sources: &Vec<String>) -> (r: String)
    ensures
        r@ == spec_with_source(answer@, sources.deep_view()),
{
    let av = chars_of(answer.as_str());
    let la = lower_vec(&av);
    if contains_lit(&la, "source:") || sources.len() == 0 {
        return answer;
    }
    proof {
        assert(sources.deep_view()[0] == sources@[0]@);
    }
    let mut out = answer;
    out.append("\n\nSource: ");
    out.append(sources[0].as_str());
    out
}

proof fn lemma_dlen_at(cs: Seq<char>, i: int, k: int)
    requires
        0 <= i <= k <= cs.len(),
        forall|j: int| i <= j < k ==> is_digit_char(#[trigger] cs[j]),
        k == cs.len() || !is_digit_char(cs[k]),
    ensures
        dlen(cs.skip(i)) == k - i,
    decreases k - i,
{
    let pre = cs.skip(i);
    if i == k {
        if pre.len() > 0 {
            assert(pre[0] == cs[i]);
        }
    } else {
        assert(pre[0] == cs[i]);
        assert(pre.drop_first() =~= cs.skip(i + 1));
        lemma_dlen_at(cs, i + 1, k);
    }
}

} // verus!
