//! Character-level text utilities: whitespace collapsing, case folding,
//! substring search, and conversion between `&str` and `Vec<char>`.
//!
//! All processing works on Unicode scalar values (`char`), never on raw
//! bytes, so no operation can split a multi-byte code point.

use vstd::prelude::*;

verus! {

/// The Unicode `White_Space` code points, as `char::is_whitespace` lists them.
pub open spec fn is_ws_char(c: char) -> bool {
    let u = c as u32;
    (9 <= u && u <= 13) || u == 32 || u == 0x85 || u == 0xA0 || u == 0x1680 || (0x2000 <= u && u
        <= 0x200A) || u == 0x2028 || u == 0x2029 || u == 0x202F || u == 0x205F || u == 0x3000
}

/// Executable test for [`is_ws_char`].
pub fn is_ws(c: char) -> (b: bool)
    ensures
        b == is_ws_char(c),
{
    let u = c as u32;
    (9 <= u && u <= 13) || u == 32 || u == 0x85 || u == 0xA0 || u == 0x1680 || (0x2000 <= u && u
        <= 0x200A) || u == 0x2028 || u == 0x2029 || u == 0x202F || u == 0x205F || u == 0x3000
}

/// ASCII decimal digit.
pub open spec fn is_digit_char(c: char) -> bool {
    '0' <= c && c <= '9'
}

/// Executable test for [`is_digit_char`].
pub fn is_digit(c: char) -> (b: bool)
    ensures
        b == is_digit_char(c),
{
    '0' <= c && c <= '9'
}

/// ASCII uppercase letter.
pub open spec fn is_upper_char(c: char) -> bool {
    'A' <= c && c <= 'Z'
}

/// ASCII lowercase letter.
pub open spec fn is_lower_char(c: char) -> bool {
    'a' <= c && c <= 'z'
}

/// ASCII case folding: uppercase letters move down by 0x20, everything else
/// is unchanged, exactly as `char::to_ascii_lowercase` does.
pub open spec fn lower_char(c: char) -> char {
    if is_upper_char(c) {
        ((c as u32) + 0x20) as char
    } else {
        c
    }
}

/// Relies on `char::to_ascii_lowercase`: maps 'A'..='Z' to 'a'..='z' and
/// leaves any other character unchanged.
#[verifier::external_body]
pub fn lower_ascii(c: char) -> (r: char)
    ensures
        r == lower_char(c),
{
    c.to_ascii_lowercase()
}

/// Whether `char::is_alphanumeric` accepts the character: a Unicode property
/// too large to restate, so it is only named here.
pub uninterp spec fn is_alnum(c: char) -> bool;

/// Relies on `char::is_alphanumeric`: a pure predicate on the character, so
/// its result is named by [`is_alnum`].
#[verifier::external_body]
pub fn char_is_alnum(c: char) -> (b: bool)
    ensures
        b == is_alnum(c),
{
    c.is_alphanumeric()
}

/// Relies on `str::chars`: yields exactly the characters of the string, in
/// order.
#[verifier::external_body]
pub fn chars_of(s: &str) -> (r: Vec<char>)
    ensures
        r@ == s@,
{
    s.chars().collect()
}

/// Relies on `String::push`: appends the one character to the string.
#[verifier::external_body]
pub fn push_char(s: &mut String, c: char)
    ensures
        final(s)@ == old(s)@.push(c),
{
    s.push(c);
}

/// Builds the string holding exactly the given characters.
pub fn string_of(cs: &Vec<char>) -> (r: String)
    ensures
        r@ == cs@,
{
    let mut out = String::new();
    let mut i: usize = 0;
    while i < cs.len()
        invariant
            i <= cs.len(),
            out@ == cs@.take(i as int),
        decreases cs.len() - i,
    {
        push_char(&mut out, cs[i]);
        i += 1;
        proof {
            assert(cs@.take(i as int) =~= cs@.take(i - 1).push(cs@[i - 1]));
        }
    }
    proof {
        assert(cs@.take(cs@.len() as int) =~= cs@);
    }
    out
}

/// Sequence-wise ASCII case folding.
pub open spec fn lower_seq(cs: Seq<char>) -> Seq<char> {
    cs.map_values(|c: char| lower_char(c))
}

/// ASCII-lowercases every character.
pub fn lower_vec(cs: &Vec<char>) -> (r: Vec<char>)
    ensures
        r@ == lower_seq(cs@),
{
    let mut out: Vec<char> = Vec::new();
    let mut i: usize = 0;
    while i < cs.len()
        invariant
            i <= cs.len(),
            out@ == lower_seq(cs@.take(i as int)),
        decreases cs.len() - i,
    {
        out.push(lower_ascii(cs[i]));
        i += 1;
        proof {
            assert(lower_seq(cs@.take(i as int)) =~= lower_seq(cs@.take(i - 1)).push(
                lower_char(cs@[i - 1]),
            ));
        }
    }
    proof {
        assert(cs@.take(cs@.len() as int) =~= cs@);
    }
    out
}

/// `needle` occurs as a contiguous subsequence of `hay`.
#[verifier::opaque]
pub open spec fn contains_seq(hay: Seq<char>, needle: Seq<char>) -> bool {
    exists|i: int|
        0 <= i && i + needle.len() <= hay.len() && #[trigger] hay.subrange(i, i + needle.len())
            == needle
}

/// Whether `hay` matches `needle` starting at position `at`.
pub fn matches_at(hay: &Vec<char>, at: usize, needle: &Vec<char>) -> (b: bool)
    requires
        at + needle@.len() <= hay@.len(),
    ensures
        b == (hay@.subrange(at as int, at + needle@.len()) == needle@),
{
    let hn: usize = hay.len();
    let nn: usize = needle.len();
    let mut j: usize = 0;
    while j < nn
        invariant
            nn == needle@.len(),
            hn == hay@.len(),
            j <= nn,
            at + nn <= hn,
            forall|k: int| 0 <= k < j ==> hay@[at + k] == needle@[k],
        decreases nn - j,
    {
        if hay[at + j] != needle[j] {
            proof {
                assert(hay@.subrange(at as int, at + needle@.len())[j as int] == hay@[at + j]);
            }
            return false;
        }
        j += 1;
    }
    proof {
        assert(hay@.subrange(at as int, at + needle@.len()) =~= needle@);
    }
    true
}

/// Substring search over characters.
pub fn contains_chars(hay: &Vec<char>, needle: &Vec<char>) -> (b: bool)
    ensures
        b == contains_seq(hay@, needle@),
{
    if needle.len() == 0 {
        proof {
            reveal(contains_seq);
            assert(hay@.subrange(0, 0 + needle@.len() as int) =~= needle@);
        }
        return true;
    }
    if needle.len() > hay.len() {
        proof {
            reveal(contains_seq);
            assert(!contains_seq(hay@, needle@));
        }
        return false;
    }
    let last: usize = hay.len() - needle.len();
    let mut i: usize = 0;
    while i <= last
        invariant
            1 <= needle@.len(),
            last == hay@.len() - needle@.len(),
            last < usize::MAX,
            i <= last + 1,
            forall|k: int|
                0 <= k < i ==> #[trigger] hay@.subrange(k, k + needle@.len()) != needle@,
        decreases last + 1 - i,
    {
        if matches_at(hay, i, needle) {
            proof {
                reveal(contains_seq);
            }
            return true;
        }
        i += 1;
    }
    proof {
        reveal(contains_seq);
    }
    false
}

/// Substring search against a literal pattern.
pub fn contains_lit(hay: &Vec<char>, lit: &str) -> (b: bool)
    ensures
        b == contains_seq(hay@, lit@),
{
    let needle = chars_of(lit);
    contains_chars(hay, &needle)
}

/// Character-wise string equality.
pub fn str_eq(a: &str, b: &str) -> (r: bool)
    ensures
        r == (a@ == b@),
{
    let av = chars_of(a);
    let bv = chars_of(b);
    if av.len() != bv.len() {
        return false;
    }
    let r = matches_at(&av, 0, &bv);
    proof {
        assert(a@.subrange(0, 0 + b@.len() as int) =~= a@);
    }
    r
}

/// Nothing but whitespace (or nothing at all).
pub open spec fn is_blank(cs: Seq<char>) -> bool {
    forall|i: int| 0 <= i < cs.len() ==> is_ws_char(#[trigger] cs[i])
}

/// Whether the string holds no character besides whitespace.
pub fn str_is_blank(s: &str) -> (b: bool)
    ensures
        b == is_blank(s@),
{
    let cs = chars_of(s);
    let mut i: usize = 0;
    while i < cs.len()
        invariant
            cs@ == s@,
            i <= cs@.len(),
            forall|k: int| 0 <= k < i ==> is_ws_char(#[trigger] cs@[k]),
        decreases cs.len() - i,
    {
        if !is_ws(cs[i]) {
            return false;
        }
        i += 1;
    }
    true
}

/// Whether `prefix` is a prefix of `s`.
pub fn str_starts_with(s: &str, prefix: &str) -> (b: bool)
    ensures
        b == prefix@.is_prefix_of(s@),
{
    let cs = chars_of(s);
    let ps = chars_of(prefix);
    if ps.len() > cs.len() {
        return false;
    }
    let r = matches_at(&cs, 0, &ps);
    proof {
        assert(s@.subrange(0, ps@.len() as int) == s@.take(ps@.len() as int));
    }
    r
}

/// Whether `suffix` is a suffix of `s`.
pub fn str_ends_with(s: &str, suffix: &str) -> (b: bool)
    ensures
        b == suffix@.is_suffix_of(s@),
{
    let cs = chars_of(s);
    let ss = chars_of(suffix);
    if ss.len() > cs.len() {
        return false;
    }
    let at: usize = cs.len() - ss.len();
    let r = matches_at(&cs, at, &ss);
    proof {
        assert(s@.subrange(at as int, at + ss@.len()) == s@.skip(at as int));
    }
    r
}

/// One step of whitespace collapsing. `started` records whether a
/// non-whitespace character was already emitted; `pending` records whether
/// whitespace was seen since then, so that exactly one space separates
/// neighbouring runs while leading and trailing whitespace vanish.
pub open spec fn collapsed_from(cs: Seq<char>, started: bool, pending: bool) -> Seq<char>
    decreases cs.len(),
{
    if cs.len() == 0 {
        Seq::empty()
    } else if is_ws_char(cs[0]) {
        collapsed_from(cs.drop_first(), started, started)
    } else {
        (if pending {
            seq![' ']
        } else {
            Seq::empty()
        }) + seq![cs[0]] + collapsed_from(cs.drop_first(), true, false)
    }
}

/// The text with every whitespace run collapsed to a single space and with
/// leading and trailing whitespace removed.
pub open spec fn collapsed_ws(cs: Seq<char>) -> Seq<char> {
    collapsed_from(cs, false, false)
}

/// Collapses whitespace runs to single spaces and trims the ends.
pub fn normalize_ws(s: &str) -> (r: String)
    ensures
        r@ == collapsed_ws(s@),
{
    let cs = chars_of(s);
    let mut out: Vec<char> = Vec::new();
    let mut started: bool = false;
    let mut pending: bool = false;
    let mut i: usize = 0;
    proof {
        assert(cs@.skip(0) =~= cs@);
        assert(out@ + collapsed_from(cs@, false, false) =~= collapsed_from(cs@, false, false));
    }
    while i < cs.len()
        invariant
            cs@ == s@,
            i <= cs@.len(),
            collapsed_ws(s@) == out@ + collapsed_from(cs@.skip(i as int), started, pending),
        decreases cs.len() - i,
    {
        let ghost pre = cs@.skip(i as int);
        let c = cs[i];
        proof {
            assert(pre[0] == cs@[i as int]);
            assert(pre.drop_first() =~= cs@.skip(i + 1));
        }
        if is_ws(c) {
            pending = started;
        } else {
            if pending {
                out.push(' ');
            }
            out.push(c);
            proof {
                assert(out@ + collapsed_from(cs@.skip(i + 1), true, false) =~= collapsed_ws(s@));
            }
            started = true;
            pending = false;
        }
        i += 1;
    }
    proof {
        assert(cs@.skip(cs@.len() as int) =~= Seq::<char>::empty());
        assert(out@ + Seq::<char>::empty() =~= out@);
    }
    string_of(&out)
}

/// One step of tokenization. `cur` is the (already case-folded) run of
/// alphanumeric characters read so far; a non-alphanumeric character closes
/// the run, and a final non-empty run forms the last token.
pub open spec fn tokens_from(cs: Seq<char>, cur: Seq<char>) -> Seq<Seq<char>>
    decreases cs.len(),
{
    if cs.len() == 0 {
        if cur.len() == 0 {
            Seq::empty()
        } else {
            seq![cur]
        }
    } else if is_alnum(cs[0]) {
        tokens_from(cs.drop_first(), cur.push(lower_char(cs[0])))
    } else if cur.len() == 0 {
        tokens_from(cs.drop_first(), cur)
    } else {
        seq![cur] + tokens_from(cs.drop_first(), Seq::empty())
    }
}

/// The maximal alphanumeric runs of the text, each ASCII-lowercased.
pub open spec fn tokens_of(cs: Seq<char>) -> Seq<Seq<char>> {
    tokens_from(cs, Seq::empty())
}

/// Splits the text into its maximal alphanumeric runs, ASCII-lowercased.
pub fn tokenize_lower(s: &str) -> (r: Vec<String>)
    ensures
        r.deep_view() == tokens_of(s@),
{
    let cs = chars_of(s);
    let mut out: Vec<String> = Vec::new();
    let mut cur: Vec<char> = Vec::new();
    let mut i: usize = 0;
    proof {
        assert(cs@.skip(0) =~= cs@);
        assert(out.deep_view() + tokens_from(cs@, cur@) =~= tokens_from(cs@, cur@));
    }
    while i < cs.len()
        invariant
            cs@ == s@,
            i <= cs@.len(),
            tokens_of(s@) == out.deep_view() + tokens_from(cs@.skip(i as int), cur@),
        decreases cs.len() - i,
    {
        let ghost pre = cs@.skip(i as int);
        let c = cs[i];
        proof {
            assert(pre[0] == cs@[i as int]);
            assert(pre.drop_first() =~= cs@.skip(i + 1));
        }
        if char_is_alnum(c) {
            cur.push(lower_ascii(c));
        } else {
            if cur.len() > 0 {
                let ghost old_out = out.deep_view();
                let ghost word = cur@;
                let w = string_of(&cur);
                out.push(w);
                cur = Vec::new();
                proof {
                    assert(out.deep_view() =~= old_out.push(word));
                    assert(out.deep_view() + tokens_from(cs@.skip(i + 1), Seq::empty())
                        =~= old_out + (seq![word] + tokens_from(cs@.skip(i + 1), Seq::empty())));
                }
            }
        }
        i += 1;
    }
    proof {
        assert(cs@.skip(cs@.len() as int) =~= Seq::<char>::empty());
    }
    if cur.len() > 0 {
        let ghost old_out = out.deep_view();
        let ghost word = cur@;
        let w = string_of(&cur);
        out.push(w);
        proof {
            assert(out.deep_view() =~= old_out.push(word));
            assert(old_out + seq![word] =~= old_out.push(word));
        }
    } else {
        proof {
            assert(out.deep_view() + Seq::<Seq<char>>::empty() =~= out.deep_view());
        }
    }
    out
}

/// The characters `cs[from..to]` as their own list.
pub fn slice_chars(cs: &Vec<char>, from: usize, to: usize) -> (r: Vec<char>)
    requires
        from <= to <= cs@.len(),
    ensures
        r@ == cs@.subrange(from as int, to as int),
{
    let mut out: Vec<char> = Vec::new();
    let mut k: usize = from;
    while k < to
        invariant
            from <= k <= to <= cs@.len(),
            out@ == cs@.subrange(from as int, k as int),
        decreases to - k,
    {
        out.push(cs[k]);
        proof {
            assert(cs@.subrange(from as int, k + 1) =~= cs@.subrange(from as int, k as int).push(
                cs@[k as int],
            ));
        }
        k += 1;
    }
    out
}

/// Builds the string holding exactly the characters `cs[from..to]`.
pub fn slice_string(cs: &Vec<char>, from: usize, to: usize) -> (r: String)
    requires
        from <= to <= cs@.len(),
    ensures
        r@ == cs@.subrange(from as int, to as int),
{
    let out = slice_chars(cs, from, to);
    string_of(&out)
}

/// The decimal digit character for a value below ten.
pub open spec fn digit_char(d: int) -> char {
    if d == 0 {
        '0'
    } else if d == 1 {
        '1'
    } else if d == 2 {
        '2'
    } else if d == 3 {
        '3'
    } else if d == 4 {
        '4'
    } else if d == 5 {
        '5'
    } else if d == 6 {
        '6'
    } else if d == 7 {
        '7'
    } else if d == 8 {
        '8'
    } else {
        '9'
    }
}

/// The decimal rendering of `n`, most significant digit first.
pub open spec fn dec_str(n: nat) -> Seq<char>
    decreases n,
{
    if n < 10 {
        seq![digit_char(n as int)]
    } else {
        dec_str(n / 10) + seq![digit_char((n % 10) as int)]
    }
}

/// Renders `n` in decimal.
pub fn usize_to_dec(n: usize) -> (r: String)
    ensures
        r@ == dec_str(n as nat),
    decreases n,
{
    let rem: usize = n % 10;
    let d: char = if rem == 0 {
        '0'
    } else if rem == 1 {
        '1'
    } else if rem == 2 {
        '2'
    } else if rem == 3 {
        '3'
    } else if rem == 4 {
        '4'
    } else if rem == 5 {
        '5'
    } else if rem == 6 {
        '6'
    } else if rem == 7 {
        '7'
    } else if rem == 8 {
        '8'
    } else {
        '9'
    };
    if n < 10 {
        let mut s = String::new();
        push_char(&mut s, d);
        proof {
            assert(s@ =~= dec_str(n as nat));
        }
        s
    } else {
        let mut s = usize_to_dec(n / 10);
        push_char(&mut s, d);
        proof {
            assert(s@ =~= dec_str((n / 10) as nat) + seq![digit_char((n % 10) as int)]);
        }
        s
    }
}

/// The position of the last whitespace character strictly before index `t`,
/// or -1 if there is none.
pub open spec fn last_ws_before(cs: Seq<char>, t: int) -> int
    decreases t,
{
    if t <= 0 {
        -1
    } else if is_ws_char(cs[t - 1]) {
        t - 1
    } else {
        last_ws_before(cs, t - 1)
    }
}

/// Where the clamp cuts: scanning stops at the `max`-th character (at the
/// first character when `max` is 0); a text that ends before that is kept
/// whole; otherwise the cut falls on the last whitespace seen, or just
/// before the stopping character when no whitespace was seen.
pub open spec fn clamp_cut(cs: Seq<char>, max: nat) -> int {
    let t: int = if max == 0 {
        1
    } else {
        max as int
    };
    if cs.len() < t {
        cs.len() as int
    } else {
        let w = last_ws_before(cs, t);
        if w >= 0 {
            w
        } else {
            t - 1
        }
    }
}

/// The clamped text: a prefix of the original, cut at a character boundary.
pub open spec fn clamp_spec(cs: Seq<char>, max: nat) -> Seq<char> {
    cs.take(clamp_cut(cs, max))
}

/// Clamps the text to at most `max_chars` characters, cutting at the last
/// whitespace before the budget when there is one, so that words survive
/// whole; never splits inside a code point.
pub fn clamp_to(s: &str, max_chars: usize) -> (r: String)
    ensures
        r@ == clamp_spec(s@, max_chars as nat),
{
    let cs = chars_of(s);
    let t: usize = if max_chars == 0 {
        1
    } else {
        max_chars
    };
    if cs.len() < t {
        let r = s.to_owned();
        proof {
            assert(s@.take(s@.len() as int) =~= s@);
        }
        return r;
    }
    let mut last_ws: Option<usize> = None;
    let mut j: usize = 0;
    while j < t
        invariant
            cs@ == s@,
            t <= cs@.len(),
            j <= t,
            match last_ws {
                Some(w) => w < j && last_ws_before(cs@, j as int) == w,
                None => last_ws_before(cs@, j as int) == -1,
            },
        decreases t - j,
    {
        if is_ws(cs[j]) {
            last_ws = Some(j);
        }
        j += 1;
    }
    let cut: usize = match last_ws {
        Some(w) => w,
        None => t - 1,
    };
    let mut out: Vec<char> = Vec::new();
    let mut k: usize = 0;
    while k < cut
        invariant
            cs@ == s@,
            cut <= cs@.len(),
            k <= cut,
            out@ == cs@.take(k as int),
        decreases cut - k,
    {
        out.push(cs[k]);
        proof {
            assert(cs@.take(k + 1) =~= cs@.take(k as int).push(cs@[k as int]));
        }
        k += 1;
    }
    string_of(&out)
}

pub proof fn lemma_push_to_set_str(s: Seq<Seq<char>>, x: Seq<char>)
    ensures
        s.push(x).to_set() == s.to_set().insert(x),
{
    assert forall|y: Seq<char>| #[trigger] s.push(x).to_set().contains(y) implies s.to_set().insert(
        x,
    ).contains(y) by {
        let k = choose|k: int| 0 <= k < s.push(x).len() && s.push(x)[k] == y;
        if k < s.len() {
            assert(s[k] == y);
        }
    }
    assert forall|y: Seq<char>| s.to_set().insert(x).contains(y) implies #[trigger] s.push(x)
        .to_set().contains(y) by {
        if y == x {
            assert(s.push(x)[s.len() as int] == y);
        } else {
            let k = choose|k: int| 0 <= k < s.len() && s[k] == y;
            assert(s.push(x)[k] == y);
        }
    }
    assert(s.push(x).to_set() =~= s.to_set().insert(x));
}

} // verus!
