//! URL handling: canonicalization (fragment stripping), the PDF-link
//! heuristic, the raw-input cleanup performed before parsing, and the
//! trusted boundary to the `url` crate for parsing, joining and origin
//! comparison.

use vstd::prelude::*;

use crate::text::{chars_of, contains_seq, is_ws_char, lower_ascii, lower_char, lower_seq,
    lower_vec, slice_chars, slice_string, str_ends_with, string_of};

verus! {

/// Number of characters before the first `#`.
pub open spec fn frag_cut(cs: Seq<char>) -> int
    decreases cs.len(),
{
    if cs.len() == 0 {
        0
    } else if cs[0] == '#' {
        0
    } else {
        1 + frag_cut(cs.drop_first())
    }
}

/// The canonical form of a serialized URL: everything before the first
/// `#`, so path and query survive and the fragment goes.
pub open spec fn canonical_of(cs: Seq<char>) -> Seq<char> {
    cs.take(frag_cut(cs))
}

proof fn lemma_frag_cut_at(cs: Seq<char>, i: int)
    requires
        0 <= i <= cs.len(),
        forall|k: int| 0 <= k < i ==> cs[k] != '#',
        i == cs.len() || cs[i] == '#',
    ensures
        frag_cut(cs) == i,
    decreases i,
{
    if cs.len() == 0 {
    } else if i == 0 {
    } else {
        assert(cs[0] != '#');
        assert forall|k: int| 0 <= k < i - 1 implies cs.drop_first()[k] != '#' by {
            assert(cs.drop_first()[k] == cs[k + 1]);
        }
        if i < cs.len() {
            assert(cs.drop_first()[i - 1] == cs[i]);
        }
        lemma_frag_cut_at(cs.drop_first(), i - 1);
    }
}

/// Cuts the fragment (everything from the first `#` on) off a URL string.
pub fn strip_url_fragment(u: &str) -> (r: String)
    ensures
        r@ == canonical_of(u@),
{
    let cs = chars_of(u);
    let n = cs.len();
    let mut i: usize = 0;
    while i < n
        invariant
            cs@ == u@,
            n == cs@.len(),
            i <= n,
            forall|k: int| 0 <= k < i ==> cs@[k] != '#',
        decreases n - i,
    {
        if cs[i] == '#' {
            proof {
                lemma_frag_cut_at(cs@, i as int);
            }
            return slice_string(&cs, 0, i);
        }
        i += 1;
    }
    proof {
        lemma_frag_cut_at(cs@, n as int);
    }
    slice_string(&cs, 0, n)
}

/// Whether a URL looks like a PDF resource: lower-cased it ends in `.pdf`
/// or holds `.pdf?`.
pub open spec fn spec_looks_like_pdf(cs: Seq<char>) -> bool {
    ".pdf"@.is_suffix_of(lower_seq(cs)) || contains_seq(lower_seq(cs), ".pdf?"@)
}

/// Executable test for [`spec_looks_like_pdf`].
pub fn looks_like_pdf(u: &str) -> (b: bool)
    ensures
        b == spec_looks_like_pdf(u@),
{
    let cs = chars_of(u);
    let lowered = lower_vec(&cs);
    let ls = string_of(&lowered);
    let suffix = str_ends_with(ls.as_str(), ".pdf");
    if suffix {
        return true;
    }
    crate::text::contains_lit(&lowered, ".pdf?")
}

/// Control characters: the C0 range, DEL, and the C1 range.
pub open spec fn is_control_char(c: char) -> bool {
    let u = c as u32;
    u < 0x20 || (0x7F <= u && u <= 0x9F)
}

/// Executable test for [`is_control_char`].
fn is_control(c: char) -> (b: bool)
    ensures
        b == is_control_char(c),
{
    let u = c as u32;
    u < 0x20 || (0x7F <= u && u <= 0x9F)
}

/// Quotes and brackets trimmed off the ends of a pasted URL.
pub open spec fn is_quote_char(c: char) -> bool {
    c == '\u{201c}' || c == '\u{201d}' || c == '\u{201e}' || c == '\u{ab}' || c == '\u{bb}' || c
        == '"' || c == '\'' || c == '<' || c == '>' || c == '(' || c == ')' || c == '[' || c == ']'
        || c == '{' || c == '}'
}

/// Executable test for [`is_quote_char`].
fn is_quote(c: char) -> (b: bool)
    ensures
        b == is_quote_char(c),
{
    c == '\u{201c}' || c == '\u{201d}' || c == '\u{201e}' || c == '\u{ab}' || c == '\u{bb}' || c
        == '"' || c == '\'' || c == '<' || c == '>' || c == '(' || c == ')' || c == '[' || c == ']'
        || c == '{' || c == '}'
}

/// The text with its leading whitespace dropped.
pub open spec fn skip_ws(cs: Seq<char>) -> Seq<char>
    decreases cs.len(),
{
    if cs.len() == 0 {
        cs
    } else if is_ws_char(cs[0]) {
        skip_ws(cs.drop_first())
    } else {
        cs
    }
}

/// The leading run of non-whitespace characters.
pub open spec fn take_nonws(cs: Seq<char>) -> Seq<char>
    decreases cs.len(),
{
    if cs.len() == 0 || is_ws_char(cs[0]) {
        Seq::empty()
    } else {
        seq![cs[0]] + take_nonws(cs.drop_first())
    }
}

/// The first whitespace-separated token of the input.
pub open spec fn first_token(cs: Seq<char>) -> Seq<char> {
    take_nonws(skip_ws(cs))
}

/// The text with quote and bracket characters trimmed off the start.
pub open spec fn trim_quotes_start(cs: Seq<char>) -> Seq<char>
    decreases cs.len(),
{
    if cs.len() > 0 && is_quote_char(cs[0]) {
        trim_quotes_start(cs.drop_first())
    } else {
        cs
    }
}

/// The text with quote and bracket characters trimmed off the end.
pub open spec fn trim_quotes_end(cs: Seq<char>) -> Seq<char>
    decreases cs.len(),
{
    if cs.len() > 0 && is_quote_char(cs.last()) {
        trim_quotes_end(cs.drop_last())
    } else {
        cs
    }
}

/// The text trimmed of quotes and brackets at both ends.
pub open spec fn trim_quotes(cs: Seq<char>) -> Seq<char> {
    trim_quotes_end(trim_quotes_start(cs))
}

/// Starts with `//`.
pub open spec fn starts_slashes(cs: Seq<char>) -> bool {
    cs.len() >= 2 && cs[0] == '/' && cs[1] == '/'
}

/// Starts with `www.` in any case.
pub open spec fn starts_www(cs: Seq<char>) -> bool {
    cs.len() >= 4 && lower_char(cs[0]) == 'w' && lower_char(cs[1]) == 'w' && lower_char(cs[2])
        == 'w' && cs[3] == '.'
}

/// Starts with `http://`.
pub open spec fn starts_http(cs: Seq<char>) -> bool {
    cs.len() >= 7 && cs[0] == 'h' && cs[1] == 't' && cs[2] == 't' && cs[3] == 'p' && cs[4] == ':'
        && cs[5] == '/' && cs[6] == '/'
}

/// Starts with `https://`.
pub open spec fn starts_https(cs: Seq<char>) -> bool {
    cs.len() >= 8 && cs[0] == 'h' && cs[1] == 't' && cs[2] == 't' && cs[3] == 'p' && cs[4] == 's'
        && cs[5] == ':' && cs[6] == '/' && cs[7] == '/'
}

/// The text with every leading `://` occurrence removed.
pub open spec fn strip_sep(cs: Seq<char>) -> Seq<char>
    decreases cs.len(),
{
    if cs.len() >= 3 && cs[0] == ':' && cs[1] == '/' && cs[2] == '/' {
        strip_sep(cs.skip(3))
    } else {
        cs
    }
}

/// The scheme normalization: `//…` becomes `https://…`, a bare `www.…`
/// gets `https://` in front, an explicit `http(s)://` stays, and anything
/// else gets `https://` in front of the input stripped of stray leading
/// `://` separators.
pub open spec fn with_scheme(cs: Seq<char>) -> Seq<char> {
    let s1 = if starts_slashes(cs) {
        "https:"@ + cs
    } else if starts_www(cs) {
        "https://"@ + cs
    } else {
        cs
    };
    if starts_http(s1) || starts_https(s1) {
        s1
    } else {
        "https://"@ + strip_sep(s1)
    }
}

/// The text with its control characters removed.
pub open spec fn keep_non_control(cs: Seq<char>) -> Seq<char>
    decreases cs.len(),
{
    if cs.len() == 0 {
        Seq::empty()
    } else if is_control_char(cs.last()) {
        keep_non_control(cs.drop_last())
    } else {
        keep_non_control(cs.drop_last()).push(cs.last())
    }
}

proof fn lemma_keep_non_control_push(cs: Seq<char>, c: char)
    ensures
        keep_non_control(cs.push(c)) == (if !is_control_char(c) {
            keep_non_control(cs).push(c)
        } else {
            keep_non_control(cs)
        }),
{
    assert(cs.push(c).drop_last() =~= cs);
    assert(cs.push(c).last() == c);
}

/// The cleaned form of a raw URL input: its first token, control
/// characters removed, quotes and brackets trimmed, and the scheme
/// normalized.
pub open spec fn cleaned_url_input(raw: Seq<char>) -> Seq<char> {
    with_scheme(trim_quotes(keep_non_control(first_token(raw))))
}

/// Why a raw URL input was rejected.
#[derive(Clone, Copy, Debug, PartialEq, Eq, Structural)]
pub enum UrlError {
    /// The input held no token at all.
    EmptyInput,
    /// The cleaned input still did not parse as an absolute URL.
    ParseFailed,
}

impl UrlError {
    /// A short description for the caller.
    pub fn message(&self) -> (r: &'static str)
        ensures
            self is EmptyInput ==> r@ == "Invalid URL: empty"@,
            self is ParseFailed ==> r@ == "Invalid URL"@,
    {
        match self {
            UrlError::EmptyInput => "Invalid URL: empty",
            UrlError::ParseFailed => "Invalid URL",
        }
    }
}

proof fn lemma_skip_ws_at(cs: Seq<char>, i: int)
    requires
        0 <= i <= cs.len(),
        forall|k: int| 0 <= k < i ==> is_ws_char(#[trigger] cs[k]),
        i == cs.len() || !is_ws_char(cs[i]),
    ensures
        skip_ws(cs) == cs.skip(i),
    decreases i,
{
    if i == 0 {
        assert(cs.skip(0) =~= cs);
    } else {
        assert(cs[0] == cs[0]);
        assert(cs.drop_first() =~= cs.skip(1));
        assert forall|k: int| 0 <= k < i - 1 implies is_ws_char(#[trigger] cs.skip(1)[k]) by {
            assert(cs.skip(1)[k] == cs[k + 1]);
        }
        if i < cs.len() {
            assert(cs.skip(1)[i - 1] == cs[i]);
        }
        lemma_skip_ws_at(cs.skip(1), i - 1);
        assert(cs.skip(1).skip(i - 1) =~= cs.skip(i));
    }
}

proof fn lemma_take_nonws_at(cs: Seq<char>, j: int)
    requires
        0 <= j <= cs.len(),
        forall|k: int| 0 <= k < j ==> !is_ws_char(#[trigger] cs[k]),
        j == cs.len() || is_ws_char(cs[j]),
    ensures
        take_nonws(cs) == cs.take(j),
    decreases j,
{
    if j == 0 {
        assert(cs.take(0) =~= Seq::<char>::empty());
    } else {
        assert(cs.drop_first() =~= cs.skip(1));
        assert forall|k: int| 0 <= k < j - 1 implies !is_ws_char(#[trigger] cs.skip(1)[k]) by {
            assert(cs.skip(1)[k] == cs[k + 1]);
        }
        if j < cs.len() {
            assert(cs.skip(1)[j - 1] == cs[j]);
        }
        lemma_take_nonws_at(cs.skip(1), j - 1);
        assert(seq![cs[0]] + cs.skip(1).take(j - 1) =~= cs.take(j));
    }
}

proof fn lemma_trim_start_at(cs: Seq<char>, a: int)
    requires
        0 <= a <= cs.len(),
        forall|k: int| 0 <= k < a ==> is_quote_char(#[trigger] cs[k]),
        a == cs.len() || !is_quote_char(cs[a]),
    ensures
        trim_quotes_start(cs) == cs.skip(a),
    decreases a,
{
    if a == 0 {
        assert(cs.skip(0) =~= cs);
    } else {
        assert(cs.drop_first() =~= cs.skip(1));
        assert forall|k: int| 0 <= k < a - 1 implies is_quote_char(#[trigger] cs.skip(1)[k]) by {
            assert(cs.skip(1)[k] == cs[k + 1]);
        }
        if a < cs.len() {
            assert(cs.skip(1)[a - 1] == cs[a]);
        }
        lemma_trim_start_at(cs.skip(1), a - 1);
        assert(cs.skip(1).skip(a - 1) =~= cs.skip(a));
    }
}

proof fn lemma_trim_end_at(cs: Seq<char>, b: int)
    requires
        0 <= b <= cs.len(),
        forall|k: int| b <= k < cs.len() ==> is_quote_char(#[trigger] cs[k]),
        b == 0 || !is_quote_char(cs[b - 1]),
    ensures
        trim_quotes_end(cs) == cs.take(b),
    decreases cs.len() - b,
{
    if b == cs.len() {
        assert(cs.take(b) =~= cs);
    } else {
        assert(is_quote_char(cs.last()));
        assert(cs.drop_last() =~= cs.take(cs.len() - 1));
        let ds = cs.drop_last();
        assert forall|k: int| b <= k < ds.len() implies is_quote_char(#[trigger] ds[k]) by {
            assert(ds[k] == cs[k]);
        }
        if b > 0 {
            assert(ds[b - 1] == cs[b - 1]);
        }
        lemma_trim_end_at(ds, b);
        assert(ds.take(b) =~= cs.take(b));
    }
}

/// Cleans a raw URL input and parses it: the first whitespace-separated
/// token is taken (an input without one is rejected as empty), control
/// characters are removed, surrounding quotes and brackets are trimmed,
/// a missing scheme is supplied, and the result must parse as an absolute
/// URL, whose canonical serialization is returned.
pub fn sanitize_url(raw: &str) -> (r: Result<String, UrlError>)
    ensures
        first_token(raw@).len() == 0 ==> r == Result::<String, UrlError>::Err(UrlError::EmptyInput),
        first_token(raw@).len() > 0 ==> (match r {
            Ok(c) => url_canon(cleaned_url_input(raw@)) == Some(c@),
            Err(e) => e == UrlError::ParseFailed && url_canon(cleaned_url_input(raw@)) is None,
        }),
{
    let cs = chars_of(raw);
    let n = cs.len();
    // First whitespace-separated token.
    let mut i: usize = 0;
    while i < n && crate::text::is_ws(cs[i])
        invariant
            cs@ == raw@,
            n == cs@.len(),
            i <= n,
            forall|k: int| 0 <= k < i ==> is_ws_char(#[trigger] cs@[k]),
        decreases n - i,
    {
        i += 1;
    }
    let mut j: usize = i;
    while j < n && !crate::text::is_ws(cs[j])
        invariant
            cs@ == raw@,
            n == cs@.len(),
            i <= j <= n,
            forall|k: int| i <= k < j ==> !is_ws_char(#[trigger] cs@[k]),
        decreases n - j,
    {
        j += 1;
    }
    proof {
        lemma_skip_ws_at(cs@, i as int);
        let tail = cs@.skip(i as int);
        assert forall|k: int| 0 <= k < j - i implies !is_ws_char(#[trigger] tail[k]) by {
            assert(tail[k] == cs@[k + i]);
        }
        if j < n {
            assert(tail[j - i] == cs@[j as int]);
        }
        lemma_take_nonws_at(tail, j - i);
        assert(tail.take(j - i) =~= cs@.subrange(i as int, j as int));
        assert(first_token(raw@) == cs@.subrange(i as int, j as int));
    }
    if j == i {
        return Err(UrlError::EmptyInput);
    }
    let token = slice_chars(&cs, i, j);
    // Remove control characters.
    let mut kept: Vec<char> = Vec::new();
    let tn = token.len();
    let mut k: usize = 0;
    proof {
        assert(token@.take(0) =~= Seq::<char>::empty());
        assert(keep_non_control(token@.take(0)) =~= Seq::<char>::empty());
    }
    while k < tn
        invariant
            tn == token@.len(),
            k <= tn,
            kept@ == keep_non_control(token@.take(k as int)),
        decreases tn - k,
    {
        let c = token[k];
        proof {
            assert(token@.take(k + 1) =~= token@.take(k as int).push(token@[k as int]));
            lemma_keep_non_control_push(token@.take(k as int), token@[k as int]);
        }
        if !is_control(c) {
            kept.push(c);
        }
        k += 1;
    }
    proof {
        assert(token@.take(tn as int) =~= token@);
    }
    // Trim quotes and brackets at both ends.
    let kn = kept.len();
    let mut a: usize = 0;
    while a < kn && is_quote(kept[a])
        invariant
            kn == kept@.len(),
            a <= kn,
            forall|k2: int| 0 <= k2 < a ==> is_quote_char(#[trigger] kept@[k2]),
        decreases kn - a,
    {
        a += 1;
    }
    let mut b: usize = kn;
    while b > a && is_quote(kept[b - 1])
        invariant
            kn == kept@.len(),
            a <= b <= kn,
            forall|k2: int| b <= k2 < kn ==> is_quote_char(#[trigger] kept@[k2]),
        decreases b,
    {
        b -= 1;
    }
    let trimmed = slice_chars(&kept, a, b);
    proof {
        lemma_trim_start_at(kept@, a as int);
        let mid = kept@.skip(a as int);
        assert forall|k2: int| b - a <= k2 < mid.len() implies is_quote_char(
            #[trigger] mid[k2],
        ) by {
            assert(mid[k2] == kept@[k2 + a]);
        }
        if b > a {
            assert(mid[b - a - 1] == kept@[b - 1]);
        }
        lemma_trim_end_at(mid, b - a);
        assert(mid.take(b - a) =~= kept@.subrange(a as int, b as int));
        assert(trim_quotes(kept@) == trimmed@);
    }
    // Normalize the scheme.
    let mut step1: Vec<char> = Vec::new();
    let two_slashes = trimmed.len() >= 2 && trimmed[0] == '/' && trimmed[1] == '/';
    let www = trimmed.len() >= 4 && lower_ascii(trimmed[0]) == 'w' && lower_ascii(trimmed[1])
        == 'w' && lower_ascii(trimmed[2]) == 'w' && trimmed[3] == '.';
    let ghost trimmed_v = trimmed@;
    if two_slashes {
        let mut prefix = chars_of("https:");
        let mut body = trimmed;
        step1.append(&mut prefix);
        step1.append(&mut body);
        proof {
            assert(step1@ =~= "https:"@ + trimmed_v);
        }
    } else if www {
        let mut prefix = chars_of("https://");
        let mut body = trimmed;
        step1.append(&mut prefix);
        step1.append(&mut body);
        proof {
            assert(step1@ =~= "https://"@ + trimmed_v);
        }
    } else {
        let mut body = trimmed;
        step1.append(&mut body);
        proof {
            assert(step1@ =~= trimmed_v);
        }
    }
    let http = step1.len() >= 7 && step1[0] == 'h' && step1[1] == 't' && step1[2] == 't'
        && step1[3] == 'p' && step1[4] == ':' && step1[5] == '/' && step1[6] == '/';
    let https = step1.len() >= 8 && step1[0] == 'h' && step1[1] == 't' && step1[2] == 't'
        && step1[3] == 'p' && step1[4] == 's' && step1[5] == ':' && step1[6] == '/' && step1[7]
        == '/';
    let ghost step1_v = step1@;
    let cleaned: Vec<char>;
    if http || https {
        cleaned = step1;
    } else {
        let mut rest = step1;
        while rest.len() >= 3 && rest[0] == ':' && rest[1] == '/' && rest[2] == '/'
            invariant
                strip_sep(rest@) == strip_sep(step1_v),
            decreases rest@.len(),
        {
            let shorter = slice_chars(&rest, 3, rest.len());
            proof {
                assert(rest@.subrange(3, rest@.len() as int) =~= rest@.skip(3));
            }
            rest = shorter;
        }
        let mut with_prefix: Vec<char> = Vec::new();
        let mut prefix = chars_of("https://");
        let ghost rest_v = rest@;
        with_prefix.append(&mut prefix);
        let mut body = rest;
        with_prefix.append(&mut body);
        proof {
            assert(with_prefix@ =~= "https://"@ + rest_v);
        }
        cleaned = with_prefix;
    }
    proof {
        assert(cleaned@ == with_scheme(trimmed_v));
        assert(cleaned@ == cleaned_url_input(raw@));
    }
    let cleaned_str = crate::text::string_of(&cleaned);
    match parse_canonical(cleaned_str.as_str()) {
        Some(c) => Ok(c),
        None => Err(UrlError::ParseFailed),
    }
}

/// Names what `url::Url::parse` makes of a string: `None` when parsing
/// fails, else the parsed URL's serialization.
pub uninterp spec fn url_canon(s: Seq<char>) -> Option<Seq<char>>;

/// Relies on `url::Url::parse` and the serialization of the parsed value;
/// both depend on the input string alone, so the result is named by
/// [`url_canon`].
#[verifier::external_body]
pub fn parse_canonical(raw: &str) -> (r: Option<String>)
    ensures
        r is Some <==> url_canon(raw@) is Some,
        r matches Some(s) ==> url_canon(raw@) == Some(s@),
{
    url::Url::parse(raw).ok().map(String::from)
}

/// Names what joining `href` against the base URL `base` serializes to:
/// `None` when `base` does not parse or the join fails.
pub uninterp spec fn url_join(base: Seq<char>, href: Seq<char>) -> Option<Seq<char>>;

/// Relies on `url::Url::parse` and `url::Url::join`: both depend on the
/// two strings alone, so the result is named by [`url_join`].
#[verifier::external_body]
pub fn join_url(base: &str, href: &str) -> (r: Option<String>)
    ensures
        r is Some <==> url_join(base@, href@) is Some,
        r matches Some(s) ==> url_join(base@, href@) == Some(s@),
{
    match url::Url::parse(base) {
        Ok(b) => b.join(href).ok().map(String::from),
        Err(_) => None,
    }
}

/// Names the tuple origin (scheme, host, port) of a URL string: `None`
/// when the string does not parse or its origin is opaque. Opaque origins
/// compare equal to nothing, so only tuple origins get a name.
pub uninterp spec fn url_origin(s: Seq<char>) -> Option<Seq<char>>;

/// Relies on `url::Url::parse`, `url::Url::origin` and origin equality:
/// tuple origins are a function of the URL string and equal exactly when
/// their parts are; an opaque origin (named `None` by [`url_origin`])
/// equals nothing, and this function then returns false.
#[verifier::external_body]
pub fn same_origin(a: &str, b: &str) -> (r: bool)
    ensures
        r == (url_origin(a@) is Some && url_origin(a@) == url_origin(b@)),
{
    match (url::Url::parse(a), url::Url::parse(b)) {
        (Ok(x), Ok(y)) => {
            let ox = x.origin();
            ox.is_tuple() && ox == y.origin()
        },
        _ => false,
    }
}

/// Names the part of a URL string before its path (scheme, credentials,
/// host and port): `None` when the string does not parse.
pub uninterp spec fn url_before_path(s: Seq<char>) -> Option<Seq<char>>;

/// Relies on `url::Url::parse` and slicing the parsed URL up to
/// `Position::BeforePath`; both depend on the string alone, so the result
/// is named by [`url_before_path`].
#[verifier::external_body]
pub fn before_path(u: &str) -> (r: Option<String>)
    ensures
        r is Some <==> url_before_path(u@) is Some,
        r matches Some(s) ==> url_before_path(u@) == Some(s@),
{
    match url::Url::parse(u) {
        Ok(p) => Some(p[..url::Position::BeforePath].to_string()),
        Err(_) => None,
    }
}

} // verus!
