//! Character-level string utilities shared by the services: Unicode whitespace,
//! trimming, ASCII case folding, whitespace collapsing and prefix/suffix tests.
use vstd::prelude::*;
use vstd::string::*;

verus! {

/// The Unicode `White_Space` property, which is what `char::is_whitespace`,
/// `str::trim` and `str::split_whitespace` use.
pub open spec fn is_ws(c: char) -> bool {
    let u = c as u32;
    ||| 0x09 <= u <= 0x0d
    ||| u == 0x20
    ||| u == 0x85
    ||| u == 0xa0
    ||| u == 0x1680
    ||| 0x2000 <= u <= 0x200a
    ||| u == 0x2028
    ||| u == 0x2029
    ||| u == 0x202f
    ||| u == 0x205f
    ||| u == 0x3000
}

pub fn is_whitespace(c: char) -> (r: bool)
    ensures
        r == is_ws(c),
{
    let u = c as u32;
    (0x09 <= u && u <= 0x0d) || u == 0x20 || u == 0x85 || u == 0xa0 || u == 0x1680 || (0x2000
        <= u && u <= 0x200a) || u == 0x2028 || u == 0x2029 || u == 0x202f || u == 0x205f || u
        == 0x3000
}

/// Appends one character to a `String` (std's `String::push`).
#[verifier::external_body]
pub(crate) fn push_char(s: &mut String, c: char)
    ensures
        final(s)@ == old(s)@.push(c),
{
    s.push(c);
}

/// The characters of a string slice, in order.
pub fn chars_of(s: &str) -> (v: Vec<char>)
    ensures
        v@ == s@,
{
    let n = s.unicode_len();
    let mut v: Vec<char> = Vec::new();
    let mut i: usize = 0;
    while i < n
        invariant
            n == s@.len(),
            i <= n,
            v@ == s@.subrange(0, i as int),
        decreases n - i,
    {
        let c = s.get_char(i);
        v.push(c);
        i = i + 1;
        assert(v@ =~= s@.subrange(0, i as int));
    }
    assert(v@ =~= s@);
    v
}

/// Builds a `String` from the characters `v[from..to]`.
pub fn string_from_range(v: &Vec<char>, from: usize, to: usize) -> (s: String)
    requires
        from <= to <= v@.len(),
    ensures
        s@ == v@.subrange(from as int, to as int),
{
    let mut s = String::new();
    let mut i: usize = from;
    while i < to
        invariant
            from <= i <= to <= v@.len(),
            s@ == v@.subrange(from as int, i as int),
        decreases to - i,
    {
        push_char(&mut s, v[i]);
        i = i + 1;
        assert(s@ =~= v@.subrange(from as int, i as int));
    }
    s
}

/// Builds a `String` holding exactly the characters of `v`.
pub fn string_from_chars(v: &Vec<char>) -> (s: String)
    ensures
        s@ == v@,
{
    let s = string_from_range(v, 0, v.len());
    assert(v@.subrange(0, v@.len() as int) =~= v@);
    s
}

/// Copies a string slice into an owned `String`.
pub fn owned(s: &str) -> (r: String)
    ensures
        r@ == s@,
{
    String::from_str(s)
}

/// Equality of the character sequences of two strings.
pub fn str_eq(a: &str, b: &str) -> (r: bool)
    ensures
        r == (a@ == b@),
{
    let x = chars_of(a);
    let y = chars_of(b);
    chars_eq(&x, &y)
}

pub fn chars_eq(x: &Vec<char>, y: &Vec<char>) -> (r: bool)
    ensures
        r == (x@ == y@),
{
    if x.len() != y.len() {
        return false;
    }
    let mut i: usize = 0;
    while i < x.len()
        invariant
            x@.len() == y@.len(),
            i <= x@.len(),
            forall|k: int| 0 <= k < i ==> x@[k] == y@[k],
        decreases x@.len() - i,
    {
        if x[i] != y[i] {
            return false;
        }
        i = i + 1;
    }
    assert(x@ =~= y@);
    true
}

// ---------------------------------------------------------------------------
// Trimming
// ---------------------------------------------------------------------------
/// What a trim removes: whitespace (`trim`) or one given character (`trim_matches`).
#[derive(Clone, Copy, PartialEq, Eq, Debug)]
pub enum Trim {
    Whitespace,
    Char(char),
}

pub open spec fn trims(k: Trim, c: char) -> bool {
    match k {
        Trim::Whitespace => is_ws(c),
        Trim::Char(x) => c == x,
    }
}

pub fn trims_char(k: Trim, c: char) -> (r: bool)
    ensures
        r == trims(k, c),
{
    match k {
        Trim::Whitespace => is_whitespace(c),
        Trim::Char(x) => c == x,
    }
}

/// `s` without the leading characters that `k` removes.
pub open spec fn trim_start_by(s: Seq<char>, k: Trim) -> Seq<char>
    decreases s.len(),
{
    if s.len() > 0 && trims(k, s[0]) {
        trim_start_by(s.drop_first(), k)
    } else {
        s
    }
}

/// `s` without the trailing characters that `k` removes.
pub open spec fn trim_end_by(s: Seq<char>, k: Trim) -> Seq<char>
    decreases s.len(),
{
    if s.len() > 0 && trims(k, s.last()) {
        trim_end_by(s.drop_last(), k)
    } else {
        s
    }
}

pub open spec fn trim_by(s: Seq<char>, k: Trim) -> Seq<char> {
    trim_end_by(trim_start_by(s, k), k)
}

/// `s` without leading and trailing whitespace (`str::trim`).
pub open spec fn trim_seq(s: Seq<char>) -> Seq<char> {
    trim_by(s, Trim::Whitespace)
}

/// `str::trim_matches(c)`.
pub open spec fn strip_char_seq(s: Seq<char>, c: char) -> Seq<char> {
    trim_by(s, Trim::Char(c))
}

/// A string that is empty or made of whitespace only.
pub open spec fn is_blank_seq(s: Seq<char>) -> bool {
    forall|k: int| 0 <= k < s.len() ==> is_ws(#[trigger] s[k])
}

pub proof fn lemma_trim_start_skip(s: Seq<char>, k: Trim, i: int)
    requires
        0 <= i <= s.len(),
        forall|j: int| 0 <= j < i ==> trims(k, #[trigger] s[j]),
        i == s.len() || !trims(k, s[i]),
    ensures
        trim_start_by(s, k) == s.skip(i),
    decreases i,
{
    if i > 0 {
        let t = s.drop_first();
        assert forall|j: int| 0 <= j < i - 1 implies trims(k, #[trigger] t[j]) by {
            assert(t[j] == s[j + 1]);
        }
        lemma_trim_start_skip(t, k, i - 1);
        assert(t.skip(i - 1) =~= s.skip(i));
    } else {
        assert(s.skip(0) =~= s);
    }
}

pub proof fn lemma_trim_end_take(s: Seq<char>, k: Trim, j: int)
    requires
        0 <= j <= s.len(),
        forall|m: int| j <= m < s.len() ==> trims(k, #[trigger] s[m]),
        j == 0 || !trims(k, s[j - 1]),
    ensures
        trim_end_by(s, k) == s.take(j),
    decreases s.len() - j,
{
    if j < s.len() {
        let t = s.drop_last();
        assert forall|m: int| j <= m < t.len() implies trims(k, #[trigger] t[m]) by {
            assert(t[m] == s[m]);
        }
        lemma_trim_end_take(t, k, j);
        assert(t.take(j) =~= s.take(j));
    } else {
        assert(s.take(j) =~= s);
    }
}

/// Proves `trim_by(s, k) == s.subrange(i, j)` for the bounds found by scanning.
pub proof fn lemma_trim_bounds(s: Seq<char>, k: Trim, i: int, j: int)
    requires
        0 <= i <= j <= s.len(),
        forall|m: int| 0 <= m < i ==> trims(k, #[trigger] s[m]),
        i == s.len() || !trims(k, s[i]),
        forall|m: int| j <= m < s.len() ==> trims(k, #[trigger] s[m]),
        j == i || !trims(k, s[j - 1]),
    ensures
        trim_by(s, k) == s.subrange(i, j),
{
    lemma_trim_start_skip(s, k, i);
    let t = s.skip(i);
    assert forall|m: int| j - i <= m < t.len() implies trims(k, #[trigger] t[m]) by {
        assert(t[m] == s[m + i]);
    }
    if j > i {
        assert(t[j - i - 1] == s[j - 1]);
    }
    lemma_trim_end_take(t, k, j - i);
    assert(t.take(j - i) =~= s.subrange(i, j));
}

/// What trimming the start leaves begins with a character that is kept.
pub proof fn lemma_trim_start_first(s: Seq<char>, k: Trim)
    ensures
        trim_start_by(s, k).len() == 0 || !trims(k, trim_start_by(s, k)[0]),
    decreases s.len(),
{
    if s.len() > 0 && trims(k, s[0]) {
        lemma_trim_start_first(s.drop_first(), k);
    }
}

/// Trimming the end keeps a prefix that ends with a character that is kept.
pub proof fn lemma_trim_end_prefix(s: Seq<char>, k: Trim)
    ensures
        trim_end_by(s, k).len() <= s.len(),
        forall|m: int| 0 <= m < trim_end_by(s, k).len() ==> #[trigger] trim_end_by(s, k)[m] == s[m],
        trim_end_by(s, k).len() == 0 || !trims(k, trim_end_by(s, k).last()),
    decreases s.len(),
{
    if s.len() > 0 && trims(k, s.last()) {
        lemma_trim_end_prefix(s.drop_last(), k);
    }
}

/// Trimming twice gives what trimming once gives.
pub proof fn law_trim_idempotent(s: Seq<char>, k: Trim)
    ensures
        trim_by(trim_by(s, k), k) == trim_by(s, k),
{
    let u = trim_start_by(s, k);
    let t = trim_end_by(u, k);
    lemma_trim_start_first(s, k);
    lemma_trim_end_prefix(u, k);
    if t.len() > 0 {
        assert(t[0] == u[0]);
    }
    assert(trim_start_by(t, k) == t);
    assert(trim_end_by(t, k) == t);
}

/// `str::trim` is idempotent.
pub proof fn law_trim_seq_idempotent(s: Seq<char>)
    ensures
        trim_seq(trim_seq(s)) == trim_seq(s),
{
    law_trim_idempotent(s, Trim::Whitespace);
}

/// Start and end (exclusive) of the part of `v[from..to]` that trimming by `k` keeps.
pub fn trim_range(v: &Vec<char>, from: usize, to: usize, k: Trim) -> (r: (usize, usize))
    requires
        from <= to <= v@.len(),
    ensures
        from <= r.0 <= r.1 <= to,
        trim_by(v@.subrange(from as int, to as int), k) == v@.subrange(r.0 as int, r.1 as int),
        (forall|m: int| from <= m < to ==> trims(k, #[trigger] v@[m])) <==> r.0 == r.1,
{
    let ghost s = v@.subrange(from as int, to as int);
    let mut i: usize = from;
    while i < to && trims_char(k, v[i])
        invariant
            from <= i <= to <= v@.len(),
            forall|m: int| from <= m < i ==> trims(k, #[trigger] v@[m]),
        decreases to - i,
    {
        i = i + 1;
    }
    let mut j: usize = to;
    while j > i && trims_char(k, v[j - 1])
        invariant
            from <= i <= j <= to <= v@.len(),
            forall|m: int| j <= m < to ==> trims(k, #[trigger] v@[m]),
        decreases j - i,
    {
        j = j - 1;
    }
    proof {
        assert forall|m: int| 0 <= m < i - from implies trims(k, #[trigger] s[m]) by {
            assert(s[m] == v@[m + from]);
        }
        assert forall|m: int| j - from <= m < s.len() implies trims(k, #[trigger] s[m]) by {
            assert(s[m] == v@[m + from]);
        }
        if i < to {
            assert(s[i - from] == v@[i as int]);
        }
        if j > i {
            assert(s[j - from - 1] == v@[j - 1]);
        }
        lemma_trim_bounds(s, k, i - from, j - from);
        assert(s.subrange(i - from, j - from) =~= v@.subrange(i as int, j as int));
        if i == j {
            assert forall|m: int| from <= m < to implies trims(k, #[trigger] v@[m]) by {
                if m >= i {
                    assert(m >= j);
                }
            }
        }
    }
    (i, j)
}

/// Start and end (exclusive) of the trimmed part of `v`.
pub fn trim_bounds(v: &Vec<char>) -> (r: (usize, usize))
    ensures
        r.0 <= r.1 <= v@.len(),
        trim_seq(v@) == v@.subrange(r.0 as int, r.1 as int),
        is_blank_seq(v@) <==> r.0 == r.1,
{
    let r = trim_range(v, 0, v.len(), Trim::Whitespace);
    assert(v@.subrange(0, v@.len() as int) =~= v@);
    proof {
        if r.0 == r.1 {
            assert forall|m: int| 0 <= m < v@.len() implies is_ws(#[trigger] v@[m]) by {
                assert(trims(Trim::Whitespace, v@[m]));
            }
        }
        if is_blank_seq(v@) {
            assert forall|m: int| 0 <= m < v@.len() implies trims(Trim::Whitespace, #[trigger] v@[m]) by {
                assert(is_ws(v@[m]));
            }
        }
    }
    r
}

/// `str::trim`: the string without leading and trailing whitespace.
pub fn trim(s: &str) -> (r: String)
    ensures
        r@ == trim_seq(s@),
{
    let v = chars_of(s);
    let (i, j) = trim_bounds(&v);
    string_from_range(&v, i, j)
}

/// `s.trim().is_empty()`.
pub fn is_blank(s: &str) -> (r: bool)
    ensures
        r == is_blank_seq(s@),
        r == (trim_seq(s@).len() == 0),
{
    let v = chars_of(s);
    let (i, j) = trim_bounds(&v);
    i == j
}

// ---------------------------------------------------------------------------
// ASCII case folding
// ---------------------------------------------------------------------------
pub open spec fn ascii_lower_char(c: char) -> char {
    if 'A' <= c <= 'Z' {
        ((c as u32) + 32) as char
    } else {
        c
    }
}

/// `str::to_ascii_lowercase`.
pub open spec fn ascii_lower_seq(s: Seq<char>) -> Seq<char> {
    s.map_values(|c: char| ascii_lower_char(c))
}

pub fn lower_char(c: char) -> (r: char)
    ensures
        r == ascii_lower_char(c),
{
    if 'A' <= c && c <= 'Z' {
        let b = (c as u32 as u8) + 32;
        b as char
    } else {
        c
    }
}

pub fn to_ascii_lowercase(s: &str) -> (r: String)
    ensures
        r@ == ascii_lower_seq(s@),
{
    let v = chars_of(s);
    let lowered = lower_chars(&v);
    string_from_chars(&lowered)
}

/// `str::eq_ignore_ascii_case`: equal once ASCII letters are folded to lower case.
pub fn eq_ignore_ascii_case(a: &str, b: &str) -> (r: bool)
    ensures
        r == (ascii_lower_seq(a@) == ascii_lower_seq(b@)),
{
    let x = lower_chars(&chars_of(a));
    let y = lower_chars(&chars_of(b));
    chars_eq(&x, &y)
}

pub fn lower_chars(v: &Vec<char>) -> (r: Vec<char>)
    ensures
        r@ == ascii_lower_seq(v@),
{
    let mut out: Vec<char> = Vec::new();
    let mut i: usize = 0;
    while i < v.len()
        invariant
            i <= v@.len(),
            out@ == ascii_lower_seq(v@.subrange(0, i as int)),
        decreases v@.len() - i,
    {
        let c = lower_char(v[i]);
        out.push(c);
        i = i + 1;
        assert(out@ =~= ascii_lower_seq(v@.subrange(0, i as int)));
    }
    assert(v@.subrange(0, v@.len() as int) =~= v@);
    out
}


// ---------------------------------------------------------------------------
// Maximal runs of a character class (split_whitespace, SQL tokens, path parts)
// ---------------------------------------------------------------------------
/// The character classes whose maximal runs the services split text into.
#[derive(Clone, Copy, PartialEq, Eq, Debug)]
pub enum CharClass {
    /// Anything but whitespace: the runs are `str::split_whitespace`.
    NonWhitespace,
    /// ASCII letters and digits, `_`, `.`, `"` and `` ` ``: the SQL identifier tokens.
    SqlToken,
    /// Anything but `/`: the non-empty parts of a Unix path.
    NonSlash,
}

pub open spec fn in_class(k: CharClass, c: char) -> bool {
    match k {
        CharClass::NonWhitespace => !is_ws(c),
        CharClass::SqlToken => is_ascii_alnum(c) || c == '_' || c == '.' || c == '"' || c == '`',
        CharClass::NonSlash => c != '/',
    }
}

pub open spec fn is_ascii_alnum(c: char) -> bool {
    ('a' <= c <= 'z') || ('A' <= c <= 'Z') || ('0' <= c <= '9')
}

pub fn class_contains(k: CharClass, c: char) -> (r: bool)
    ensures
        r == in_class(k, c),
{
    match k {
        CharClass::NonWhitespace => !is_whitespace(c),
        CharClass::SqlToken => ('a' <= c && c <= 'z') || ('A' <= c && c <= 'Z') || ('0' <= c && c
            <= '9') || c == '_' || c == '.' || c == '"' || c == '`',
        CharClass::NonSlash => c != '/',
    }
}

/// The maximal runs of characters of class `k` in `s`, left to right.
pub open spec fn runs(s: Seq<char>, k: CharClass) -> Seq<Seq<char>>
    decreases s.len(),
{
    if s.len() == 0 {
        Seq::empty()
    } else {
        let w = runs(s.drop_last(), k);
        let c = s.last();
        if !in_class(k, c) {
            w
        } else if s.len() == 1 || !in_class(k, s[s.len() - 2]) {
            w.push(seq![c])
        } else {
            w.update(w.len() - 1, w.last().push(c))
        }
    }
}

/// Views of a vector of character vectors.
pub open spec fn seqs_of(v: Seq<Vec<char>>) -> Seq<Seq<char>> {
    v.map_values(|x: Vec<char>| x@)
}

pub open spec fn strings_of(v: Seq<String>) -> Seq<Seq<char>> {
    v.map_values(|x: String| x@)
}

/// The maximal runs of class `k` in `v` (for whitespace this is `split_whitespace`).
pub fn split_runs(v: &Vec<char>, k: CharClass) -> (r: Vec<Vec<char>>)
    ensures
        seqs_of(r@) == runs(v@, k),
        forall|i: int| 0 <= i < r@.len() ==> r@[i]@.len() > 0,
{
    let mut done: Vec<Vec<char>> = Vec::new();
    let mut cur: Vec<char> = Vec::new();
    let mut i: usize = 0;
    while i < v.len()
        invariant
            i <= v@.len(),
            cur@.len() > 0 <==> (i > 0 && in_class(k, v@[i - 1])),
            forall|j: int| 0 <= j < done@.len() ==> done@[j]@.len() > 0,
            runs(v@.take(i as int), k) == (if cur@.len() > 0 {
                seqs_of(done@).push(cur@)
            } else {
                seqs_of(done@)
            }),
        decreases v@.len() - i,
    {
        let c = v[i];
        let ghost prev_done = seqs_of(done@);
        let ghost prev_cur = cur@;
        proof {
            assert(v@.take(i + 1).drop_last() =~= v@.take(i as int));
            assert(v@.take(i + 1).last() == c);
            if i > 0 {
                assert(v@.take(i + 1)[i - 1] == v@[i - 1]);
            }
        }
        if class_contains(k, c) {
            cur.push(c);
            proof {
                if prev_cur.len() > 0 {
                    assert(prev_done.push(prev_cur).update(prev_done.len() as int, prev_cur.push(c))
                        =~= prev_done.push(cur@));
                } else {
                    assert(cur@ =~= seq![c]);
                }
            }
        } else {
            if cur.len() > 0 {
                let finished = cur;
                done.push(finished);
                cur = Vec::new();
                assert(seqs_of(done@) =~= prev_done.push(prev_cur));
            }
        }
        i = i + 1;
    }
    if cur.len() > 0 {
        done.push(cur);
    }
    assert(v@.take(v@.len() as int) =~= v@);
    assert(seqs_of(done@) =~= runs(v@, k));
    done
}

/// `parts` joined with `sep` in between.
pub open spec fn join_seq(parts: Seq<Seq<char>>, sep: Seq<char>) -> Seq<char>
    decreases parts.len(),
{
    if parts.len() == 0 {
        Seq::empty()
    } else if parts.len() == 1 {
        parts[0]
    } else {
        join_seq(parts.drop_last(), sep) + sep + parts.last()
    }
}

/// Joins the character vectors `parts[from..]` with the separator character `sep`.
pub fn join_chars(parts: &Vec<Vec<char>>, sep: char) -> (r: Vec<char>)
    ensures
        r@ == join_seq(seqs_of(parts@), seq![sep]),
{
    let mut out: Vec<char> = Vec::new();
    let mut i: usize = 0;
    while i < parts.len()
        invariant
            i <= parts@.len(),
            out@ == join_seq(seqs_of(parts@).take(i as int), seq![sep]),
        decreases parts@.len() - i,
    {
        let ghost before = out@;
        if i > 0 {
            out.push(sep);
        }
        let part = &parts[i];
        let mut j: usize = 0;
        let ghost mid = out@;
        while j < part.len()
            invariant
                j <= part@.len(),
                out@ == mid + part@.take(j as int),
            decreases part@.len() - j,
        {
            out.push(part[j]);
            j = j + 1;
            assert(out@ =~= mid + part@.take(j as int));
        }
        proof {
            let t = seqs_of(parts@).take(i + 1);
            assert(t.drop_last() =~= seqs_of(parts@).take(i as int));
            assert(part@.take(part@.len() as int) =~= part@);
            if i == 0 {
                assert(out@ =~= t[0]);
            } else {
                assert(out@ =~= before + seq![sep] + part@);
            }
        }
        i = i + 1;
    }
    assert(seqs_of(parts@).take(parts@.len() as int) =~= seqs_of(parts@));
    out
}

/// `[String]::join`: the strings of `parts` with `sep` in between.
pub fn join_strings(parts: &Vec<String>, sep: &str) -> (r: String)
    ensures
        r@ == join_seq(strings_of(parts@), sep@),
{
    let mut out = String::new();
    let mut i: usize = 0;
    while i < parts.len()
        invariant
            i <= parts@.len(),
            out@ == join_seq(strings_of(parts@).take(i as int), sep@),
        decreases parts@.len() - i,
    {
        let ghost before = out@;
        if i > 0 {
            out.append(sep);
        }
        out.append(parts[i].as_str());
        proof {
            let t = strings_of(parts@).take(i + 1);
            assert(t.drop_last() =~= strings_of(parts@).take(i as int));
            if i == 0 {
                assert(out@ =~= t[0]);
            } else {
                assert(out@ =~= before + sep@ + parts@[i as int]@);
            }
        }
        i = i + 1;
    }
    assert(strings_of(parts@).take(parts@.len() as int) =~= strings_of(parts@));
    out
}

/// `split_whitespace().collect::<Vec<_>>().join(" ")`.
pub open spec fn collapse_ws_seq(s: Seq<char>) -> Seq<char> {
    join_seq(runs(s, CharClass::NonWhitespace), seq![' '])
}

/// Collapses every whitespace run to one space and drops leading and trailing whitespace.
pub fn collapse_whitespace(value: &str) -> (r: String)
    ensures
        r@ == collapse_ws_seq(value@),
{
    let v = chars_of(value);
    let words = split_runs(&v, CharClass::NonWhitespace);
    let joined = join_chars(&words, ' ');
    string_from_chars(&joined)
}

// ---------------------------------------------------------------------------
// Prefix and suffix tests
// ---------------------------------------------------------------------------
pub open spec fn starts_with_seq(s: Seq<char>, p: Seq<char>) -> bool {
    p.len() <= s.len() && s.take(p.len() as int) == p
}

pub open spec fn ends_with_seq(s: Seq<char>, p: Seq<char>) -> bool {
    p.len() <= s.len() && s.skip(s.len() - p.len()) == p
}

pub fn chars_starts_with(s: &Vec<char>, p: &Vec<char>) -> (r: bool)
    ensures
        r == starts_with_seq(s@, p@),
{
    if p.len() > s.len() {
        return false;
    }
    let mut i: usize = 0;
    while i < p.len()
        invariant
            p@.len() <= s@.len(),
            i <= p@.len(),
            forall|k: int| 0 <= k < i ==> s@[k] == p@[k],
        decreases p@.len() - i,
    {
        if s[i] != p[i] {
            assert(s@.take(p@.len() as int)[i as int] != p@[i as int]);
            return false;
        }
        i = i + 1;
    }
    assert(s@.take(p@.len() as int) =~= p@);
    true
}

pub fn chars_ends_with(s: &Vec<char>, p: &Vec<char>) -> (r: bool)
    ensures
        r == ends_with_seq(s@, p@),
{
    if p.len() > s.len() {
        return false;
    }
    let off = s.len() - p.len();
    let mut i: usize = 0;
    while i < p.len()
        invariant
            p@.len() <= s@.len(),
            off + p@.len() == s@.len(),
            s@.len() == s.len(),
            i <= p@.len(),
            forall|k: int| 0 <= k < i ==> s@[off + k] == p@[k],
        decreases p@.len() - i,
    {
        if s[off + i] != p[i] {
            assert(s@.skip(off as int)[i as int] != p@[i as int]);
            return false;
        }
        i = i + 1;
    }
    assert(s@.skip(off as int) =~= p@);
    true
}

/// A vector holding the characters of a string literal or slice.
pub fn lit(s: &str) -> (v: Vec<char>)
    ensures
        v@ == s@,
{
    chars_of(s)
}


// ---------------------------------------------------------------------------
// Unicode lowercase and membership
// ---------------------------------------------------------------------------
/// What `str::to_lowercase` returns for a string: its Unicode lowercase
/// mapping, where one character may map to several and a capital sigma
/// depends on the characters around it (the final-sigma rule).
pub uninterp spec fn lowercase(s: Seq<char>) -> Seq<char>;

/// Calls `str::to_lowercase`; the contract names its result.
#[verifier::external_body]
pub(crate) fn to_lowercase(s: &str) -> (r: String)
    ensures
        r@ == lowercase(s@),
{
    s.to_lowercase()
}

/// Whether `needle` is one of the strings of `v`.
pub fn contains_str(v: &Vec<String>, needle: &str) -> (r: bool)
    ensures
        r == strings_of(v@).contains(needle@),
{
    let mut i: usize = 0;
    while i < v.len()
        invariant
            i <= v@.len(),
            forall|k: int| 0 <= k < i ==> #[trigger] v@[k]@ != needle@,
        decreases v@.len() - i,
    {
        if str_eq(v[i].as_str(), needle) {
            assert(strings_of(v@)[i as int] == needle@);
            return true;
        }
        i = i + 1;
    }
    assert forall|k: int| 0 <= k < strings_of(v@).len() implies #[trigger] strings_of(v@)[k] != needle@ by {
        assert(v@[k]@ != needle@);
    }
    false
}


// ---------------------------------------------------------------------------
// Decimal numbers
// ---------------------------------------------------------------------------
pub open spec fn digit_char(d: nat) -> char {
    (48 + d) as char
}

/// The decimal digits of `n`, as `u64`'s `Display` writes them.
pub open spec fn decimal(n: nat) -> Seq<char>
    decreases n,
{
    if n < 10 {
        seq![digit_char(n)]
    } else {
        decimal(n / 10).push(digit_char(n % 10))
    }
}

/// Appends the decimal digits of `n` to `s`.
pub fn push_decimal(s: &mut String, n: u64)
    ensures
        final(s)@ == old(s)@ + decimal(n as nat),
    decreases n,
{
    if n >= 10 {
        push_decimal(s, n / 10);
    }
    let d = (n % 10) as u8;
    push_char(s, (48u8 + d) as char);
    proof {
        if n >= 10 {
            assert(decimal(n as nat) == decimal((n / 10) as nat).push(digit_char((n % 10) as nat)));
        }
    }
}

/// The decimal form of a signed integer, as `Display` writes it.
pub open spec fn signed_decimal(n: int) -> Seq<char> {
    if n < 0 {
        seq!['-'] + decimal((-n) as nat)
    } else {
        decimal(n as nat)
    }
}

/// `i64::to_string`.
pub fn i64_to_string(n: i64) -> (r: String)
    ensures
        r@ == signed_decimal(n as int),
{
    let mut s = String::new();
    if n < 0 {
        push_char(&mut s, '-');
        let magnitude: u64 = ((-(n + 1)) as u64) + 1;
        push_decimal(&mut s, magnitude);
        assert(s@ =~= seq!['-'] + decimal((-n) as nat));
    } else {
        push_decimal(&mut s, n as u64);
        assert(s@ =~= decimal(n as nat));
    }
    s
}

/// `u64::to_string`.
pub fn u64_to_string(n: u64) -> (r: String)
    ensures
        r@ == decimal(n as nat),
{
    let mut s = String::new();
    push_decimal(&mut s, n);
    assert(s@ =~= decimal(n as nat));
    s
}

} // verus!
