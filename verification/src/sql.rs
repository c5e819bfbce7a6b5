//! Lexical analysis of SQL statements that plugins ask the host to run: the
//! kind of statement and the table it touches.
use crate::text::{
    ascii_lower_seq, chars_eq, chars_of, is_ws, lit, lower_chars, runs, seqs_of, split_runs,
    string_from_chars, string_from_range, strip_char_seq, trim_by, trim_range, trim_seq,
    CharClass, Trim,
};
use vstd::prelude::*;

verus! {

#[derive(Debug, Clone, Copy, PartialEq, Eq)]
pub enum SqlOperation {
    Read,
    Write,
}

/// The statement kind a leading keyword (already lowercased) announces.
pub open spec fn keyword_operation(w: Seq<char>) -> Option<SqlOperation> {
    if w == "select"@ || w == "with"@ || w == "pragma"@ {
        Some(SqlOperation::Read)
    } else if w == "insert"@ || w == "update"@ || w == "delete"@ || w == "replace"@ || w
        == "create"@ || w == "alter"@ || w == "drop"@ {
        Some(SqlOperation::Write)
    } else {
        None
    }
}

/// The kind of statement, read from its first whitespace-separated word.
pub open spec fn sql_operation_of(sql: Seq<char>) -> Option<SqlOperation> {
    let words = runs(sql, CharClass::NonWhitespace);
    if words.len() == 0 {
        None
    } else {
        keyword_operation(ascii_lower_seq(words[0]))
    }
}

fn eq_lit(w: &Vec<char>, s: &str) -> (r: bool)
    ensures
        r == (w@ == s@),
{
    let l = lit(s);
    chars_eq(w, &l)
}

pub fn detect_sql_operation(sql: &str) -> (r: Option<SqlOperation>)
    ensures
        r == sql_operation_of(sql@),
{
    let v = chars_of(sql);
    let words = split_runs(&v, CharClass::NonWhitespace);
    if words.len() == 0 {
        return None;
    }
    let w = lower_chars(&words[0]);
    assert(w@ == ascii_lower_seq(runs(v@, CharClass::NonWhitespace)[0]));
    if eq_lit(&w, "select") || eq_lit(&w, "with") || eq_lit(&w, "pragma") {
        Some(SqlOperation::Read)
    } else if eq_lit(&w, "insert") || eq_lit(&w, "update") || eq_lit(&w, "delete") || eq_lit(
        &w,
        "replace",
    ) || eq_lit(&w, "create") || eq_lit(&w, "alter") || eq_lit(&w, "drop") {
        Some(SqlOperation::Write)
    } else {
        None
    }
}

/// The SQL tokens: maximal runs of ASCII letters, digits, `_`, `.`, `"` and `` ` ``
/// (every other character separates tokens).
pub open spec fn sql_tokens(sql: Seq<char>) -> Seq<Seq<char>> {
    runs(sql, CharClass::SqlToken)
}

pub fn tokenize_sql(sql: &str) -> (r: Vec<String>)
    ensures
        r@.len() == sql_tokens(sql@).len(),
        forall|i: int| 0 <= i < r@.len() ==> #[trigger] r@[i]@ == sql_tokens(sql@)[i],
{
    let v = chars_of(sql);
    let tokens = split_runs(&v, CharClass::SqlToken);
    let mut out: Vec<String> = Vec::new();
    let mut i: usize = 0;
    while i < tokens.len()
        invariant
            i <= tokens@.len(),
            seqs_of(tokens@) == sql_tokens(sql@),
            out@.len() == i,
            forall|j: int| 0 <= j < i ==> #[trigger] out@[j]@ == sql_tokens(sql@)[j],
        decreases tokens@.len() - i,
    {
        let s = string_from_chars(&tokens[i]);
        out.push(s);
        i = i + 1;
    }
    out
}

/// The part of `s` after its last `c` (all of `s` when it has none).
pub open spec fn after_last(s: Seq<char>, c: char) -> Seq<char>
    decreases s.len(),
{
    if s.len() == 0 {
        s
    } else if s.last() == c {
        Seq::empty()
    } else {
        after_last(s.drop_last(), c).push(s.last())
    }
}

pub proof fn lemma_after_last(s: Seq<char>, c: char, j: int)
    requires
        0 <= j <= s.len(),
        forall|m: int| j <= m < s.len() ==> #[trigger] s[m] != c,
        j == 0 || s[j - 1] == c,
    ensures
        after_last(s, c) == s.skip(j),
    decreases s.len() - j,
{
    if j < s.len() {
        let t = s.drop_last();
        assert forall|m: int| j <= m < t.len() implies #[trigger] t[m] != c by {
            assert(t[m] == s[m]);
        }
        if j > 0 {
            assert(t[j - 1] == s[j - 1]);
        }
        lemma_after_last(t, c, j);
        assert(t.skip(j).push(s.last()) =~= s.skip(j));
    } else {
        if j > 0 {
            assert(s.last() == c);
        }
        assert(s.skip(j) =~= Seq::<char>::empty());
    }
}

/// Start of the part of `v[from..to]` after its last `c`.
fn after_last_start(v: &Vec<char>, from: usize, to: usize, c: char) -> (r: usize)
    requires
        from <= to <= v@.len(),
    ensures
        from <= r <= to,
        after_last(v@.subrange(from as int, to as int), c) == v@.subrange(r as int, to as int),
{
    let mut j: usize = to;
    while j > from && v[j - 1] != c
        invariant
            from <= j <= to <= v@.len(),
            forall|m: int| j <= m < to ==> #[trigger] v@[m] != c,
        decreases j - from,
    {
        j = j - 1;
    }
    proof {
        let s = v@.subrange(from as int, to as int);
        assert forall|m: int| j - from <= m < s.len() implies #[trigger] s[m] != c by {
            assert(s[m] == v@[m + from]);
        }
        if j > from {
            assert(s[j - from - 1] == v@[j - 1]);
        }
        lemma_after_last(s, c, j - from);
        assert(s.skip(j - from) =~= v@.subrange(j as int, to as int));
    }
    j
}

/// The table name a token or an explicit argument denotes: trimmed, unquoted,
/// without schema qualifier, lowercased.
pub open spec fn normalized_table_name(input: Seq<char>) -> Seq<char> {
    let unquoted = strip_char_seq(strip_char_seq(trim_seq(input), '`'), '"');
    let last = after_last(unquoted, '.');
    ascii_lower_seq(strip_char_seq(strip_char_seq(last, '`'), '"'))
}

fn normalize_table_chars(v: &Vec<char>) -> (r: Vec<char>)
    ensures
        r@ == normalized_table_name(v@),
{
    let (a, b) = trim_range(v, 0, v.len(), Trim::Whitespace);
    assert(v@.subrange(0, v@.len() as int) =~= v@);
    let (a, b) = trim_range(v, a, b, Trim::Char('`'));
    let (a, b) = trim_range(v, a, b, Trim::Char('"'));
    let c = after_last_start(v, a, b, '.');
    let (c, d) = trim_range(v, c, b, Trim::Char('`'));
    let (c, d) = trim_range(v, c, d, Trim::Char('"'));
    let mut part: Vec<char> = Vec::new();
    let mut i: usize = c;
    while i < d
        invariant
            c <= i <= d <= v@.len(),
            part@ == v@.subrange(c as int, i as int),
        decreases d - i,
    {
        part.push(v[i]);
        i = i + 1;
        assert(part@ =~= v@.subrange(c as int, i as int));
    }
    lower_chars(&part)
}

pub fn normalize_table_name(input: &str) -> (r: String)
    ensures
        r@ == normalized_table_name(input@),
{
    let v = chars_of(input);
    let n = normalize_table_chars(&v);
    string_from_chars(&n)
}

/// Index of the first occurrence of `w` in `ts`.
pub open spec fn first_index(ts: Seq<Seq<char>>, w: Seq<char>) -> Option<int>
    decreases ts.len(),
{
    if ts.len() == 0 {
        None
    } else {
        match first_index(ts.drop_last(), w) {
            Some(i) => Some(i),
            None => if ts.last() == w {
                Some(ts.len() - 1)
            } else {
                None
            },
        }
    }
}

pub proof fn lemma_first_index_absent(ts: Seq<Seq<char>>, w: Seq<char>)
    requires
        forall|j: int| 0 <= j < ts.len() ==> #[trigger] ts[j] != w,
    ensures
        first_index(ts, w) is None,
    decreases ts.len(),
{
    if ts.len() > 0 {
        let t = ts.drop_last();
        assert forall|j: int| 0 <= j < t.len() implies #[trigger] t[j] != w by {
            assert(t[j] == ts[j]);
        }
        lemma_first_index_absent(t, w);
    }
}

pub proof fn lemma_first_index_found(ts: Seq<Seq<char>>, w: Seq<char>, i: int)
    requires
        0 <= i < ts.len(),
        ts[i] == w,
        forall|j: int| 0 <= j < i ==> #[trigger] ts[j] != w,
    ensures
        first_index(ts, w) == Some(i),
    decreases ts.len(),
{
    if ts.len() - 1 > i {
        let t = ts.drop_last();
        assert(t[i] == w);
        assert forall|j: int| 0 <= j < i implies #[trigger] t[j] != w by {
            assert(t[j] == ts[j]);
        }
        lemma_first_index_found(t, w, i);
    } else {
        let t = ts.drop_last();
        assert forall|j: int| 0 <= j < t.len() implies #[trigger] t[j] != w by {
            assert(t[j] == ts[j]);
        }
        lemma_first_index_absent(t, w);
    }
}

pub open spec fn lowered(ts: Seq<Seq<char>>) -> Seq<Seq<char>> {
    ts.map_values(|t: Seq<char>| ascii_lower_seq(t))
}

/// The token after the first token whose lowercase form is `w`.
pub open spec fn token_after(ts: Seq<Seq<char>>, w: Seq<char>) -> Option<Seq<char>> {
    match first_index(lowered(ts), w) {
        Some(i) => if i + 1 < ts.len() {
            Some(ts[i + 1])
        } else {
            None
        },
        None => None,
    }
}

pub open spec fn token_at(ts: Seq<Seq<char>>, i: int) -> Option<Seq<char>> {
    if 0 <= i < ts.len() {
        Some(ts[i])
    } else {
        None
    }
}

/// The raw token naming the table a statement of kind `op` touches.
pub open spec fn table_token(ts: Seq<Seq<char>>, op: SqlOperation) -> Option<Seq<char>> {
    if ts.len() == 0 {
        None
    } else {
        match op {
            SqlOperation::Read => token_after(ts, "from"@),
            SqlOperation::Write => {
                let first = ascii_lower_seq(ts[0]);
                if first == "insert"@ || first == "replace"@ {
                    token_after(ts, "into"@)
                } else if first == "update"@ {
                    token_at(ts, 1)
                } else if first == "delete"@ {
                    token_after(ts, "from"@)
                } else {
                    token_at(ts, 1)
                }
            },
        }
    }
}

pub open spec fn table_of_sql(sql: Seq<char>, op: SqlOperation) -> Option<Seq<char>> {
    match table_token(sql_tokens(sql), op) {
        Some(t) => Some(normalized_table_name(t)),
        None => None,
    }
}

/// The token after the first token whose lowercase form is `w`.
fn find_token_after(tokens: &Vec<Vec<char>>, w: &str) -> (r: Option<usize>)
    ensures
        match token_after(seqs_of(tokens@), w@) {
            Some(t) => r matches Some(i) && i < tokens@.len() && tokens@[i as int]@ == t,
            None => r is None,
        },
{
    let target = lit(w);
    let ghost ts = seqs_of(tokens@);
    let mut i: usize = 0;
    while i < tokens.len()
        invariant
            ts == seqs_of(tokens@),
            target@ == w@,
            i <= tokens@.len(),
            forall|j: int| 0 <= j < i ==> #[trigger] lowered(ts)[j] != w@,
        decreases tokens@.len() - i,
    {
        let low = lower_chars(&tokens[i]);
        if chars_eq(&low, &target) {
            proof {
                assert(lowered(ts)[i as int] == w@);
                lemma_first_index_found(lowered(ts), w@, i as int);
            }
            if i + 1 < tokens.len() {
                return Some(i + 1);
            } else {
                return None;
            }
        }
        assert(lowered(ts)[i as int] == low@);
        i = i + 1;
    }
    proof {
        lemma_first_index_absent(lowered(ts), w@);
    }
    None
}

pub fn extract_table_from_sql(sql: &str, operation: SqlOperation) -> (r: Option<String>)
    ensures
        match table_of_sql(sql@, operation) {
            Some(t) => r matches Some(s) && s@ == t,
            None => r is None,
        },
{
    let v = chars_of(sql);
    let tokens = split_runs(&v, CharClass::SqlToken);
    let ghost ts = seqs_of(tokens@);
    assert(ts == sql_tokens(sql@));
    if tokens.len() == 0 {
        return None;
    }
    let index: Option<usize> = match operation {
        SqlOperation::Read => find_token_after(&tokens, "from"),
        SqlOperation::Write => {
            let first = lower_chars(&tokens[0]);
            assert(first@ == ascii_lower_seq(ts[0]));
            if eq_lit(&first, "insert") || eq_lit(&first, "replace") {
                find_token_after(&tokens, "into")
            } else if eq_lit(&first, "update") {
                if 1 < tokens.len() {
                    Some(1)
                } else {
                    None
                }
            } else if eq_lit(&first, "delete") {
                find_token_after(&tokens, "from")
            } else {
                if 1 < tokens.len() {
                    Some(1)
                } else {
                    None
                }
            }
        },
    };
    match index {
        Some(i) => {
            let name = normalize_table_chars(&tokens[i]);
            Some(string_from_chars(&name))
        },
        None => None,
    }
}

} // verus!
