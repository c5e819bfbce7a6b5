//! The SQL of an archive search: the filters of a search request become a
//! `WHERE` clause with its bound values, the requested order an `ORDER BY`
//! clause, and the page a `LIMIT` and `OFFSET`.
use crate::text::{
    decimal, i64_to_string, is_blank, is_blank_seq, join_seq, join_strings, lowercase, owned, signed_decimal,
    str_eq, strings_of, to_lowercase, u64_to_string,
};
use vstd::prelude::*;

verus! {

/// A search over the archives. Every field is optional; sizes are in bytes.
#[derive(Debug)]
pub struct SearchRequest {
    pub query: Option<String>,
    pub tags: Option<Vec<String>>,
    pub min_pages: Option<i32>,
    pub max_pages: Option<i32>,
    pub min_file_size: Option<i64>,
    pub max_file_size: Option<i64>,
    pub created_after: Option<String>,
    pub created_before: Option<String>,
    pub sort_by: Option<String>,
    pub sort_order: Option<String>,
    pub page: Option<u32>,
    pub limit: Option<u32>,
}

/// One piece when `b` holds, none otherwise.
pub open spec fn piece_if<T>(b: bool, x: T) -> Seq<T> {
    if b {
        seq![x]
    } else {
        Seq::empty()
    }
}

/// The text of a search filters titles.
pub open spec fn query_active(p: SearchRequest) -> bool {
    p.query matches Some(q) && !is_blank_seq(q@)
}

/// A non-empty list of tag names filters by tag.
pub open spec fn tags_active(p: SearchRequest) -> bool {
    p.tags matches Some(t) && t@.len() > 0
}

/// `n` placeholders separated by commas.
pub open spec fn placeholders(n: nat) -> Seq<char> {
    join_seq(Seq::new(n, |i: int| "?"@), ","@)
}

/// The archives that carry one of `n` tag names.
pub open spec fn tag_filter_sql(n: nat) -> Seq<char> {
    "a.id IN (SELECT DISTINCT at.archive_id "@ + "FROM archive_tags at INNER JOIN tags t "@
        + "ON at.tag_id = t.id WHERE t.name IN ("@ + placeholders(n) + "))"@
}

pub open spec fn tag_count(p: SearchRequest) -> nat {
    match p.tags {
        Some(t) => t@.len(),
        None => 0,
    }
}

/// The conditions on page counts, sizes and creation times that a search sets.
pub open spec fn range_conditions(p: SearchRequest) -> Seq<Seq<char>> {
    piece_if(p.min_pages is Some, "COALESCE(a.page_count, 0) >= ?"@)
        + piece_if(p.max_pages is Some, "COALESCE(a.page_count, 0) <= ?"@)
        + piece_if(p.min_file_size is Some, "a.file_size >= ?"@)
        + piece_if(p.max_file_size is Some, "a.file_size <= ?"@)
        + piece_if(p.created_after is Some, "a.created_at >= ?"@)
        + piece_if(p.created_before is Some, "a.created_at <= ?"@)
}

pub open spec fn number_bind(n: Option<i64>) -> Seq<Seq<char>> {
    match n {
        Some(v) => seq![signed_decimal(v as int)],
        None => Seq::empty(),
    }
}

pub open spec fn widen(n: Option<i32>) -> Option<i64> {
    match n {
        Some(v) => Some(v as i64),
        None => None,
    }
}

pub open spec fn text_bind(t: Option<String>) -> Seq<Seq<char>> {
    match t {
        Some(d) => seq![d@],
        None => Seq::empty(),
    }
}

/// The values bound to the range conditions, in the same order.
pub open spec fn range_binds(p: SearchRequest) -> Seq<Seq<char>> {
    number_bind(widen(p.min_pages)) + number_bind(widen(p.max_pages)) + number_bind(p.min_file_size)
        + number_bind(p.max_file_size) + text_bind(p.created_after) + text_bind(p.created_before)
}

/// The conditions of the `WHERE` clause, in this order: title, tags, least
/// and most pages, least and greatest size, earliest and latest creation.
pub open spec fn where_conditions(p: SearchRequest) -> Seq<Seq<char>> {
    piece_if(query_active(p), "a.title LIKE ?"@) + piece_if(tags_active(p), tag_filter_sql(tag_count(p)))
        + range_conditions(p)
}

/// The values bound to the placeholders of the conditions, in the same order.
pub open spec fn where_binds(p: SearchRequest) -> Seq<Seq<char>> {
    piece_if(query_active(p), "%"@ + p.query->0@ + "%"@) + (if tags_active(p) {
        strings_of(p.tags->0@)
    } else {
        Seq::empty()
    }) + range_binds(p)
}

/// `WHERE` and the conditions joined by `AND`; empty without conditions.
pub open spec fn where_clause(p: SearchRequest) -> Seq<char> {
    if where_conditions(p).len() == 0 {
        Seq::empty()
    } else {
        "WHERE "@ + join_seq(where_conditions(p), " AND "@)
    }
}

fn push_value(values: &mut Vec<String>, value: String)
    ensures
        strings_of(final(values)@) == strings_of(old(values)@).push(value@),
{
    values.push(value);
    assert(strings_of(values@) =~= strings_of(old(values)@).push(value@));
}

fn add_filter(conditions: &mut Vec<String>, values: &mut Vec<String>, condition: &str, value: String)
    ensures
        strings_of(final(conditions)@) == strings_of(old(conditions)@).push(condition@),
        strings_of(final(values)@) == strings_of(old(values)@).push(value@),
{
    push_value(conditions, owned(condition));
    push_value(values, value);
}

fn copy_strings(v: &Vec<String>) -> (r: Vec<String>)
    ensures
        strings_of(r@) == strings_of(v@),
{
    let mut out: Vec<String> = Vec::new();
    let mut k: usize = 0;
    while k < v.len()
        invariant
            k <= v@.len(),
            strings_of(out@) =~= strings_of(v@).take(k as int),
        decreases v@.len() - k,
    {
        push_value(&mut out, owned(v[k].as_str()));
        k = k + 1;
        assert(strings_of(out@) =~= strings_of(v@).take(k as int));
    }
    assert(strings_of(v@).take(v@.len() as int) =~= strings_of(v@));
    out
}

fn placeholder_list(n: usize) -> (r: String)
    ensures
        r@ == placeholders(n as nat),
{
    let mut marks: Vec<String> = Vec::new();
    let mut i: usize = 0;
    while i < n
        invariant
            i <= n,
            strings_of(marks@) =~= Seq::new(i as nat, |k: int| "?"@),
        decreases n - i,
    {
        push_value(&mut marks, owned("?"));
        i = i + 1;
    }
    join_strings(&marks, ",")
}

fn concat3(a: &str, b: &str, c: &str) -> (r: String)
    ensures
        r@ == a@ + b@ + c@,
{
    let mut s = owned(a);
    s.append(b);
    s.append(c);
    s
}

fn add_number_filter(conditions: &mut Vec<String>, values: &mut Vec<String>, n: Option<i64>, condition: &str)
    ensures
        strings_of(final(conditions)@) == strings_of(old(conditions)@) + piece_if(n is Some, condition@),
        strings_of(final(values)@) == strings_of(old(values)@) + number_bind(n),
{
    let ghost c0 = strings_of(conditions@);
    let ghost v0 = strings_of(values@);
    if let Some(v) = n {
        add_filter(conditions, values, condition, i64_to_string(v));
        assert(strings_of(conditions@) =~= c0 + piece_if(n is Some, condition@));
        assert(strings_of(values@) =~= v0 + number_bind(n));
    } else {
        assert(strings_of(conditions@) =~= c0 + piece_if(n is Some, condition@));
        assert(strings_of(values@) =~= v0 + number_bind(n));
    }
}

fn add_text_filter(conditions: &mut Vec<String>, values: &mut Vec<String>, t: &Option<String>, condition: &str)
    ensures
        strings_of(final(conditions)@) == strings_of(old(conditions)@) + piece_if(t is Some, condition@),
        strings_of(final(values)@) == strings_of(old(values)@) + text_bind(*t),
{
    let ghost c0 = strings_of(conditions@);
    let ghost v0 = strings_of(values@);
    if let Some(d) = t {
        add_filter(conditions, values, condition, owned(d.as_str()));
        assert(strings_of(conditions@) =~= c0 + piece_if(t is Some, condition@));
        assert(strings_of(values@) =~= v0 + text_bind(*t));
    } else {
        assert(strings_of(conditions@) =~= c0 + piece_if(t is Some, condition@));
        assert(strings_of(values@) =~= v0 + text_bind(*t));
    }
}

fn widen_exec(n: Option<i32>) -> (r: Option<i64>)
    ensures
        r == widen(n),
{
    match n {
        Some(v) => Some(v as i64),
        None => None,
    }
}

fn range_filters(params: &SearchRequest) -> (r: (Vec<String>, Vec<String>))
    ensures
        strings_of(r.0@) == range_conditions(*params),
        strings_of(r.1@) == range_binds(*params),
{
    proof {
        reveal_strlit("COALESCE(a.page_count, 0) >= ?");
    }
    let mut c: Vec<String> = Vec::new();
    let mut v: Vec<String> = Vec::new();
    add_number_filter(&mut c, &mut v, widen_exec(params.min_pages), "COALESCE(a.page_count, 0) >= ?");
    assert(strings_of(c@) =~= piece_if(params.min_pages is Some, "COALESCE(a.page_count, 0) >= ?"@));
    assert(strings_of(v@) =~= number_bind(widen(params.min_pages)));
    add_number_filter(&mut c, &mut v, widen_exec(params.max_pages), "COALESCE(a.page_count, 0) <= ?");
    add_number_filter(&mut c, &mut v, params.min_file_size, "a.file_size >= ?");
    add_number_filter(&mut c, &mut v, params.max_file_size, "a.file_size <= ?");
    add_text_filter(&mut c, &mut v, &params.created_after, "a.created_at >= ?");
    add_text_filter(&mut c, &mut v, &params.created_before, "a.created_at <= ?");
    (c, v)
}

fn add_tag_filter(params: &SearchRequest, conditions: &mut Vec<String>, values: &mut Vec<String>)
    ensures
        strings_of(final(conditions)@) == strings_of(old(conditions)@) + piece_if(
            tags_active(*params),
            tag_filter_sql(tag_count(*params)),
        ),
        strings_of(final(values)@) == strings_of(old(values)@) + (if tags_active(*params) {
            strings_of(params.tags->0@)
        } else {
            Seq::empty()
        }),
{
    let ghost c0 = strings_of(conditions@);
    let ghost v0 = strings_of(values@);
    if let Some(tags) = &params.tags {
        if tags.len() > 0 {
            let marks = placeholder_list(tags.len());
            let prefix = concat3(
                "a.id IN (SELECT DISTINCT at.archive_id ",
                "FROM archive_tags at INNER JOIN tags t ",
                "ON at.tag_id = t.id WHERE t.name IN (",
            );
            let sql = concat3(prefix.as_str(), marks.as_str(), "))");
            push_value(conditions, sql);
            let mut names = copy_strings(tags);
            values.append(&mut names);
            assert(strings_of(values@) =~= v0 + strings_of(tags@));
        }
    }
    assert(strings_of(conditions@) =~= c0 + piece_if(tags_active(*params), tag_filter_sql(tag_count(*params))));
    assert(strings_of(values@) =~= v0 + (if tags_active(*params) {
        strings_of(params.tags->0@)
    } else {
        Seq::empty()
    }));
}

/// The `WHERE` clause of a search and the values bound to its placeholders
/// (see `where_conditions` and `where_binds`).
pub fn build_where_clause(params: &SearchRequest) -> (r: (String, Vec<String>))
    ensures
        r.0@ == where_clause(*params),
        strings_of(r.1@) == where_binds(*params),
{
    let mut conditions: Vec<String> = Vec::new();
    let mut values: Vec<String> = Vec::new();
    assert(strings_of(conditions@) =~= Seq::<Seq<char>>::empty());
    assert(strings_of(values@) =~= Seq::<Seq<char>>::empty());
    if let Some(query) = &params.query {
        if !is_blank(query.as_str()) {
            add_filter(&mut conditions, &mut values, "a.title LIKE ?", concat3("%", query.as_str(), "%"));
        }
    }
    assert(strings_of(conditions@) =~= piece_if(query_active(*params), "a.title LIKE ?"@));
    assert(strings_of(values@) =~= piece_if(query_active(*params), "%"@ + params.query->0@ + "%"@));
    add_tag_filter(params, &mut conditions, &mut values);
    let (mut rc, mut rv) = range_filters(params);
    let ghost c1 = strings_of(conditions@);
    let ghost v1 = strings_of(values@);
    conditions.append(&mut rc);
    values.append(&mut rv);
    assert(strings_of(conditions@) =~= c1 + range_conditions(*params));
    assert(strings_of(values@) =~= v1 + range_binds(*params));
    let clause = if conditions.len() == 0 {
        String::new()
    } else {
        let joined = join_strings(&conditions, " AND ");
        let mut c = owned("WHERE ");
        c.append(joined.as_str());
        c
    };
    (clause, values)
}

/// The column a search sorts by: title, size, pages or update time when
/// asked for by name, creation time otherwise.
pub open spec fn sort_column(sort_by: Option<String>) -> Seq<char> {
    match sort_by {
        Some(s) => if s@ == "title"@ {
            "a.title"@
        } else if s@ == "file_size"@ {
            "a.file_size"@
        } else if s@ == "page_count"@ {
            "COALESCE(a.page_count, 0)"@
        } else if s@ == "updated_at"@ {
            "a.updated_at"@
        } else {
            "a.created_at"@
        },
        None => "a.created_at"@,
    }
}

/// Ascending when the order, lower-cased, is `asc`; descending otherwise.
pub open spec fn sort_direction(sort_order: Option<String>) -> Seq<char> {
    match sort_order {
        Some(o) => if lowercase(o@) == "asc"@ {
            "ASC"@
        } else {
            "DESC"@
        },
        None => "DESC"@,
    }
}

pub open spec fn order_clause(p: SearchRequest) -> Seq<char> {
    "ORDER BY "@ + sort_column(p.sort_by) + " "@ + sort_direction(p.sort_order)
}

/// The `ORDER BY` clause of a search (see `sort_column` and `sort_direction`).
pub fn build_order_clause(params: &SearchRequest) -> (r: String)
    ensures
        r@ == order_clause(*params),
{
    let column = match &params.sort_by {
        Some(s) => {
            let s = s.as_str();
            if str_eq(s, "title") {
                "a.title"
            } else if str_eq(s, "file_size") {
                "a.file_size"
            } else if str_eq(s, "page_count") {
                "COALESCE(a.page_count, 0)"
            } else if str_eq(s, "updated_at") {
                "a.updated_at"
            } else {
                "a.created_at"
            }
        },
        None => "a.created_at",
    };
    let direction = match &params.sort_order {
        Some(o) => {
            let lowered = to_lowercase(o.as_str());
            if str_eq(lowered.as_str(), "asc") {
                "ASC"
            } else {
                "DESC"
            }
        },
        None => "DESC",
    };
    let mut s = concat3("ORDER BY ", column, " ");
    s.append(direction);
    s
}

/// The joins a search needs: those of the tag tables whenever tags were given.
pub open spec fn joins(p: SearchRequest) -> Seq<char> {
    if p.tags is Some {
        "LEFT JOIN archive_tags at ON a.id = at.archive_id LEFT JOIN tags t ON at.tag_id = t.id"@
    } else {
        Seq::empty()
    }
}

pub fn get_joins(params: &SearchRequest) -> (r: String)
    ensures
        r@ == joins(*params),
{
    if params.tags.is_some() {
        owned("LEFT JOIN archive_tags at ON a.id = at.archive_id LEFT JOIN tags t ON at.tag_id = t.id")
    } else {
        String::new()
    }
}

/// The page size (20 unless given, at most 100) and the page (1 unless given).
pub open spec fn page_size(p: SearchRequest) -> u32 {
    match p.limit {
        Some(l) => if l < 100 {
            l
        } else {
            100
        },
        None => 20,
    }
}

pub open spec fn page_number(p: SearchRequest) -> u32 {
    match p.page {
        Some(n) => n,
        None => 1,
    }
}

/// Pages are counted from 1, and the offset of the page fits in `u32`.
pub open spec fn page_in_range(p: SearchRequest) -> bool {
    page_number(p) >= 1 && (page_number(p) - 1) * page_size(p) <= u32::MAX
}

/// The two queries of a search, the values bound to their placeholders, and
/// the page they ask for.
#[derive(Debug)]
pub struct SearchPlan {
    pub count_query: String,
    pub search_query: String,
    pub count_values: Vec<String>,
    pub search_values: Vec<String>,
    pub page: u32,
    pub limit: u32,
    pub offset: u32,
}

pub open spec fn count_query(p: SearchRequest) -> Seq<char> {
    "SELECT COUNT(DISTINCT a.id) as total FROM archives a "@ + joins(p) + " "@ + where_clause(p)
}

pub open spec fn search_query(p: SearchRequest) -> Seq<char> {
    "SELECT DISTINCT a.id, a.title, a.path, a.file_size, COALESCE(a.page_count, 0) as page_count, a.file_hash, a.created_at, a.updated_at FROM archives a "@
        + joins(p) + " "@ + where_clause(p) + " "@ + order_clause(p) + " LIMIT ? OFFSET ?"@
}

fn count_sql(joins_sql: &str, clause: &str) -> (r: String)
    ensures
        r@ == "SELECT COUNT(DISTINCT a.id) as total FROM archives a "@ + joins_sql@ + " "@ + clause@,
{
    let mut s = concat3("SELECT COUNT(DISTINCT a.id) as total FROM archives a ", joins_sql, " ");
    s.append(clause);
    s
}

fn page_sql(joins_sql: &str, clause: &str, order: &str) -> (r: String)
    ensures
        r@ == "SELECT DISTINCT a.id, a.title, a.path, a.file_size, COALESCE(a.page_count, 0) as page_count, a.file_hash, a.created_at, a.updated_at FROM archives a "@
            + joins_sql@ + " "@ + clause@ + " "@ + order@ + " LIMIT ? OFFSET ?"@,
{
    let mut s = concat3(
        "SELECT DISTINCT a.id, a.title, a.path, a.file_size, COALESCE(a.page_count, 0) as page_count, a.file_hash, a.created_at, a.updated_at FROM archives a ",
        joins_sql,
        " ",
    );
    s.append(clause);
    s.append(" ");
    s.append(order);
    s.append(" LIMIT ? OFFSET ?");
    s
}

fn page_bounds(params: &SearchRequest) -> (r: (u32, u32, u32))
    requires
        page_in_range(*params),
    ensures
        r.0 == page_number(*params),
        r.1 == page_size(*params),
        r.2 == (page_number(*params) - 1) * page_size(*params),
{
    let limit: u32 = match params.limit {
        Some(l) => if l < 100 { l } else { 100 },
        None => 20,
    };
    let page: u32 = match params.page {
        Some(n) => n,
        None => 1,
    };
    (page, limit, (page - 1) * limit)
}

fn page_values(values: &Vec<String>, limit: u32, offset: u32) -> (r: Vec<String>)
    ensures
        strings_of(r@) == strings_of(values@) + seq![decimal(limit as nat), decimal(offset as nat)],
{
    let mut out = copy_strings(values);
    push_value(&mut out, u64_to_string(limit as u64));
    push_value(&mut out, u64_to_string(offset as u64));
    assert(strings_of(out@) =~= strings_of(values@) + seq![decimal(limit as nat), decimal(offset as nat)]);
    out
}

/// The queries of a search: the count of matching archives, and the page of
/// them, whose values are those of the filters followed by the page size and
/// the offset.
#[verifier::spinoff_prover]
pub fn search_plan(params: &SearchRequest) -> (r: SearchPlan)
    requires
        page_in_range(*params),
    ensures
        r.count_query@ == count_query(*params),
        r.search_query@ == search_query(*params),
        strings_of(r.count_values@) == where_binds(*params),
        strings_of(r.search_values@) == where_binds(*params) + seq![
            decimal(page_size(*params) as nat),
            decimal(r.offset as nat),
        ],
        r.page == page_number(*params),
        r.limit == page_size(*params),
        r.offset == (page_number(*params) - 1) * page_size(*params),
{
    let (page, limit, offset) = page_bounds(params);
    let (clause, values) = build_where_clause(params);
    let order = build_order_clause(params);
    let joins_sql = get_joins(params);
    let count_query = count_sql(joins_sql.as_str(), clause.as_str());
    let search_query = page_sql(joins_sql.as_str(), clause.as_str(), order.as_str());
    let search_values = page_values(&values, limit, offset);
    SearchPlan { count_query, search_query, count_values: values, search_values, page, limit, offset }
}

impl SearchPlan {
    /// Whether archives remain after this page, of `total` matching ones.
    pub fn has_next(&self, total: u32) -> (r: bool)
        ensures
            r == (self.offset + self.limit < total),
    {
        (self.offset as u64) + (self.limit as u64) < total as u64
    }
}


// ---------------------------------------------------------------------------
// Placeholders and values
// ---------------------------------------------------------------------------
/// The number of `?` placeholders in a text.
pub open spec fn mark_count(s: Seq<char>) -> nat
    decreases s.len(),
{
    if s.len() == 0 {
        0
    } else {
        mark_count(s.drop_last()) + if s.last() == '?' {
            1nat
        } else {
            0nat
        }
    }
}

/// The placeholders of a list of texts, all together.
pub open spec fn total_marks(parts: Seq<Seq<char>>) -> nat
    decreases parts.len(),
{
    if parts.len() == 0 {
        0
    } else {
        total_marks(parts.drop_last()) + mark_count(parts.last())
    }
}

proof fn lemma_mark_count_concat(a: Seq<char>, b: Seq<char>)
    ensures
        mark_count(a + b) == mark_count(a) + mark_count(b),
    decreases b.len(),
{
    if b.len() == 0 {
        assert(a + b =~= a);
    } else {
        lemma_mark_count_concat(a, b.drop_last());
        assert((a + b).drop_last() =~= a + b.drop_last());
    }
}

proof fn lemma_total_marks_concat(a: Seq<Seq<char>>, b: Seq<Seq<char>>)
    ensures
        total_marks(a + b) == total_marks(a) + total_marks(b),
    decreases b.len(),
{
    if b.len() == 0 {
        assert(a + b =~= a);
    } else {
        lemma_total_marks_concat(a, b.drop_last());
        assert((a + b).drop_last() =~= a + b.drop_last());
    }
}

proof fn lemma_join_marks(parts: Seq<Seq<char>>, sep: Seq<char>)
    requires
        mark_count(sep) == 0,
    ensures
        mark_count(join_seq(parts, sep)) == total_marks(parts),
    decreases parts.len(),
{
    if parts.len() == 1 {
        assert(parts.drop_last() =~= Seq::<Seq<char>>::empty());
        assert(total_marks(parts.drop_last()) == 0);
        assert(parts.last() == parts[0]);
    } else if parts.len() > 1 {
        lemma_join_marks(parts.drop_last(), sep);
        lemma_mark_count_concat(join_seq(parts.drop_last(), sep), sep);
        lemma_mark_count_concat(join_seq(parts.drop_last(), sep) + sep, parts.last());
    }
}

proof fn lemma_piece_marks(b: bool, x: Seq<char>)
    ensures
        total_marks(piece_if(b, x)) == if b {
            mark_count(x)
        } else {
            0
        },
{
    if b {
        assert(seq![x].drop_last() =~= Seq::<Seq<char>>::empty());
        assert(total_marks(seq![x].drop_last()) == 0);
        assert(seq![x].last() == x);
    } else {
        assert(total_marks(Seq::<Seq<char>>::empty()) == 0);
    }
}

proof fn lemma_question_marks(n: nat)
    ensures
        total_marks(Seq::new(n, |i: int| "?"@)) == n,
    decreases n,
{
    reveal_strlit("?");
    if n > 0 {
        lemma_question_marks((n - 1) as nat);
        assert(Seq::new(n, |i: int| "?"@).drop_last() =~= Seq::new((n - 1) as nat, |i: int| "?"@));
        assert(mark_count("?"@) == 1) by {
            reveal_with_fuel(mark_count, 2);
        }
    }
}

proof fn lemma_tag_prefix_marks()
    ensures
        mark_count("a.id IN (SELECT DISTINCT at.archive_id "@) == 0,
        mark_count("FROM archive_tags at INNER JOIN tags t "@) == 0,
        mark_count("ON at.tag_id = t.id WHERE t.name IN ("@) == 0,
        mark_count("))"@) == 0,
        mark_count(","@) == 0,
{
    reveal_strlit("a.id IN (SELECT DISTINCT at.archive_id ");
    reveal_strlit("FROM archive_tags at INNER JOIN tags t ");
    reveal_strlit("ON at.tag_id = t.id WHERE t.name IN (");
    reveal_strlit("))");
    reveal_strlit(",");
    reveal_with_fuel(mark_count, 42);
}

proof fn lemma_tag_filter_marks(n: nat)
    ensures
        mark_count(tag_filter_sql(n)) == n,
{
    let p1 = "a.id IN (SELECT DISTINCT at.archive_id "@;
    let p2 = "FROM archive_tags at INNER JOIN tags t "@;
    let p3 = "ON at.tag_id = t.id WHERE t.name IN ("@;
    lemma_tag_prefix_marks();
    lemma_join_marks(Seq::new(n, |i: int| "?"@), ","@);
    lemma_question_marks(n);
    lemma_mark_count_concat(p1, p2);
    lemma_mark_count_concat(p1 + p2, p3);
    lemma_mark_count_concat(p1 + p2 + p3, placeholders(n));
    lemma_mark_count_concat(p1 + p2 + p3 + placeholders(n), "))"@);
}

proof fn lemma_one_mark(b: bool, x: Seq<char>, values: Seq<Seq<char>>)
    requires
        mark_count(x) == 1,
        values.len() == if b {
            1nat
        } else {
            0nat
        },
    ensures
        total_marks(piece_if(b, x)) == values.len(),
{
    lemma_piece_marks(b, x);
}

proof fn lemma_page_marks()
    ensures
        mark_count("COALESCE(a.page_count, 0) >= ?"@) == 1,
        mark_count("COALESCE(a.page_count, 0) <= ?"@) == 1,
{
    reveal_strlit("COALESCE(a.page_count, 0) >= ?");
    reveal_strlit("COALESCE(a.page_count, 0) <= ?");
    reveal_with_fuel(mark_count, 32);
}

proof fn lemma_size_and_date_marks()
    ensures
        mark_count("a.file_size >= ?"@) == 1,
        mark_count("a.file_size <= ?"@) == 1,
        mark_count("a.created_at >= ?"@) == 1,
        mark_count("a.created_at <= ?"@) == 1,
{
    reveal_strlit("a.file_size >= ?");
    reveal_strlit("a.file_size <= ?");
    reveal_strlit("a.created_at >= ?");
    reveal_strlit("a.created_at <= ?");
    reveal_with_fuel(mark_count, 19);
}

proof fn lemma_range_marks(p: SearchRequest)
    ensures
        total_marks(range_conditions(p)) == range_binds(p).len(),
{
    lemma_page_marks();
    lemma_size_and_date_marks();
    let c1 = piece_if(p.min_pages is Some, "COALESCE(a.page_count, 0) >= ?"@);
    let c2 = piece_if(p.max_pages is Some, "COALESCE(a.page_count, 0) <= ?"@);
    let c3 = piece_if(p.min_file_size is Some, "a.file_size >= ?"@);
    let c4 = piece_if(p.max_file_size is Some, "a.file_size <= ?"@);
    let c5 = piece_if(p.created_after is Some, "a.created_at >= ?"@);
    let c6 = piece_if(p.created_before is Some, "a.created_at <= ?"@);
    lemma_one_mark(p.min_pages is Some, "COALESCE(a.page_count, 0) >= ?"@, number_bind(widen(p.min_pages)));
    lemma_one_mark(p.max_pages is Some, "COALESCE(a.page_count, 0) <= ?"@, number_bind(widen(p.max_pages)));
    lemma_one_mark(p.min_file_size is Some, "a.file_size >= ?"@, number_bind(p.min_file_size));
    lemma_one_mark(p.max_file_size is Some, "a.file_size <= ?"@, number_bind(p.max_file_size));
    lemma_one_mark(p.created_after is Some, "a.created_at >= ?"@, text_bind(p.created_after));
    lemma_one_mark(p.created_before is Some, "a.created_at <= ?"@, text_bind(p.created_before));
    lemma_total_marks_concat(c1, c2);
    lemma_total_marks_concat(c1 + c2, c3);
    lemma_total_marks_concat(c1 + c2 + c3, c4);
    lemma_total_marks_concat(c1 + c2 + c3 + c4, c5);
    lemma_total_marks_concat(c1 + c2 + c3 + c4 + c5, c6);
}

proof fn lemma_clause_marks()
    ensures
        mark_count("a.title LIKE ?"@) == 1,
        mark_count("WHERE "@) == 0,
        mark_count(" AND "@) == 0,
{
    reveal_strlit("a.title LIKE ?");
    reveal_strlit("WHERE ");
    reveal_strlit(" AND ");
    reveal_with_fuel(mark_count, 16);
}

/// Every placeholder of a search's `WHERE` clause has its value: the clause
/// holds exactly as many `?` as there are bound values.
pub proof fn law_placeholders_match_values(p: SearchRequest)
    ensures
        mark_count(where_clause(p)) == where_binds(p).len(),
{
    lemma_clause_marks();
    let cq = piece_if(query_active(p), "a.title LIKE ?"@);
    let ct = piece_if(tags_active(p), tag_filter_sql(tag_count(p)));
    let bt: Seq<Seq<char>> = if tags_active(p) {
        strings_of(p.tags->0@)
    } else {
        Seq::empty()
    };
    lemma_piece_marks(query_active(p), "a.title LIKE ?"@);
    lemma_piece_marks(tags_active(p), tag_filter_sql(tag_count(p)));
    lemma_tag_filter_marks(tag_count(p));
    lemma_range_marks(p);
    lemma_total_marks_concat(cq, ct);
    lemma_total_marks_concat(cq + ct, range_conditions(p));
    assert(total_marks(where_conditions(p)) == where_binds(p).len());
    if where_conditions(p).len() > 0 {
        lemma_join_marks(where_conditions(p), " AND "@);
        lemma_mark_count_concat("WHERE "@, join_seq(where_conditions(p), " AND "@));
    } else {
        assert(where_conditions(p) =~= Seq::<Seq<char>>::empty());
    }
}

/// Each sort name the search knows orders by its own column, anything else
/// by creation time; the direction is descending unless `asc` is asked for.
pub proof fn law_sort_names_pick_their_columns(p: SearchRequest)
    ensures
        (p.sort_by matches Some(s) && s@ == "title"@) ==> order_clause(p) == "ORDER BY a.title "@ + sort_direction(
            p.sort_order,
        ),
        (p.sort_by matches Some(s) && s@ == "file_size"@) ==> order_clause(p) == "ORDER BY a.file_size "@
            + sort_direction(p.sort_order),
        (p.sort_by matches Some(s) && s@ == "page_count"@) ==> order_clause(p)
            == "ORDER BY COALESCE(a.page_count, 0) "@ + sort_direction(p.sort_order),
        (p.sort_by matches Some(s) && s@ == "updated_at"@) ==> order_clause(p) == "ORDER BY a.updated_at "@
            + sort_direction(p.sort_order),
        (p.sort_by matches Some(s) && s@ != "title"@ && s@ != "file_size"@ && s@ != "page_count"@ && s@
            != "updated_at"@) ==> order_clause(p) == "ORDER BY a.created_at "@ + sort_direction(p.sort_order),
        p.sort_by is None ==> order_clause(p) == "ORDER BY a.created_at "@ + sort_direction(p.sort_order),
        p.sort_order is None ==> sort_direction(p.sort_order) == "DESC"@,
        (p.sort_order matches Some(o) && lowercase(o@) == "asc"@) ==> sort_direction(p.sort_order) == "ASC"@,
        (p.sort_order matches Some(o) && lowercase(o@) != "asc"@) ==> sort_direction(p.sort_order) == "DESC"@,
        "ORDER BY a.title "@ != "ORDER BY a.created_at "@,
        "ORDER BY a.file_size "@ != "ORDER BY a.created_at "@,
        "ORDER BY COALESCE(a.page_count, 0) "@ != "ORDER BY a.created_at "@,
        "ORDER BY a.updated_at "@ != "ORDER BY a.created_at "@,
{
    reveal_strlit("title");
    reveal_strlit("file_size");
    reveal_strlit("page_count");
    reveal_strlit("updated_at");
    assert("title"@[0] != "file_size"@[0] && "title"@[0] != "page_count"@[0]);
    assert("file_size"@[0] != "page_count"@[0]);
    reveal_strlit("ORDER BY ");
    reveal_strlit(" ");
    reveal_strlit("a.title");
    reveal_strlit("a.file_size");
    reveal_strlit("COALESCE(a.page_count, 0)");
    reveal_strlit("a.updated_at");
    reveal_strlit("a.created_at");
    reveal_strlit("ORDER BY a.title ");
    reveal_strlit("ORDER BY a.file_size ");
    reveal_strlit("ORDER BY COALESCE(a.page_count, 0) ");
    reveal_strlit("ORDER BY a.updated_at ");
    reveal_strlit("ORDER BY a.created_at ");
    let d = sort_direction(p.sort_order);
    assert("ORDER BY "@ + "a.title"@ + " "@ + d =~= "ORDER BY a.title "@ + d);
    assert("ORDER BY "@ + "a.file_size"@ + " "@ + d =~= "ORDER BY a.file_size "@ + d);
    assert("ORDER BY "@ + "COALESCE(a.page_count, 0)"@ + " "@ + d =~= "ORDER BY COALESCE(a.page_count, 0) "@ + d);
    assert("ORDER BY "@ + "a.updated_at"@ + " "@ + d =~= "ORDER BY a.updated_at "@ + d);
    assert("ORDER BY "@ + "a.created_at"@ + " "@ + d =~= "ORDER BY a.created_at "@ + d);
    assert("ORDER BY a.title "@[9] != "ORDER BY a.created_at "@[11]
        || "ORDER BY a.title "@[11] != "ORDER BY a.created_at "@[11]);
    assert("ORDER BY a.file_size "@[11] != "ORDER BY a.created_at "@[11]);
    assert("ORDER BY COALESCE(a.page_count, 0) "@[9] != "ORDER BY a.created_at "@[9]);
    assert("ORDER BY a.updated_at "@[11] != "ORDER BY a.created_at "@[11]);
}

} // verus!
