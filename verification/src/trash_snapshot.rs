//! The statements that bring back the rows of other tables that point at a
//! trashed archive. Rows whose foreign key cascades are deleted with the
//! archive and come back as `INSERT`s; the others are only unlinked and get
//! their archive columns back with an `UPDATE`.
//!
//! The caller reads the schema and the rows (each value already rendered as
//! an SQL literal by SQLite's `quote`); everything written here is text.
use crate::text::{ascii_lower_seq, eq_ignore_ascii_case, join_seq, join_strings, str_eq, strings_of};
use crate::trash::{quote_identifier, quoted_identifier};
use vstd::prelude::*;

verus! {

/// One row of `PRAGMA foreign_key_list`: the referenced table, the local
/// column, the delete action.
pub struct ForeignKeyInfo {
    pub table: String,
    pub from: String,
    pub on_delete: String,
}

/// A column that points at `archives`, with its delete action.
pub struct ArchiveKey {
    pub column: String,
    pub on_delete: String,
}

/// One row of `PRAGMA table_info`: the column's name and its place in the
/// primary key (0 when it is not part of it).
pub struct ColumnInfo {
    pub name: String,
    pub pk: i64,
}

/// A primary key column and its place in the key.
pub struct KeyColumn {
    pub position: i64,
    pub name: String,
}

pub open spec fn fk_views(s: Seq<ForeignKeyInfo>) -> Seq<(Seq<char>, Seq<char>, Seq<char>)> {
    s.map_values(|f: ForeignKeyInfo| (f.table@, f.from@, f.on_delete@))
}

pub open spec fn archive_key_views(s: Seq<ArchiveKey>) -> Seq<(Seq<char>, Seq<char>)> {
    s.map_values(|k: ArchiveKey| (k.column@, k.on_delete@))
}

pub open spec fn column_info_views(s: Seq<ColumnInfo>) -> Seq<(Seq<char>, i64)> {
    s.map_values(|c: ColumnInfo| (c.name@, c.pk))
}

pub open spec fn key_column_views(s: Seq<KeyColumn>) -> Seq<(i64, Seq<char>)> {
    s.map_values(|k: KeyColumn| (k.position, k.name@))
}

// ---------------------------------------------------------------------------
// Which tables and columns
// ---------------------------------------------------------------------------
/// `archives` itself and its tags are kept in the archive's own snapshot.
pub open spec fn snapshot_skips(table: Seq<char>) -> bool {
    table == "archives"@ || table == "archive_tags"@
}

pub fn is_snapshot_skipped(table: &str) -> (r: bool)
    ensures
        r == snapshot_skips(table@),
{
    str_eq(table, "archives") || str_eq(table, "archive_tags")
}

/// The foreign keys that reference `archives`, as (column, delete action).
pub open spec fn archive_keys_of(fks: Seq<(Seq<char>, Seq<char>, Seq<char>)>) -> Seq<(Seq<char>, Seq<char>)>
    decreases fks.len(),
{
    if fks.len() == 0 {
        Seq::empty()
    } else if fks.last().0 == "archives"@ {
        archive_keys_of(fks.drop_last()).push((fks.last().1, fks.last().2))
    } else {
        archive_keys_of(fks.drop_last())
    }
}

pub fn archive_keys(fks: &Vec<ForeignKeyInfo>) -> (r: Vec<ArchiveKey>)
    ensures
        archive_key_views(r@) == archive_keys_of(fk_views(fks@)),
{
    let mut r: Vec<ArchiveKey> = Vec::new();
    let mut i: usize = 0;
    while i < fks.len()
        invariant
            i <= fks@.len(),
            archive_key_views(r@) == archive_keys_of(fk_views(fks@).take(i as int)),
        decreases fks@.len() - i,
    {
        proof {
            assert(fk_views(fks@).take(i + 1).drop_last() =~= fk_views(fks@).take(i as int));
            assert(fk_views(fks@).take(i + 1).last() == fk_views(fks@)[i as int]);
        }
        if str_eq(fks[i].table.as_str(), "archives") {
            let ghost before = r@;
            r.push(ArchiveKey { column: fks[i].from.clone(), on_delete: fks[i].on_delete.clone() });
            proof {
                assert(archive_key_views(r@) =~= archive_key_views(before).push((fks@[i as int].from@, fks@[i as int].on_delete@)));
            }
        }
        i = i + 1;
    }
    proof {
        assert(fk_views(fks@).take(fks@.len() as int) =~= fk_views(fks@));
    }
    r
}

/// The primary key columns in table order, as (place in the key, name).
pub open spec fn key_columns_of(info: Seq<(Seq<char>, i64)>) -> Seq<(i64, Seq<char>)>
    decreases info.len(),
{
    if info.len() == 0 {
        Seq::empty()
    } else if info.last().1 != 0 {
        key_columns_of(info.drop_last()).push((info.last().1, info.last().0))
    } else {
        key_columns_of(info.drop_last())
    }
}

pub fn key_columns(info: &Vec<ColumnInfo>) -> (r: Vec<KeyColumn>)
    ensures
        key_column_views(r@) == key_columns_of(column_info_views(info@)),
{
    let mut r: Vec<KeyColumn> = Vec::new();
    let mut i: usize = 0;
    while i < info.len()
        invariant
            i <= info@.len(),
            key_column_views(r@) == key_columns_of(column_info_views(info@).take(i as int)),
        decreases info@.len() - i,
    {
        proof {
            assert(column_info_views(info@).take(i + 1).drop_last() =~= column_info_views(info@).take(i as int));
            assert(column_info_views(info@).take(i + 1).last() == column_info_views(info@)[i as int]);
        }
        if info[i].pk != 0 {
            let ghost before = r@;
            r.push(KeyColumn { position: info[i].pk, name: info[i].name.clone() });
            proof {
                assert(key_column_views(r@) =~= key_column_views(before).push((info@[i as int].pk, info@[i as int].name@)));
            }
        }
        i = i + 1;
    }
    proof {
        assert(column_info_views(info@).take(info@.len() as int) =~= column_info_views(info@));
    }
    r
}

// ---------------------------------------------------------------------------
// The query that reads the rows
// ---------------------------------------------------------------------------
pub open spec fn quoted_value_call(c: Seq<char>) -> Seq<char> {
    "quote("@ + quoted_identifier(c) + ")"@
}

pub open spec fn key_parameter_test(c: Seq<char>) -> Seq<char> {
    quoted_identifier(c) + " = ?"@
}

/// `SELECT quote("c1"), … FROM "t" WHERE "k1" = ? OR …`: every column as an
/// SQL literal, for the rows whose archive columns hold the archive id (one
/// parameter per archive key).
pub open spec fn related_rows_query_of(table: Seq<char>, columns: Seq<Seq<char>>, keys: Seq<(Seq<char>, Seq<char>)>) -> Seq<char> {
    "SELECT "@ + join_seq(columns.map_values(|c: Seq<char>| quoted_value_call(c)), ", "@) + " FROM "@
        + quoted_identifier(table) + " WHERE "@ + join_seq(
        keys.map_values(|k: (Seq<char>, Seq<char>)| key_parameter_test(k.0)),
        " OR "@,
    )
}

fn quoted_value_calls(columns: &Vec<String>) -> (r: Vec<String>)
    ensures
        strings_of(r@) == strings_of(columns@).map_values(|c: Seq<char>| quoted_value_call(c)),
{
    let mut r: Vec<String> = Vec::new();
    let mut i: usize = 0;
    while i < columns.len()
        invariant
            i <= columns@.len(),
            strings_of(r@) == strings_of(columns@).take(i as int).map_values(|c: Seq<char>| quoted_value_call(c)),
        decreases columns@.len() - i,
    {
        let mut s = String::new();
        s.append("quote(");
        let q = quote_identifier(columns[i].as_str());
        s.append(q.as_str());
        s.append(")");
        assert(s@ =~= quoted_value_call(columns@[i as int]@));
        let ghost before = r@;
        r.push(s);
        proof {
            assert(strings_of(r@) =~= strings_of(before).push(quoted_value_call(columns@[i as int]@)));
            assert(strings_of(columns@).take(i + 1) =~= strings_of(columns@).take(i as int).push(columns@[i as int]@));
            assert(strings_of(r@) =~= strings_of(columns@).take(i + 1).map_values(|c: Seq<char>| quoted_value_call(c)));
        }
        i = i + 1;
    }
    proof {
        assert(strings_of(columns@).take(columns@.len() as int) =~= strings_of(columns@));
    }
    r
}

fn key_parameter_tests(keys: &Vec<ArchiveKey>) -> (r: Vec<String>)
    ensures
        strings_of(r@) == archive_key_views(keys@).map_values(|k: (Seq<char>, Seq<char>)| key_parameter_test(k.0)),
{
    let mut r: Vec<String> = Vec::new();
    let mut i: usize = 0;
    while i < keys.len()
        invariant
            i <= keys@.len(),
            strings_of(r@) == archive_key_views(keys@).take(i as int).map_values(
                |k: (Seq<char>, Seq<char>)| key_parameter_test(k.0),
            ),
        decreases keys@.len() - i,
    {
        let mut s = quote_identifier(keys[i].column.as_str());
        s.append(" = ?");
        let ghost before = r@;
        r.push(s);
        proof {
            assert(strings_of(r@) =~= strings_of(before).push(key_parameter_test(keys@[i as int].column@)));
            assert(archive_key_views(keys@).take(i + 1) =~= archive_key_views(keys@).take(i as int).push(
                (keys@[i as int].column@, keys@[i as int].on_delete@),
            ));
            assert(strings_of(r@) =~= archive_key_views(keys@).take(i + 1).map_values(
                |k: (Seq<char>, Seq<char>)| key_parameter_test(k.0),
            ));
        }
        i = i + 1;
    }
    proof {
        assert(archive_key_views(keys@).take(keys@.len() as int) =~= archive_key_views(keys@));
    }
    r
}

/// The query that reads, as SQL literals, the rows of `table` that point at
/// the archive.
pub fn related_rows_query(table: &str, columns: &Vec<String>, keys: &Vec<ArchiveKey>) -> (r: String)
    ensures
        r@ == related_rows_query_of(table@, strings_of(columns@), archive_key_views(keys@)),
{
    let mut s = String::new();
    s.append("SELECT ");
    let select = join_strings(&quoted_value_calls(columns), ", ");
    s.append(select.as_str());
    s.append(" FROM ");
    let t = quote_identifier(table);
    s.append(t.as_str());
    s.append(" WHERE ");
    let tests = join_strings(&key_parameter_tests(keys), " OR ");
    s.append(tests.as_str());
    s
}


// ---------------------------------------------------------------------------
// Primary key order
// ---------------------------------------------------------------------------
/// `x` placed after the elements at the end whose place is at most its own:
/// one step of a stable sort by place.
pub open spec fn insert_by_position(s: Seq<(i64, Seq<char>)>, x: (i64, Seq<char>)) -> Seq<(i64, Seq<char>)>
    decreases s.len(),
{
    if s.len() == 0 {
        seq![x]
    } else if s.last().0 <= x.0 {
        s.push(x)
    } else {
        insert_by_position(s.drop_last(), x).push(s.last())
    }
}

/// The key columns ordered by their place, equal places in their first order
/// (`sort_by_key` on the place).
pub open spec fn sorted_by_position(s: Seq<(i64, Seq<char>)>) -> Seq<(i64, Seq<char>)>
    decreases s.len(),
{
    if s.len() == 0 {
        Seq::empty()
    } else {
        insert_by_position(sorted_by_position(s.drop_last()), s.last())
    }
}

pub open spec fn position_sorted(s: Seq<(i64, Seq<char>)>) -> bool {
    forall|i: int, j: int| 0 <= i < j < s.len() ==> #[trigger] s[i].0 <= #[trigger] s[j].0
}

proof fn lemma_insert_by_position(s: Seq<(i64, Seq<char>)>, x: (i64, Seq<char>))
    requires
        position_sorted(s),
    ensures
        position_sorted(insert_by_position(s, x)),
        insert_by_position(s, x).to_multiset() == s.to_multiset().insert(x),
        insert_by_position(s, x).len() == s.len() + 1,
        forall|i: int| 0 <= i < insert_by_position(s, x).len() ==> #[trigger] insert_by_position(s, x)[i] == x || exists|k: int| 0 <= k < s.len() && s[k] == insert_by_position(s, x)[i],
    decreases s.len(),
{
    broadcast use vstd::multiset::group_multiset_axioms;
    if s.len() == 0 {
        assert(seq![x] =~= Seq::<(i64, Seq<char>)>::empty().push(x));
        broadcast use vstd::seq_lib::group_seq_properties;
    } else if s.last().0 <= x.0 {
        broadcast use vstd::seq_lib::group_seq_properties;
        let r = s.push(x);
        assert forall|i: int, j: int| 0 <= i < j < r.len() implies #[trigger] r[i].0 <= #[trigger] r[j].0 by {
            if j == s.len() {
                assert(s[i].0 <= s[s.len() - 1].0);
            }
        }
        assert forall|i: int| 0 <= i < r.len() implies #[trigger] r[i] == x || exists|k: int| 0 <= k < s.len() && s[k] == r[i] by {
            if i < s.len() {
                assert(s[i] == r[i]);
            }
        }
    } else {
        let d = s.drop_last();
        assert(position_sorted(d));
        lemma_insert_by_position(d, x);
        let t = insert_by_position(d, x);
        let r = t.push(s.last());
        broadcast use vstd::seq_lib::group_seq_properties;
        assert(s =~= d.push(s.last()));
        assert forall|i: int| 0 <= i < r.len() implies #[trigger] r[i].0 >= x.0 || exists|k: int| 0 <= k < s.len() && s[k] == r[i] by {
            if i < t.len() {
                if !(t[i] == x) {
                    let k = choose|k: int| 0 <= k < d.len() && d[k] == t[i];
                    assert(s[k] == r[i]);
                }
            }
        }
        assert forall|i: int, j: int| 0 <= i < j < r.len() implies #[trigger] r[i].0 <= #[trigger] r[j].0 by {
            if j == t.len() {
                if t[i] == x {
                } else {
                    let k = choose|k: int| 0 <= k < d.len() && d[k] == t[i];
                    assert(s[k].0 <= s[s.len() - 1].0);
                }
            }
        }
        assert(r.to_multiset() =~= s.to_multiset().insert(x)) by {
            vstd::seq_lib::lemma_multiset_commutative(t, seq![s.last()]);
            vstd::seq_lib::lemma_multiset_commutative(d, seq![s.last()]);
            assert(t + seq![s.last()] =~= r);
            assert(d + seq![s.last()] =~= s);
        }
    }
}

/// The order is a stable sort: ascending by place, with the same elements.
pub proof fn lemma_sorted_by_position(s: Seq<(i64, Seq<char>)>)
    ensures
        position_sorted(sorted_by_position(s)),
        sorted_by_position(s).to_multiset() == s.to_multiset(),
        sorted_by_position(s).len() == s.len(),
    decreases s.len(),
{
    broadcast use vstd::multiset::group_multiset_axioms;
    broadcast use vstd::seq_lib::group_seq_properties;
    if s.len() > 0 {
        lemma_sorted_by_position(s.drop_last());
        lemma_insert_by_position(sorted_by_position(s.drop_last()), s.last());
        assert(s =~= s.drop_last().push(s.last()));
        assert(s.to_multiset() == s.drop_last().to_multiset().insert(s.last()));
    }
}

fn sort_key_columns(pk: &Vec<KeyColumn>) -> (r: Vec<KeyColumn>)
    ensures
        key_column_views(r@) == sorted_by_position(key_column_views(pk@)),
{
    let ghost v = key_column_views(pk@);
    let mut out: Vec<KeyColumn> = Vec::new();
    let mut i: usize = 0;
    while i < pk.len()
        invariant
            i <= pk@.len(),
            v == key_column_views(pk@),
            key_column_views(out@) == sorted_by_position(v.take(i as int)),
        decreases pk@.len() - i,
    {
        let x = KeyColumn { position: pk[i].position, name: pk[i].name.clone() };
        let ghost xv = (x.position, x.name@);
        let ghost w = key_column_views(out@);
        let mut j: usize = out.len();
        proof {
            assert(w.take(j as int) =~= w);
            assert(insert_by_position(w, xv) + w.skip(j as int) =~= insert_by_position(w, xv));
        }
        while j > 0 && out[j - 1].position > x.position
            invariant
                j <= out@.len(),
                w == key_column_views(out@),
                xv == (x.position, x.name@),
                insert_by_position(w, xv) == insert_by_position(w.take(j as int), xv) + w.skip(j as int),
            decreases j,
        {
            proof {
                let t = w.take(j as int);
                assert(t.drop_last() =~= w.take(j - 1));
                assert(t.last() == w[j - 1]);
                assert(w.skip(j - 1) =~= seq![w[j - 1]] + w.skip(j as int));
                assert(insert_by_position(t, xv) == insert_by_position(w.take(j - 1), xv).push(w[j - 1]));
                assert(insert_by_position(w.take(j - 1), xv).push(w[j - 1]) + w.skip(j as int) =~= insert_by_position(
                    w.take(j - 1),
                    xv,
                ) + w.skip(j - 1));
            }
            j = j - 1;
        }
        proof {
            if j == 0 {
                assert(w.take(0) =~= Seq::<(i64, Seq<char>)>::empty());
            }
            assert(insert_by_position(w.take(j as int), xv) =~= w.take(j as int).push(xv));
        }
        out.insert(j, x);
        proof {
            assert(key_column_views(out@) =~= w.take(j as int).push(xv) + w.skip(j as int));
            assert(v.take(i + 1).drop_last() =~= v.take(i as int));
            assert(v.take(i + 1).last() == xv);
        }
        i = i + 1;
    }
    proof {
        assert(v.take(pk@.len() as int) =~= v);
    }
    out
}

// ---------------------------------------------------------------------------
// Columns by name
// ---------------------------------------------------------------------------
/// `i` is the first place of `c` in `s` (`Iterator::position`).
pub open spec fn first_at(s: Seq<Seq<char>>, c: Seq<char>, i: int) -> bool {
    &&& 0 <= i < s.len()
    &&& s[i] == c
    &&& forall|k: int| 0 <= k < i ==> s[k] != c
}

pub open spec fn first_index(s: Seq<Seq<char>>, c: Seq<char>) -> int {
    choose|i: int| first_at(s, c, i)
}

proof fn lemma_first_exists(s: Seq<Seq<char>>, c: Seq<char>, k: int)
    requires
        0 <= k < s.len(),
        s[k] == c,
    ensures
        exists|i: int| first_at(s, c, i),
    decreases k,
{
    if forall|q: int| 0 <= q < k ==> s[q] != c {
        assert(first_at(s, c, k));
    } else {
        let q = choose|q: int| 0 <= q < k && s[q] == c;
        lemma_first_exists(s, c, q);
    }
}

pub proof fn lemma_first_index(s: Seq<Seq<char>>, c: Seq<char>)
    requires
        s.contains(c),
    ensures
        first_at(s, c, first_index(s, c)),
        forall|i: int| first_at(s, c, i) ==> i == first_index(s, c),
{
    let k = choose|k: int| 0 <= k < s.len() && s[k] == c;
    lemma_first_exists(s, c, k);
    let f = first_index(s, c);
    assert forall|i1: int| first_at(s, c, i1) implies i1 == f by {
        if i1 < f {
            assert(s[i1] != c);
        } else if f < i1 {
            assert(s[f] != c);
        }
    }
}

fn find_column(columns: &Vec<String>, name: &str) -> (r: Option<usize>)
    ensures
        match r {
            Some(i) => first_at(strings_of(columns@), name@, i as int),
            None => !strings_of(columns@).contains(name@),
        },
{
    let mut i: usize = 0;
    while i < columns.len()
        invariant
            i <= columns@.len(),
            forall|k: int| 0 <= k < i ==> #[trigger] strings_of(columns@)[k] != name@,
        decreases columns@.len() - i,
    {
        if str_eq(columns[i].as_str(), name) {
            return Some(i);
        }
        i = i + 1;
    }
    None
}


// ---------------------------------------------------------------------------
// The statements
// ---------------------------------------------------------------------------
/// A delete action of `CASCADE`, in any case.
pub open spec fn cascades(keys: Seq<(Seq<char>, Seq<char>)>) -> bool {
    exists|i: int| 0 <= i < keys.len() && ascii_lower_seq(#[trigger] keys[i].1) == ascii_lower_seq("CASCADE"@)
}

/// The (column, value) pairs that name the row: its primary key columns in
/// key order (those found among the columns), or every column when the table
/// has no primary key.
pub open spec fn key_pairs(pk: Seq<(i64, Seq<char>)>, columns: Seq<Seq<char>>, values: Seq<Seq<char>>) -> Seq<(Seq<char>, Seq<char>)>
    decreases pk.len(),
{
    if pk.len() == 0 {
        Seq::empty()
    } else if columns.contains(pk.last().1) {
        key_pairs(pk.drop_last(), columns, values).push((pk.last().1, values[first_index(columns, pk.last().1)]))
    } else {
        key_pairs(pk.drop_last(), columns, values)
    }
}

pub open spec fn row_pairs(columns: Seq<Seq<char>>, pk: Seq<(i64, Seq<char>)>, values: Seq<Seq<char>>) -> Seq<(Seq<char>, Seq<char>)> {
    if pk.len() == 0 {
        Seq::new(columns.len(), |i: int| (columns[i], values[i]))
    } else {
        key_pairs(sorted_by_position(pk), columns, values)
    }
}

/// `"c" IS NULL` for an SQL `NULL`, else `"c" = value`.
pub open spec fn row_test(p: (Seq<char>, Seq<char>)) -> Seq<char> {
    if p.1 == "NULL"@ {
        quoted_identifier(p.0) + " IS NULL"@
    } else {
        quoted_identifier(p.0) + " = "@ + p.1
    }
}

/// `"k" = value`: an archive column gets its value back.
pub open spec fn key_assignment(k: Seq<char>, columns: Seq<Seq<char>>, values: Seq<Seq<char>>) -> Seq<char> {
    quoted_identifier(k) + " = "@ + values[first_index(columns, k)]
}

pub open spec fn insert_statement_of(table: Seq<char>, columns: Seq<Seq<char>>, values: Seq<Seq<char>>) -> Seq<char> {
    "INSERT INTO "@ + quoted_identifier(table) + " ("@ + join_seq(
        columns.map_values(|c: Seq<char>| quoted_identifier(c)),
        ", "@,
    ) + ") VALUES ("@ + join_seq(values, ", "@) + ")"@
}

pub open spec fn update_statement_of(
    table: Seq<char>,
    columns: Seq<Seq<char>>,
    pk: Seq<(i64, Seq<char>)>,
    keys: Seq<(Seq<char>, Seq<char>)>,
    values: Seq<Seq<char>>,
) -> Seq<char> {
    "UPDATE "@ + quoted_identifier(table) + " SET "@ + join_seq(
        keys.map_values(|k: (Seq<char>, Seq<char>)| key_assignment(k.0, columns, values)),
        ", "@,
    ) + " WHERE "@ + join_seq(row_pairs(columns, pk, values).map_values(|p: (Seq<char>, Seq<char>)| row_test(p)), " AND "@)
}

/// What brings one row back.
pub enum RestoreStatement {
    Insert(String),
    Update(String),
}

fn has_cascade(keys: &Vec<ArchiveKey>) -> (r: bool)
    ensures
        r == cascades(archive_key_views(keys@)),
{
    let mut i: usize = 0;
    while i < keys.len()
        invariant
            i <= keys@.len(),
            forall|k: int| 0 <= k < i ==> ascii_lower_seq(#[trigger] archive_key_views(keys@)[k].1) != ascii_lower_seq("CASCADE"@),
        decreases keys@.len() - i,
    {
        if eq_ignore_ascii_case(keys[i].on_delete.as_str(), "CASCADE") {
            assert(archive_key_views(keys@)[i as int].1 == keys@[i as int].on_delete@);
            return true;
        }
        i = i + 1;
    }
    false
}

fn quoted_columns(columns: &Vec<String>) -> (r: Vec<String>)
    ensures
        strings_of(r@) == strings_of(columns@).map_values(|c: Seq<char>| quoted_identifier(c)),
{
    let mut r: Vec<String> = Vec::new();
    let mut i: usize = 0;
    while i < columns.len()
        invariant
            i <= columns@.len(),
            strings_of(r@) == strings_of(columns@).take(i as int).map_values(|c: Seq<char>| quoted_identifier(c)),
        decreases columns@.len() - i,
    {
        let q = quote_identifier(columns[i].as_str());
        let ghost before = r@;
        r.push(q);
        proof {
            assert(strings_of(r@) =~= strings_of(before).push(quoted_identifier(columns@[i as int]@)));
            assert(strings_of(columns@).take(i + 1) =~= strings_of(columns@).take(i as int).push(columns@[i as int]@));
            assert(strings_of(r@) =~= strings_of(columns@).take(i + 1).map_values(|c: Seq<char>| quoted_identifier(c)));
        }
        i = i + 1;
    }
    proof {
        assert(strings_of(columns@).take(columns@.len() as int) =~= strings_of(columns@));
    }
    r
}

/// `INSERT INTO "t" ("c1", …) VALUES (v1, …)`.
pub fn insert_statement(table: &str, columns: &Vec<String>, values: &Vec<String>) -> (r: String)
    ensures
        r@ == insert_statement_of(table@, strings_of(columns@), strings_of(values@)),
{
    let mut s = String::new();
    s.append("INSERT INTO ");
    let t = quote_identifier(table);
    s.append(t.as_str());
    s.append(" (");
    let cols = join_strings(&quoted_columns(columns), ", ");
    s.append(cols.as_str());
    s.append(") VALUES (");
    let vals = join_strings(values, ", ");
    s.append(vals.as_str());
    s.append(")");
    s
}

fn key_assignments(keys: &Vec<ArchiveKey>, columns: &Vec<String>, values: &Vec<String>) -> (r: Vec<String>)
    requires
        values@.len() == columns@.len(),
        forall|k: int| 0 <= k < keys@.len() ==> strings_of(columns@).contains(#[trigger] keys@[k].column@),
    ensures
        strings_of(r@) == archive_key_views(keys@).map_values(
            |k: (Seq<char>, Seq<char>)| key_assignment(k.0, strings_of(columns@), strings_of(values@)),
        ),
{
    let ghost cs = strings_of(columns@);
    let ghost vs = strings_of(values@);
    let mut r: Vec<String> = Vec::new();
    let mut i: usize = 0;
    while i < keys.len()
        invariant
            i <= keys@.len(),
            cs == strings_of(columns@),
            vs == strings_of(values@),
            values@.len() == columns@.len(),
            forall|k: int| 0 <= k < keys@.len() ==> cs.contains(#[trigger] keys@[k].column@),
            strings_of(r@) == archive_key_views(keys@).take(i as int).map_values(
                |k: (Seq<char>, Seq<char>)| key_assignment(k.0, cs, vs),
            ),
        decreases keys@.len() - i,
    {
        let found = find_column(columns, keys[i].column.as_str());
        proof {
            assert(cs.contains(keys@[i as int].column@));
            lemma_first_index(cs, keys@[i as int].column@);
        }
        let at = match found {
            Some(at) => at,
            None => {
                proof {
                    assert(false);
                }
                0
            },
        };
        proof {
            assert(at as int == first_index(cs, keys@[i as int].column@));
        }
        let mut s = quote_identifier(keys[i].column.as_str());
        s.append(" = ");
        s.append(values[at].as_str());
        let ghost before = r@;
        r.push(s);
        proof {
            assert(vs[at as int] == values@[at as int]@);
            assert(strings_of(r@) =~= strings_of(before).push(key_assignment(keys@[i as int].column@, cs, vs)));
            assert(archive_key_views(keys@).take(i + 1) =~= archive_key_views(keys@).take(i as int).push(
                (keys@[i as int].column@, keys@[i as int].on_delete@),
            ));
            assert(strings_of(r@) =~= archive_key_views(keys@).take(i + 1).map_values(
                |k: (Seq<char>, Seq<char>)| key_assignment(k.0, cs, vs),
            ));
        }
        i = i + 1;
    }
    proof {
        assert(archive_key_views(keys@).take(keys@.len() as int) =~= archive_key_views(keys@));
    }
    r
}

/// The row's (column, value) pairs that the `WHERE` clause tests.
fn row_pair_list(columns: &Vec<String>, pk: &Vec<KeyColumn>, values: &Vec<String>) -> (r: Vec<(String, String)>)
    requires
        values@.len() == columns@.len(),
    ensures
        r@.map_values(|p: (String, String)| (p.0@, p.1@)) == row_pairs(
            strings_of(columns@),
            key_column_views(pk@),
            strings_of(values@),
        ),
{
    let ghost cs = strings_of(columns@);
    let ghost vs = strings_of(values@);
    let mut r: Vec<(String, String)> = Vec::new();
    if pk.len() == 0 {
        let mut i: usize = 0;
        while i < columns.len()
            invariant
                i <= columns@.len(),
                values@.len() == columns@.len(),
                cs == strings_of(columns@),
                vs == strings_of(values@),
                r@.map_values(|p: (String, String)| (p.0@, p.1@)) =~= Seq::new(i as nat, |k: int| (cs[k], vs[k])),
            decreases columns@.len() - i,
        {
            let ghost before = r@;
            r.push((columns[i].clone(), values[i].clone()));
            proof {
                assert(r@.map_values(|p: (String, String)| (p.0@, p.1@)) =~= before.map_values(
                    |p: (String, String)| (p.0@, p.1@),
                ).push((cs[i as int], vs[i as int])));
            }
            i = i + 1;
        }
        proof {
            assert(key_column_views(pk@).len() == 0);
        }
        return r;
    }
    let sorted = sort_key_columns(pk);
    let ghost sv = key_column_views(sorted@);
    let mut i: usize = 0;
    while i < sorted.len()
        invariant
            i <= sorted@.len(),
            values@.len() == columns@.len(),
            cs == strings_of(columns@),
            vs == strings_of(values@),
            sv == key_column_views(sorted@),
            r@.map_values(|p: (String, String)| (p.0@, p.1@)) == key_pairs(sv.take(i as int), cs, vs),
        decreases sorted@.len() - i,
    {
        proof {
            assert(sv.take(i + 1).drop_last() =~= sv.take(i as int));
            assert(sv.take(i + 1).last() == sv[i as int]);
        }
        match find_column(columns, sorted[i].name.as_str()) {
            Some(at) => {
                proof {
                    lemma_first_index(cs, sv[i as int].1);
                    assert(at as int == first_index(cs, sv[i as int].1));
                }
                let ghost before = r@;
                r.push((sorted[i].name.clone(), values[at].clone()));
                proof {
                    assert(r@.map_values(|p: (String, String)| (p.0@, p.1@)) =~= before.map_values(
                        |p: (String, String)| (p.0@, p.1@),
                    ).push((sv[i as int].1, vs[at as int])));
                }
            },
            None => {},
        }
        i = i + 1;
    }
    proof {
        assert(sv.take(sorted@.len() as int) =~= sv);
    }
    r
}

fn row_tests(pairs: &Vec<(String, String)>) -> (r: Vec<String>)
    ensures
        strings_of(r@) == pairs@.map_values(|p: (String, String)| (p.0@, p.1@)).map_values(
            |p: (Seq<char>, Seq<char>)| row_test(p),
        ),
{
    let ghost pv = pairs@.map_values(|p: (String, String)| (p.0@, p.1@));
    let mut r: Vec<String> = Vec::new();
    let mut i: usize = 0;
    while i < pairs.len()
        invariant
            i <= pairs@.len(),
            pv == pairs@.map_values(|p: (String, String)| (p.0@, p.1@)),
            strings_of(r@) == pv.take(i as int).map_values(|p: (Seq<char>, Seq<char>)| row_test(p)),
        decreases pairs@.len() - i,
    {
        let mut s = quote_identifier(pairs[i].0.as_str());
        if str_eq(pairs[i].1.as_str(), "NULL") {
            s.append(" IS NULL");
        } else {
            s.append(" = ");
            s.append(pairs[i].1.as_str());
        }
        let ghost before = r@;
        r.push(s);
        proof {
            assert(pv[i as int] == (pairs@[i as int].0@, pairs@[i as int].1@));
            assert(strings_of(r@) =~= strings_of(before).push(row_test(pv[i as int])));
            assert(pv.take(i + 1) =~= pv.take(i as int).push(pv[i as int]));
            assert(strings_of(r@) =~= pv.take(i + 1).map_values(|p: (Seq<char>, Seq<char>)| row_test(p)));
        }
        i = i + 1;
    }
    proof {
        assert(pv.take(pairs@.len() as int) =~= pv);
    }
    r
}

/// `UPDATE "t" SET "k" = v, … WHERE "c" = v AND …`.
pub fn update_statement(table: &str, columns: &Vec<String>, pk: &Vec<KeyColumn>, keys: &Vec<ArchiveKey>, values: &Vec<String>) -> (r: String)
    requires
        values@.len() == columns@.len(),
        forall|k: int| 0 <= k < keys@.len() ==> strings_of(columns@).contains(#[trigger] keys@[k].column@),
    ensures
        r@ == update_statement_of(
            table@,
            strings_of(columns@),
            key_column_views(pk@),
            archive_key_views(keys@),
            strings_of(values@),
        ),
{
    let mut s = String::new();
    s.append("UPDATE ");
    let t = quote_identifier(table);
    s.append(t.as_str());
    s.append(" SET ");
    let sets = join_strings(&key_assignments(keys, columns, values), ", ");
    s.append(sets.as_str());
    s.append(" WHERE ");
    let pairs = row_pair_list(columns, pk, values);
    let tests = join_strings(&row_tests(&pairs), " AND ");
    s.append(tests.as_str());
    s
}

/// The statement that brings back one row of `table` (its values as SQL
/// literals, in column order): an `INSERT` when a key to the archive
/// cascades, else an `UPDATE` that sets the archive columns back.
pub fn restore_statement(
    table: &str,
    columns: &Vec<String>,
    pk: &Vec<KeyColumn>,
    keys: &Vec<ArchiveKey>,
    values: &Vec<String>,
) -> (r: RestoreStatement)
    requires
        values@.len() == columns@.len(),
        forall|k: int| 0 <= k < keys@.len() ==> strings_of(columns@).contains(#[trigger] keys@[k].column@),
    ensures
        cascades(archive_key_views(keys@)) ==> (r matches RestoreStatement::Insert(s) && s@ == insert_statement_of(
            table@,
            strings_of(columns@),
            strings_of(values@),
        )),
        !cascades(archive_key_views(keys@)) ==> (r matches RestoreStatement::Update(s) && s@ == update_statement_of(
            table@,
            strings_of(columns@),
            key_column_views(pk@),
            archive_key_views(keys@),
            strings_of(values@),
        )),
{
    if has_cascade(keys) {
        RestoreStatement::Insert(insert_statement(table, columns, values))
    } else {
        RestoreStatement::Update(update_statement(table, columns, pk, keys, values))
    }
}

} // verus!
