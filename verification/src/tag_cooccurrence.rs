//! The tag co-occurrence graph: which ordinary tags are carried together by
//! at least two archives, with their archive counts; and the tag ids whose
//! relations wait for the next rebuild of the graph. Changes are coalesced:
//! each id is kept once, in order, until the rebuild takes them all.
use crate::namespace_policy::is_system_managed_theme_namespace;
use crate::ordered::{find_sorted, insert_sorted, lemma_lex_irreflexive, lemma_lex_transitive, lemma_lex_trichotomy, lex_lt, strictly_sorted};
use crate::text::{
    ascii_lower_seq, contains_str, is_blank, is_blank_seq, owned, strings_of, to_ascii_lowercase, trim, trim_seq,
};
use vstd::prelude::*;

verus! {

/// The ids of changed tags, sorted and without duplicates.
pub struct PendingTagIds {
    ids: Vec<String>,
}

/// The non-blank ids of a list.
pub open spec fn non_blank_ids(ids: Seq<String>) -> Set<Seq<char>> {
    Set::new(|a: Seq<char>| strings_of(ids).contains(a) && !is_blank_seq(a))
}

proof fn lemma_contains_push(s: Seq<Seq<char>>, x: Seq<char>)
    ensures
        forall|a: Seq<char>| #[trigger] s.push(x).contains(a) <==> (s.contains(a) || a == x),
{
    assert forall|a: Seq<char>| #[trigger] s.push(x).contains(a) <==> (s.contains(a) || a == x) by {
        if s.push(x).contains(a) {
            let i = choose|i: int| 0 <= i < s.push(x).len() && s.push(x)[i] == a;
            if i < s.len() {
                assert(s[i] == a);
            }
        }
        if s.contains(a) {
            let i = choose|i: int| 0 <= i < s.len() && s[i] == a;
            assert(s.push(x)[i] == a);
        }
        if a == x {
            assert(s.push(x)[s.len() as int] == x);
        }
    }
}

/// The ids of a list.
pub open spec fn id_set(ids: Seq<String>) -> Set<Seq<char>> {
    Set::new(|a: Seq<char>| strings_of(ids).contains(a))
}

impl PendingTagIds {
    /// The ids that wait.
    pub closed spec fn view(&self) -> Set<Seq<char>> {
        id_set(self.ids@)
    }

    pub closed spec fn wf(&self) -> bool {
        strictly_sorted(strings_of(self.ids@))
    }

    pub fn new() -> (r: Self)
        ensures
            r.wf(),
            r@ == Set::<Seq<char>>::empty(),
    {
        let r = PendingTagIds { ids: Vec::new() };
        assert(r@ =~= Set::<Seq<char>>::empty());
        r
    }

    /// Whether no id waits.
    pub fn is_empty(&self) -> (r: bool)
        ensures
            r == (self@ == Set::<Seq<char>>::empty()),
    {
        if self.ids.len() == 0 {
            assert(self@ =~= Set::<Seq<char>>::empty());
            true
        } else {
            assert(strings_of(self.ids@)[0] == self.ids@[0]@);
            assert(strings_of(self.ids@).contains(self.ids@[0]@));
            assert(self@.contains(self.ids@[0]@));
            false
        }
    }

    fn add(&mut self, id: &str)
        requires
            old(self).wf(),
        ensures
            final(self).wf(),
            final(self)@ == old(self)@.insert(id@),
    {
        insert_sorted(&mut self.ids, owned(id));
        assert(self@ =~= old(self)@.insert(id@));
    }

    /// Adds every id of `ids`, blank ones too.
    pub fn extend(&mut self, ids: &Vec<String>)
        requires
            old(self).wf(),
        ensures
            final(self).wf(),
            final(self)@ == old(self)@.union(id_set(ids@)),
    {
        let mut k: usize = 0;
        while k < ids.len()
            invariant
                k <= ids@.len(),
                self.wf(),
                self@ == old(self)@.union(id_set(ids@.take(k as int))),
            decreases ids@.len() - k,
        {
            self.add(ids[k].as_str());
            proof {
                assert(strings_of(ids@.take(k + 1)) =~= strings_of(ids@.take(k as int)).push(ids@[k as int]@));
                lemma_contains_push(strings_of(ids@.take(k as int)), ids@[k as int]@);
                assert(id_set(ids@.take(k + 1)) =~= id_set(ids@.take(k as int)).insert(ids@[k as int]@));
                assert(self@ =~= old(self)@.union(id_set(ids@.take(k + 1))));
            }
            k = k + 1;
        }
        assert(ids@.take(ids@.len() as int) =~= ids@);
    }

    /// Removes and returns every waiting id, sorted.
    pub fn take(&mut self) -> (r: Vec<String>)
        requires
            old(self).wf(),
        ensures
            final(self).wf(),
            final(self)@ == Set::<Seq<char>>::empty(),
            strictly_sorted(strings_of(r@)),
            id_set(r@) == old(self)@,
    {
        let mut r: Vec<String> = Vec::new();
        std::mem::swap(&mut r, &mut self.ids);
        assert(self@ =~= Set::<Seq<char>>::empty());
        r
    }
}

fn add_non_blank(pending: &mut PendingTagIds, tag_ids: &Vec<String>)
    requires
        old(pending).wf(),
    ensures
        final(pending).wf(),
        final(pending)@ == old(pending)@.union(non_blank_ids(tag_ids@)),
{
    let mut k: usize = 0;
    while k < tag_ids.len()
        invariant
            k <= tag_ids@.len(),
            pending.wf(),
            pending@ == old(pending)@.union(non_blank_ids(tag_ids@.take(k as int))),
        decreases tag_ids@.len() - k,
    {
        let id = tag_ids[k].as_str();
        proof {
            assert(strings_of(tag_ids@.take(k + 1)) =~= strings_of(tag_ids@.take(k as int)).push(tag_ids@[k as int]@));
            lemma_contains_push(strings_of(tag_ids@.take(k as int)), tag_ids@[k as int]@);
        }
        if !is_blank(id) {
            pending.add(id);
            assert(non_blank_ids(tag_ids@.take(k + 1)) =~= non_blank_ids(tag_ids@.take(k as int)).insert(id@));
        } else {
            assert(non_blank_ids(tag_ids@.take(k + 1)) =~= non_blank_ids(tag_ids@.take(k as int)));
        }
        assert(pending@ =~= old(pending)@.union(non_blank_ids(tag_ids@.take(k + 1))));
        k = k + 1;
    }
    assert(tag_ids@.take(tag_ids@.len() as int) =~= tag_ids@);
}

/// Records the tags of a mutation for the next rebuild of the graph and its
/// semantic candidates; blank ids are dropped. The caller then wakes the
/// rebuild worker.
pub fn notify_tag_cooccurrence_rebuild_for_tags(pending: &mut PendingTagIds, tag_ids: Vec<String>)
    requires
        old(pending).wf(),
    ensures
        final(pending).wf(),
        final(pending)@ == old(pending)@.union(non_blank_ids(tag_ids@)),
{
    add_non_blank(pending, &tag_ids);
}

/// Notifying the same changed tags again keeps them once: repeated
/// notifications coalesce.
pub proof fn law_repeated_notifications_coalesce(pending: Set<Seq<char>>, tag_ids: Seq<String>)
    ensures
        pending.union(non_blank_ids(tag_ids)).union(non_blank_ids(tag_ids)) == pending.union(non_blank_ids(tag_ids)),
{
    assert(pending.union(non_blank_ids(tag_ids)).union(non_blank_ids(tag_ids)) =~= pending.union(non_blank_ids(tag_ids)));
}

// ---------------------------------------------------------------------------
// Grouping the tag rows by archive
// ---------------------------------------------------------------------------
/// One tag of one archive, with the tag's namespace.
#[derive(Debug)]
pub struct ArchiveTagRow {
    pub archive_id: String,
    pub tag_id: String,
    pub namespace: String,
}

/// A namespace trimmed and in ASCII lower case.
pub open spec fn normalized_namespace(ns: Seq<char>) -> Seq<char> {
    ascii_lower_seq(trim_seq(ns))
}

/// A row counts for the graph when its tag's namespace, normalized, is
/// neither the system-managed theme namespace nor a metadata namespace.
pub open spec fn counted(r: ArchiveTagRow, metadata: Seq<Seq<char>>) -> bool {
    let n = normalized_namespace(r.namespace@);
    ascii_lower_seq(trim_seq(n)) != "theme"@ && !metadata.contains(n)
}

/// The archives with a counted row, each once, in the order they first appear.
pub open spec fn archives_in_order(rows: Seq<ArchiveTagRow>, metadata: Seq<Seq<char>>) -> Seq<Seq<char>>
    decreases rows.len(),
{
    if rows.len() == 0 {
        Seq::empty()
    } else {
        let prev = archives_in_order(rows.drop_last(), metadata);
        let r = rows.last();
        if counted(r, metadata) && !prev.contains(r.archive_id@) {
            prev.push(r.archive_id@)
        } else {
            prev
        }
    }
}

/// Archive `a` carries tag `t` in a counted row.
pub open spec fn carries(rows: Seq<ArchiveTagRow>, metadata: Seq<Seq<char>>, a: Seq<char>, t: Seq<char>) -> bool {
    exists|i: int|
        #![trigger rows[i]]
        0 <= i < rows.len() && counted(rows[i], metadata) && rows[i].archive_id@ == a && rows[i].tag_id@ == t
}

proof fn lemma_carries_push(rows: Seq<ArchiveTagRow>, r: ArchiveTagRow, metadata: Seq<Seq<char>>)
    ensures
        forall|a: Seq<char>, t: Seq<char>|
            #[trigger] carries(rows.push(r), metadata, a, t) <==> carries(rows, metadata, a, t) || (counted(r, metadata)
                && r.archive_id@ == a && r.tag_id@ == t),
{
    assert forall|a: Seq<char>, t: Seq<char>|
        #[trigger] carries(rows.push(r), metadata, a, t) <==> carries(rows, metadata, a, t) || (counted(r, metadata)
            && r.archive_id@ == a && r.tag_id@ == t) by {
        let s = rows.push(r);
        if carries(s, metadata, a, t) {
            let i = choose|i: int|
                #![trigger s[i]]
                0 <= i < s.len() && counted(s[i], metadata) && s[i].archive_id@ == a && s[i].tag_id@ == t;
            if i < rows.len() {
                assert(rows[i] == s[i]);
            }
        }
        if carries(rows, metadata, a, t) {
            let i = choose|i: int|
                #![trigger rows[i]]
                0 <= i < rows.len() && counted(rows[i], metadata) && rows[i].archive_id@ == a && rows[i].tag_id@ == t;
            assert(s[i] == rows[i]);
        }
        if counted(r, metadata) && r.archive_id@ == a && r.tag_id@ == t {
            assert(s[rows.len() as int] == r);
        }
    }
}

/// Each archive is listed once.
proof fn lemma_archives_distinct(rows: Seq<ArchiveTagRow>, metadata: Seq<Seq<char>>)
    ensures
        archives_in_order(rows, metadata).no_duplicates(),
    decreases rows.len(),
{
    if rows.len() > 0 {
        lemma_archives_distinct(rows.drop_last(), metadata);
        let prev = archives_in_order(rows.drop_last(), metadata);
        let r = rows.last();
        if counted(r, metadata) && !prev.contains(r.archive_id@) {
            let s = prev.push(r.archive_id@);
            assert forall|i: int, j: int| 0 <= i < s.len() && 0 <= j < s.len() && i != j implies s[i] != s[j] by {
                if i < prev.len() && j < prev.len() {
                } else if i < prev.len() {
                    assert(prev.contains(prev[i]));
                } else {
                    assert(prev.contains(prev[j]));
                }
            }
        }
    }
}

/// An archive that carries a tag is listed.
proof fn lemma_carrier_listed(rows: Seq<ArchiveTagRow>, metadata: Seq<Seq<char>>, a: Seq<char>, t: Seq<char>)
    requires
        carries(rows, metadata, a, t),
    ensures
        archives_in_order(rows, metadata).contains(a),
    decreases rows.len(),
{
    let prev = archives_in_order(rows.drop_last(), metadata);
    let r = rows.last();
    assert(rows =~= rows.drop_last().push(r));
    lemma_carries_push(rows.drop_last(), r, metadata);
    if carries(rows.drop_last(), metadata, a, t) {
        lemma_carrier_listed(rows.drop_last(), metadata, a, t);
        if counted(r, metadata) && !prev.contains(r.archive_id@) {
            let k = choose|k: int| 0 <= k < prev.len() && prev[k] == a;
            assert(prev.push(r.archive_id@)[k] == a);
        }
    } else if !prev.contains(r.archive_id@) {
        assert(prev.push(r.archive_id@)[prev.len() as int] == a);
    }
}

/// The groups of rows by archive: the archives in order, and for each the
/// sorted list of the tags it carries.
pub open spec fn grouped(
    rows: Seq<ArchiveTagRow>,
    metadata: Seq<Seq<char>>,
    keys: Seq<String>,
    lists: Seq<Vec<String>>,
) -> bool {
    &&& strings_of(keys) == archives_in_order(rows, metadata)
    &&& lists.len() == keys.len()
    &&& forall|g: int| 0 <= g < lists.len() ==> strictly_sorted(strings_of(#[trigger] lists[g]@))
    &&& forall|g: int, t: Seq<char>|
        #![trigger strings_of(lists[g]@).contains(t)]
        #![trigger carries(rows, metadata, keys[g]@, t)]
        0 <= g < lists.len() ==> (strings_of(lists[g]@).contains(t) <==> carries(rows, metadata, keys[g]@, t))
}

fn is_counted(row: &ArchiveTagRow, metadata: &Vec<String>) -> (b: bool)
    ensures
        b == counted(*row, strings_of(metadata@)),
{
    proof {
        reveal_strlit("theme");
    }
    let trimmed = trim(row.namespace.as_str());
    let normalized = to_ascii_lowercase(trimmed.as_str());
    !is_system_managed_theme_namespace(normalized.as_str()) && !contains_str(metadata, normalized.as_str())
}

fn find_key(keys: &Vec<String>, a: &str) -> (r: Option<usize>)
    ensures
        match r {
            Some(g) => g < keys@.len() && keys@[g as int]@ == a@,
            None => !strings_of(keys@).contains(a@),
        },
{
    let mut j: usize = keys.len();
    while j > 0
        invariant
            j <= keys@.len(),
            forall|k: int| j <= k < keys@.len() ==> (#[trigger] keys@[k])@ != a@,
        decreases j,
    {
        if crate::text::str_eq(keys[j - 1].as_str(), a) {
            return Some(j - 1);
        }
        j = j - 1;
    }
    proof {
        if strings_of(keys@).contains(a@) {
            let k = choose|k: int| 0 <= k < strings_of(keys@).len() && strings_of(keys@)[k] == a@;
            assert(keys@[k]@ == a@);
        }
    }
    None
}

fn single(x: &str) -> (r: Vec<String>)
    ensures
        strings_of(r@) == seq![x@],
{
    let mut v: Vec<String> = Vec::new();
    v.push(owned(x));
    assert(strings_of(v@) =~= seq![x@]);
    v
}

/// Groups the counted rows by archive (see `grouped`).
pub fn group_rows(rows: &Vec<ArchiveTagRow>, metadata: &Vec<String>) -> (r: (Vec<String>, Vec<Vec<String>>))
    ensures
        grouped(rows@, strings_of(metadata@), r.0@, r.1@),
{
    let ghost md = strings_of(metadata@);
    let mut keys: Vec<String> = Vec::new();
    let mut lists: Vec<Vec<String>> = Vec::new();
    let mut i: usize = 0;
    assert(rows@.take(0) =~= Seq::<ArchiveTagRow>::empty());
    assert(strings_of(keys@) =~= Seq::<Seq<char>>::empty());
    while i < rows.len()
        invariant
            i <= rows@.len(),
            md == strings_of(metadata@),
            grouped(rows@.take(i as int), md, keys@, lists@),
        decreases rows@.len() - i,
    {
        let row = &rows[i];
        let ghost pre = rows@.take(i as int);
        let ghost next = rows@.take(i + 1);
        let ghost keys0 = keys@;
        let ghost lists0 = lists@;
        proof {
            assert(next =~= pre.push(*row));
            assert(next.drop_last() =~= pre);
            lemma_carries_push(pre, *row, md);
        }
        if is_counted(row, metadata) {
            match find_key(&keys, row.archive_id.as_str()) {
                Some(g) => {
                    proof {
                        assert(strings_of(keys@)[g as int] == keys@[g as int]@);
                    }
                    let mut list: Vec<String> = Vec::new();
                    std::mem::swap(&mut list, &mut lists[g]);
                    let ghost old_list = strings_of(list@);
                    assert(old_list == strings_of(lists0[g as int]@));
                    insert_sorted(&mut list, owned(row.tag_id.as_str()));
                    lists.set(g, list);
                    proof {
                        assert forall|h: int, t: Seq<char>|
                            #![trigger strings_of(lists@[h]@).contains(t)]
                            #![trigger carries(next, md, keys@[h]@, t)]
                            0 <= h < lists@.len() implies (strings_of(lists@[h]@).contains(t) <==> carries(
                                next,
                                md,
                                keys@[h]@,
                                t,
                            )) by {
                            if h != g {
                                assert(lists@[h] == lists0[h]);
                                assert(strings_of(lists0[h]@).contains(t) <==> carries(pre, md, keys0[h]@, t));
                                lemma_archives_distinct(pre, md);
                                assert(strings_of(keys0)[h] == keys0[h]@);
                                assert(strings_of(keys0)[g as int] == keys0[g as int]@);
                                assert(keys0[h]@ != row.archive_id@);
                            } else {
                                assert(strings_of(lists0[h]@).contains(t) <==> carries(pre, md, keys0[h]@, t));
                                assert(lists@[h] == list);
                                assert(strings_of(list@).contains(t) <==> old_list.contains(t) || t == row.tag_id@);
                                assert(keys@[h]@ == row.archive_id@);
                                assert(carries(next, md, row.archive_id@, t) <==> carries(pre, md, row.archive_id@, t)
                                    || t == row.tag_id@);
                            }
                        }
                        assert forall|h: int| 0 <= h < lists@.len() implies strictly_sorted(
                            strings_of(#[trigger] lists@[h]@),
                        ) by {
                            if h != g {
                                assert(lists@[h] == lists0[h]);
                            }
                        }
                    }
                },
                None => {
                    keys.push(owned(row.archive_id.as_str()));
                    lists.push(single(row.tag_id.as_str()));
                    proof {
                        assert(strings_of(keys@) =~= strings_of(keys0).push(row.archive_id@));
                        let n = keys0.len() as int;
                        assert forall|h: int, t: Seq<char>|
                            #![trigger strings_of(lists@[h]@).contains(t)]
                            #![trigger carries(next, md, keys@[h]@, t)]
                            0 <= h < lists@.len() implies (strings_of(lists@[h]@).contains(t) <==> carries(
                                next,
                                md,
                                keys@[h]@,
                                t,
                            )) by {
                            if h < n {
                                assert(lists@[h] == lists0[h]);
                                assert(keys@[h] == keys0[h]);
                                assert(strings_of(lists0[h]@).contains(t) <==> carries(pre, md, keys0[h]@, t));
                                assert(keys0[h]@ == strings_of(keys0)[h]);
                            } else {
                                if carries(pre, md, row.archive_id@, t) {
                                    lemma_carrier_listed(pre, md, row.archive_id@, t);
                                }
                                if t == row.tag_id@ {
                                    assert(strings_of(lists@[h]@)[0] == t);
                                }
                            }
                        }
                        assert forall|h: int| 0 <= h < lists@.len() implies strictly_sorted(
                            strings_of(#[trigger] lists@[h]@),
                        ) by {
                            if h < n {
                                assert(lists@[h] == lists0[h]);
                            }
                        }
                    }
                },
            }
        } else {
            proof {
                assert forall|h: int, t: Seq<char>|
                    #![trigger strings_of(lists@[h]@).contains(t)]
                    #![trigger carries(next, md, keys@[h]@, t)]
                    0 <= h < lists@.len() implies (strings_of(lists@[h]@).contains(t) <==> carries(next, md, keys@[h]@, t)) by {
                    assert(strings_of(lists0[h]@).contains(t) <==> carries(pre, md, keys0[h]@, t));
                }
            }
        }
        i = i + 1;
    }
    assert(rows@.take(rows@.len() as int) =~= rows@);
    (keys, lists)
}

// ---------------------------------------------------------------------------
// Tag indices
// ---------------------------------------------------------------------------
/// Every tag of the lists, each once, sorted.
fn collect_tags(lists: &Vec<Vec<String>>) -> (r: Vec<String>)
    ensures
        strictly_sorted(strings_of(r@)),
        forall|t: Seq<char>|
            #[trigger] strings_of(r@).contains(t) <==> exists|g: int|
                0 <= g < lists@.len() && #[trigger] strings_of(lists@[g]@).contains(t),
{
    let mut tags: Vec<String> = Vec::new();
    let mut g: usize = 0;
    while g < lists.len()
        invariant
            g <= lists@.len(),
            strictly_sorted(strings_of(tags@)),
            forall|t: Seq<char>|
                #[trigger] strings_of(tags@).contains(t) <==> exists|h: int|
                    0 <= h < g && #[trigger] strings_of(lists@[h]@).contains(t),
        decreases lists@.len() - g,
    {
        let list = &lists[g];
        let mut p: usize = 0;
        let ghost before = strings_of(tags@);
        while p < list.len()
            invariant
                p <= list@.len(),
                list == lists@[g as int],
                strictly_sorted(strings_of(tags@)),
                forall|t: Seq<char>|
                    #[trigger] strings_of(tags@).contains(t) <==> before.contains(t) || strings_of(list@).take(
                        p as int,
                    ).contains(t),
            decreases list@.len() - p,
        {
            insert_sorted(&mut tags, owned(list[p].as_str()));
            proof {
                let l = strings_of(list@);
                assert(l.take(p + 1) =~= l.take(p as int).push(list@[p as int]@));
                lemma_contains_push(l.take(p as int), list@[p as int]@);
            }
            p = p + 1;
        }
        proof {
            assert(strings_of(list@).take(list@.len() as int) =~= strings_of(list@));
            assert forall|t: Seq<char>|
                #[trigger] strings_of(tags@).contains(t) <==> exists|h: int|
                    0 <= h < g + 1 && #[trigger] strings_of(lists@[h]@).contains(t) by {
                if strings_of(tags@).contains(t) && !before.contains(t) {
                    assert(strings_of(lists@[g as int]@).contains(t));
                }
            }
        }
        g = g + 1;
    }
    tags
}

/// Strictly increasing indices.
pub open spec fn increasing(v: Seq<usize>) -> bool {
    forall|p: int, q: int| 0 <= p < q < v.len() ==> #[trigger] v[p] < #[trigger] v[q]
}

/// In a sorted, duplicate-free list, an element's place follows its order.
proof fn lemma_sorted_places(s: Seq<Seq<char>>, i: int, j: int)
    requires
        strictly_sorted(s),
        0 <= i < s.len(),
        0 <= j < s.len(),
    ensures
        lex_lt(s[i], s[j]) <==> i < j,
        s[i] == s[j] <==> i == j,
{
    lemma_lex_irreflexive(s[i]);
    lemma_lex_trichotomy(s[i], s[j]);
}

/// The places in `tags` of the tags of a list.
fn indices_of(tags: &Vec<String>, list: &Vec<String>) -> (r: Vec<usize>)
    requires
        strictly_sorted(strings_of(tags@)),
        strictly_sorted(strings_of(list@)),
        forall|p: int| 0 <= p < list@.len() ==> strings_of(tags@).contains(#[trigger] list@[p]@),
    ensures
        r@.len() == list@.len(),
        increasing(r@),
        forall|p: int| 0 <= p < r@.len() ==> #[trigger] r@[p] < tags@.len() && tags@[r@[p] as int]@ == list@[p]@,
{
    let mut out: Vec<usize> = Vec::new();
    let mut p: usize = 0;
    while p < list.len()
        invariant
            p <= list@.len(),
            out@.len() == p,
            strictly_sorted(strings_of(tags@)),
            strictly_sorted(strings_of(list@)),
            forall|q: int| 0 <= q < list@.len() ==> strings_of(tags@).contains(#[trigger] list@[q]@),
            increasing(out@),
            forall|q: int| 0 <= q < p ==> #[trigger] out@[q] < tags@.len() && tags@[out@[q] as int]@ == list@[q]@,
        decreases list@.len() - p,
    {
        let ghost x = list@[p as int]@;
        assert(strings_of(tags@).contains(x));
        let k = match find_sorted(tags, list[p].as_str()) {
            Ok(k) => k,
            Err(k) => {
                proof {
                    let w = choose|w: int| 0 <= w < strings_of(tags@).len() && strings_of(tags@)[w] == x;
                    assert(tags@[w]@ == x);
                    if w < k {
                        lemma_lex_irreflexive(x);
                    } else {
                        lemma_lex_irreflexive(x);
                    }
                }
                k
            },
        };
        proof {
            assert forall|q: int| 0 <= q < p implies out@[q] < k by {
                assert(strings_of(list@)[q] == list@[q]@ && strings_of(list@)[p as int] == list@[p as int]@);
                lemma_sorted_places(strings_of(list@), q, p as int);
                assert(strings_of(tags@)[out@[q] as int] == tags@[out@[q] as int]@);
                assert(strings_of(tags@)[k as int] == tags@[k as int]@);
                lemma_sorted_places(strings_of(tags@), out@[q] as int, k as int);
            }
        }
        out.push(k);
        p = p + 1;
    }
    out
}

// ---------------------------------------------------------------------------
// Counting
// ---------------------------------------------------------------------------
spec fn has_index(j: usize) -> spec_fn(Vec<usize>) -> bool {
    |v: Vec<usize>| v@.contains(j)
}

spec fn has_both(i: usize, j: usize) -> spec_fn(Vec<usize>) -> bool {
    |v: Vec<usize>| v@.contains(i) && v@.contains(j)
}

/// Index lists below `n`, each increasing.
spec fn index_lists(idx: Seq<Vec<usize>>, n: usize) -> bool {
    &&& forall|g: int| 0 <= g < idx.len() ==> increasing(#[trigger] idx[g]@)
    &&& forall|g: int, p: int| 0 <= g < idx.len() && 0 <= p < idx[g]@.len() ==> #[trigger] idx[g]@[p] < n
}

proof fn lemma_take_push<A>(s: Seq<A>, k: int)
    requires
        0 <= k < s.len(),
    ensures
        s.take(k + 1) == s.take(k).push(s[k]),
{
    assert(s.take(k + 1) =~= s.take(k).push(s[k]));
}

/// The number of lists that hold each index.
fn index_counts(n: usize, idx: &Vec<Vec<usize>>) -> (r: Vec<usize>)
    requires
        index_lists(idx@, n),
    ensures
        r@.len() == n,
        forall|j: int| 0 <= j < n ==> #[trigger] r@[j] == idx@.filter(has_index(j as usize)).len(),
{
    let mut cnt: Vec<usize> = vec![0usize; n];
    let mut g: usize = 0;
    proof {
        assert forall|j: int| 0 <= j < n implies #[trigger] cnt@[j] == idx@.take(0).filter(has_index(j as usize)).len() by {
            assert(idx@.take(0) =~= Seq::<Vec<usize>>::empty());
            assert(idx@.take(0).filter(has_index(j as usize)) =~= Seq::<Vec<usize>>::empty());
        }
    }
    while g < idx.len()
        invariant
            g <= idx@.len(),
            index_lists(idx@, n),
            cnt@.len() == n,
            forall|j: int| 0 <= j < n ==> #[trigger] cnt@[j] == idx@.take(g as int).filter(has_index(j as usize)).len(),
        decreases idx@.len() - g,
    {
        let list = &idx[g];
        let total = idx.len();
        let ghost before = cnt@;
        proof {
            assert forall|j: int| 0 <= j < n implies #[trigger] before[j] <= g by {
                idx@.take(g as int).lemma_filter_len(has_index(j as usize));
            }
        }
        let mut p: usize = 0;
        while p < list.len()
            invariant
                p <= list@.len(),
                list == idx@[g as int],
                g < total,
                total == idx@.len(),
                index_lists(idx@, n),
                cnt@.len() == n,
                before.len() == n,
                forall|j: int| 0 <= j < n ==> before[j] <= g,
                forall|j: int| 0 <= j < n ==> #[trigger] cnt@[j] == before[j] + (if list@.take(p as int).contains(j as usize) {
                    1int
                } else {
                    0int
                }),
            decreases list@.len() - p,
        {
            let j = list[p];
            assert(j < n);
            proof {
                if list@.take(p as int).contains(j) {
                    let q = choose|q: int| 0 <= q < p && list@.take(p as int)[q] == j;
                    assert(list@[q] < list@[p as int]);
                }
                assert(!list@.take(p as int).contains(j));
                assert(cnt@[j as int] == before[j as int]);
                assert(before[j as int] <= g);
            }
            cnt.set(j, cnt[j] + 1);
            proof {
                lemma_take_push(list@, p as int);
                lemma_contains_push_usize(list@.take(p as int), j);
            }
            p = p + 1;
        }
        proof {
            assert(list@.take(list@.len() as int) =~= list@);
            lemma_take_push(idx@, g as int);
            assert forall|j: int| 0 <= j < n implies #[trigger] cnt@[j] == idx@.take(g + 1).filter(has_index(j as usize)).len() by {
                idx@.take(g as int).lemma_filter_len_push(has_index(j as usize), idx@[g as int]);
            }
        }
        g = g + 1;
    }
    assert(idx@.take(idx@.len() as int) =~= idx@);
    cnt
}

proof fn lemma_contains_push_usize(s: Seq<usize>, x: usize)
    ensures
        forall|a: usize| #[trigger] s.push(x).contains(a) <==> (s.contains(a) || a == x),
{
    assert forall|a: usize| #[trigger] s.push(x).contains(a) <==> (s.contains(a) || a == x) by {
        if s.push(x).contains(a) {
            let i = choose|i: int| 0 <= i < s.push(x).len() && s.push(x)[i] == a;
            if i < s.len() {
                assert(s[i] == a);
            }
        }
        if s.contains(a) {
            let i = choose|i: int| 0 <= i < s.len() && s[i] == a;
            assert(s.push(x)[i] == a);
        }
        if a == x {
            assert(s.push(x)[s.len() as int] == x);
        }
    }
}

/// Where `x` is in an increasing list, if it is there.
fn find_index(v: &Vec<usize>, x: usize) -> (r: Option<usize>)
    requires
        increasing(v@),
    ensures
        match r {
            Some(p) => p < v@.len() && v@[p as int] == x,
            None => !v@.contains(x),
        },
{
    let mut lo: usize = 0;
    let mut hi: usize = v.len();
    while lo < hi
        invariant
            lo <= hi <= v@.len(),
            increasing(v@),
            forall|k: int| 0 <= k < lo ==> #[trigger] v@[k] < x,
            forall|k: int| hi <= k < v@.len() ==> #[trigger] v@[k] > x,
        decreases hi - lo,
    {
        let mid = lo + (hi - lo) / 2;
        if v[mid] == x {
            return Some(mid);
        } else if v[mid] < x {
            lo = mid + 1;
        } else {
            hi = mid;
        }
    }
    proof {
        if v@.contains(x) {
            let k = choose|k: int| 0 <= k < v@.len() && v@[k] == x;
        }
    }
    None
}

/// For each index after `i`, the number of lists that hold both.
fn partner_counts(n: usize, i: usize, idx: &Vec<Vec<usize>>) -> (r: Vec<usize>)
    requires
        index_lists(idx@, n),
        i < n,
    ensures
        r@.len() == n,
        forall|j: int| i < j < n ==> #[trigger] r@[j] == idx@.filter(has_both(i, j as usize)).len(),
{
    let mut cy: Vec<usize> = vec![0usize; n];
    let mut g: usize = 0;
    proof {
        assert(idx@.take(0) =~= Seq::<Vec<usize>>::empty());
        assert forall|j: int| i < j < n implies #[trigger] cy@[j] == idx@.take(0).filter(has_both(i, j as usize)).len() by {
            assert(idx@.take(0).filter(has_both(i, j as usize)) =~= Seq::<Vec<usize>>::empty());
        }
    }
    while g < idx.len()
        invariant
            g <= idx@.len(),
            index_lists(idx@, n),
            i < n,
            cy@.len() == n,
            forall|j: int| i < j < n ==> #[trigger] cy@[j] == idx@.take(g as int).filter(has_both(i, j as usize)).len(),
        decreases idx@.len() - g,
    {
        let list = &idx[g];
        let total = idx.len();
        let ghost before = cy@;
        proof {
            assert forall|j: int| i < j < n implies #[trigger] before[j] <= g by {
                idx@.take(g as int).lemma_filter_len(has_both(i, j as usize));
            }
        }
        match find_index(list, i) {
            Some(p) => {
                let len = list.len();
                assert(p < len);
                let mut q: usize = p + 1;
                proof {
                    assert(list@.subrange(p + 1, q as int) =~= Seq::<usize>::empty());
                }
                while q < list.len()
                    invariant
                        p < q <= list@.len(),
                        list == idx@[g as int],
                        list@[p as int] == i,
                        g < total,
                        total == idx@.len(),
                        index_lists(idx@, n),
                        i < n,
                        cy@.len() == n,
                        before.len() == n,
                        forall|j: int| i < j < n ==> before[j] <= g,
                        forall|j: int| i < j < n ==> #[trigger] cy@[j] == before[j] + (if list@.subrange(p + 1, q as int).contains(j as usize) {
                            1int
                        } else {
                            0int
                        }),
                    decreases list@.len() - q,
                {
                    let j = list[q];
                    proof {
                        assert(list@[p as int] < list@[q as int]);
                        if list@.subrange(p + 1, q as int).contains(j) {
                            let w = choose|w: int|
                                0 <= w < q - p - 1 && #[trigger] list@.subrange(p + 1, q as int)[w] == j;
                            assert(list@[p + 1 + w] < list@[q as int]);
                        }
                        assert(cy@[j as int] == before[j as int]);
                    }
                    cy.set(j, cy[j] + 1);
                    proof {
                        assert(list@.subrange(p + 1, q + 1) =~= list@.subrange(p + 1, q as int).push(j));
                        lemma_contains_push_usize(list@.subrange(p + 1, q as int), j);
                    }
                    q = q + 1;
                }
                proof {
                    assert forall|j: int| i < j < n implies (#[trigger] list@.subrange(p + 1, list@.len() as int).contains(
                        j as usize,
                    ) <==> list@.contains(j as usize)) by {
                        if list@.contains(j as usize) {
                            let w = choose|w: int| 0 <= w < list@.len() && list@[w] == j as usize;
                            if w <= p {
                                if w < p {
                                    assert(list@[w] < list@[p as int]);
                                }
                            }
                            assert(list@.subrange(p + 1, list@.len() as int)[w - p - 1] == j as usize);
                        }
                        if list@.subrange(p + 1, list@.len() as int).contains(j as usize) {
                            let w = choose|w: int|
                                0 <= w < list@.len() - p - 1 && #[trigger] list@.subrange(p + 1, list@.len() as int)[w]
                                    == j as usize;
                            assert(list@[p + 1 + w] == j as usize);
                        }
                    }
                    assert(list@.contains(i));
                }
            },
            None => {},
        }
        proof {
            lemma_take_push(idx@, g as int);
            assert forall|j: int| i < j < n implies #[trigger] cy@[j] == idx@.take(g + 1).filter(has_both(i, j as usize)).len() by {
                idx@.take(g as int).lemma_filter_len_push(has_both(i, j as usize), idx@[g as int]);
            }
        }
        g = g + 1;
    }
    assert(idx@.take(idx@.len() as int) =~= idx@);
    cy
}

// ---------------------------------------------------------------------------
// The graph
// ---------------------------------------------------------------------------
/// Archives that carry `t`.
pub open spec fn carrier(rows: Seq<ArchiveTagRow>, metadata: Seq<Seq<char>>, t: Seq<char>) -> spec_fn(Seq<char>) -> bool {
    |a: Seq<char>| carries(rows, metadata, a, t)
}

/// Archives that carry both `x` and `y`.
pub open spec fn co_carrier(rows: Seq<ArchiveTagRow>, metadata: Seq<Seq<char>>, x: Seq<char>, y: Seq<char>) -> spec_fn(
    Seq<char>,
) -> bool {
    |a: Seq<char>| carries(rows, metadata, a, x) && carries(rows, metadata, a, y)
}

/// The number of distinct archives that carry tag `t`.
pub open spec fn support(rows: Seq<ArchiveTagRow>, metadata: Seq<Seq<char>>, t: Seq<char>) -> nat {
    archives_in_order(rows, metadata).filter(carrier(rows, metadata, t)).len()
}

/// The number of distinct archives that carry both tags.
pub open spec fn pair_support(rows: Seq<ArchiveTagRow>, metadata: Seq<Seq<char>>, x: Seq<char>, y: Seq<char>) -> nat {
    archives_in_order(rows, metadata).filter(co_carrier(rows, metadata, x, y)).len()
}

/// An edge of the graph with its counts.
#[derive(Debug)]
pub struct CooccurrenceCounts {
    pub tag_a_id: String,
    pub tag_b_id: String,
    pub coarchive_count: u64,
    pub tag_a_archive_count: u64,
    pub tag_b_archive_count: u64,
}

/// An edge joins two tags, the first before the second, that at least two
/// archives carry together, and counts the archives of each.
pub open spec fn is_graph_edge(rows: Seq<ArchiveTagRow>, metadata: Seq<Seq<char>>, e: CooccurrenceCounts) -> bool {
    &&& lex_lt(e.tag_a_id@, e.tag_b_id@)
    &&& e.coarchive_count == pair_support(rows, metadata, e.tag_a_id@, e.tag_b_id@)
    &&& e.coarchive_count >= 2
    &&& e.tag_a_archive_count == support(rows, metadata, e.tag_a_id@)
    &&& e.tag_b_archive_count == support(rows, metadata, e.tag_b_id@)
}

proof fn lemma_filter_len_equiv<A, B>(s: Seq<A>, t: Seq<B>, p: spec_fn(A) -> bool, q: spec_fn(B) -> bool)
    requires
        s.len() == t.len(),
        forall|g: int| 0 <= g < s.len() ==> (p(#[trigger] s[g]) <==> q(t[g])),
    ensures
        s.filter(p).len() == t.filter(q).len(),
    decreases s.len(),
{
    if s.len() == 0 {
        s.lemma_filter_len(p);
        t.lemma_filter_len(q);
    } else {
        let s0 = s.drop_last();
        let t0 = t.drop_last();
        assert forall|g: int| 0 <= g < s0.len() implies (p(#[trigger] s0[g]) <==> q(t0[g])) by {
            assert(s0[g] == s[g] && t0[g] == t[g]);
        }
        lemma_filter_len_equiv(s0, t0, p, q);
        assert(s =~= s0.push(s.last()));
        assert(t =~= t0.push(t.last()));
        s0.lemma_filter_len_push(p, s.last());
        t0.lemma_filter_len_push(q, t.last());
        assert(p(s[s.len() - 1]) <==> q(t[t.len() - 1]));
    }
}

/// What the counting works on: the groups, the sorted tags, and each
/// group's tags as places in the sorted tags.
spec fn built(
    rows: Seq<ArchiveTagRow>,
    metadata: Seq<Seq<char>>,
    keys: Seq<String>,
    lists: Seq<Vec<String>>,
    tags: Seq<String>,
    idx: Seq<Vec<usize>>,
) -> bool {
    &&& grouped(rows, metadata, keys, lists)
    &&& strictly_sorted(strings_of(tags))
    &&& forall|t: Seq<char>|
        #[trigger] strings_of(tags).contains(t) <==> exists|g: int|
            0 <= g < lists.len() && #[trigger] strings_of(lists[g]@).contains(t)
    &&& idx.len() == lists.len()
    &&& index_lists(idx, tags.len() as usize)
    &&& tags.len() <= usize::MAX
    &&& forall|g: int| 0 <= g < idx.len() ==> (#[trigger] idx[g])@.len() == lists[g]@.len()
    &&& forall|g: int, p: int|
        0 <= g < idx.len() && 0 <= p < idx[g]@.len() ==> tags[(#[trigger] idx[g]@[p]) as int]@ == lists[g]@[p]@
}

proof fn lemma_member_places(
    rows: Seq<ArchiveTagRow>,
    metadata: Seq<Seq<char>>,
    keys: Seq<String>,
    lists: Seq<Vec<String>>,
    tags: Seq<String>,
    idx: Seq<Vec<usize>>,
    g: int,
    j: usize,
)
    requires
        built(rows, metadata, keys, lists, tags, idx),
        0 <= g < idx.len(),
        j < tags.len(),
    ensures
        idx[g]@.contains(j) <==> carries(rows, metadata, archives_in_order(rows, metadata)[g], tags[j as int]@),
{
    let l = strings_of(lists[g]@);
    assert(strings_of(keys)[g] == keys[g]@);
    assert(l.contains(tags[j as int]@) <==> carries(rows, metadata, keys[g]@, tags[j as int]@));
    if idx[g]@.contains(j) {
        let p = choose|p: int| 0 <= p < idx[g]@.len() && idx[g]@[p] == j;
        assert(tags[idx[g]@[p] as int]@ == lists[g]@[p]@);
        assert(l[p] == lists[g]@[p]@);
    }
    if l.contains(tags[j as int]@) {
        let p = choose|p: int| 0 <= p < l.len() && l[p] == tags[j as int]@;
        assert(l[p] == lists[g]@[p]@);
        let w = idx[g]@[p];
        assert(w < tags.len());
        assert(tags[w as int]@ == tags[j as int]@);
        assert(strings_of(tags)[w as int] == tags[w as int]@);
        assert(strings_of(tags)[j as int] == tags[j as int]@);
        lemma_sorted_places(strings_of(tags), w as int, j as int);
        assert(idx[g]@[p] == j);
    }
}

proof fn lemma_counts_link(
    rows: Seq<ArchiveTagRow>,
    metadata: Seq<Seq<char>>,
    keys: Seq<String>,
    lists: Seq<Vec<String>>,
    tags: Seq<String>,
    idx: Seq<Vec<usize>>,
    i: usize,
    j: usize,
)
    requires
        built(rows, metadata, keys, lists, tags, idx),
        i < tags.len(),
        j < tags.len(),
    ensures
        idx.filter(has_index(j)).len() == support(rows, metadata, tags[j as int]@),
        idx.filter(has_both(i, j)).len() == pair_support(rows, metadata, tags[i as int]@, tags[j as int]@),
{
    let archives = archives_in_order(rows, metadata);
    assert(archives.len() == idx.len()) by {
        assert(strings_of(keys).len() == keys.len());
    }
    assert forall|g: int| 0 <= g < idx.len() implies (has_index(j)(#[trigger] idx[g]) <==> carrier(
        rows,
        metadata,
        tags[j as int]@,
    )(archives[g])) by {
        lemma_member_places(rows, metadata, keys, lists, tags, idx, g, j);
    }
    lemma_filter_len_equiv(idx, archives, has_index(j), carrier(rows, metadata, tags[j as int]@));
    assert forall|g: int| 0 <= g < idx.len() implies (has_both(i, j)(#[trigger] idx[g]) <==> co_carrier(
        rows,
        metadata,
        tags[i as int]@,
        tags[j as int]@,
    )(archives[g])) by {
        lemma_member_places(rows, metadata, keys, lists, tags, idx, g, i);
        lemma_member_places(rows, metadata, keys, lists, tags, idx, g, j);
    }
    lemma_filter_len_equiv(idx, archives, has_both(i, j), co_carrier(rows, metadata, tags[i as int]@, tags[j as int]@));
}

/// Tags that two archives carry together are among the sorted tags.
proof fn lemma_supported_pair_places(
    rows: Seq<ArchiveTagRow>,
    metadata: Seq<Seq<char>>,
    keys: Seq<String>,
    lists: Seq<Vec<String>>,
    tags: Seq<String>,
    idx: Seq<Vec<usize>>,
    x: Seq<char>,
    y: Seq<char>,
) -> (r: (int, int))
    requires
        built(rows, metadata, keys, lists, tags, idx),
        pair_support(rows, metadata, x, y) > 0,
        lex_lt(x, y),
    ensures
        0 <= r.0 < r.1 < tags.len(),
        tags[r.0]@ == x,
        tags[r.1]@ == y,
{
    let archives = archives_in_order(rows, metadata);
    let p = co_carrier(rows, metadata, x, y);
    if forall|g: int| 0 <= g < archives.len() ==> !p(#[trigger] archives[g]) {
        archives.lemma_all_neg_filter_empty(p);
    }
    let g = choose|g: int| 0 <= g < archives.len() && p(#[trigger] archives[g]);
    assert(strings_of(keys)[g] == keys[g]@);
    assert(strings_of(lists[g]@).contains(x));
    assert(strings_of(lists[g]@).contains(y));
    assert(strings_of(tags).contains(x));
    assert(strings_of(tags).contains(y));
    let a = choose|a: int| 0 <= a < strings_of(tags).len() && strings_of(tags)[a] == x;
    let b = choose|b: int| 0 <= b < strings_of(tags).len() && strings_of(tags)[b] == y;
    lemma_sorted_places(strings_of(tags), a, b);
    (a, b)
}

/// An edge at places `a` and `b` of the sorted tags.
spec fn edge_at(tags: Seq<String>, e: CooccurrenceCounts, place: (int, int)) -> bool {
    &&& 0 <= place.0 < place.1 < tags.len()
    &&& e.tag_a_id@ == tags[place.0]@
    &&& e.tag_b_id@ == tags[place.1]@
}

spec fn place_lt(p: (int, int), q: (int, int)) -> bool {
    p.0 < q.0 || (p.0 == q.0 && p.1 < q.1)
}

/// The co-occurrence graph of a set of archive tag rows: every pair of tags
/// (in order) that at least two archives carry together, with the number of
/// archives that carry both and each. Rows whose tag lies in the
/// system-managed theme namespace or in a metadata namespace are left out.
/// Each pair appears once, ordered by its first tag, then its second.
#[verifier::spinoff_prover]
#[verifier::rlimit(30)]
pub fn cooccurrence_edges(rows: &Vec<ArchiveTagRow>, metadata: &Vec<String>) -> (r: Vec<CooccurrenceCounts>)
    ensures
        forall|k: int| 0 <= k < r@.len() ==> is_graph_edge(rows@, strings_of(metadata@), #[trigger] r@[k]),
        forall|x: Seq<char>, y: Seq<char>|
            lex_lt(x, y) && #[trigger] pair_support(rows@, strings_of(metadata@), x, y) >= 2 ==> exists|k: int|
                0 <= k < r@.len() && (#[trigger] r@[k]).tag_a_id@ == x && r@[k].tag_b_id@ == y,
        forall|k1: int, k2: int|
            0 <= k1 < k2 < r@.len() ==> !((#[trigger] r@[k1]).tag_a_id@ == (#[trigger] r@[k2]).tag_a_id@ && r@[k1].tag_b_id@
                == r@[k2].tag_b_id@),
{
    let ghost md = strings_of(metadata@);
    let (keys, lists) = group_rows(rows, metadata);
    let tags = collect_tags(&lists);
    let n = tags.len();
    let mut idx: Vec<Vec<usize>> = Vec::new();
    let mut g: usize = 0;
    while g < lists.len()
        invariant
            g <= lists@.len(),
            idx@.len() == g,
            n == tags@.len(),
            grouped(rows@, md, keys@, lists@),
            strictly_sorted(strings_of(tags@)),
            forall|t: Seq<char>|
                #[trigger] strings_of(tags@).contains(t) <==> exists|h: int|
                    0 <= h < lists@.len() && #[trigger] strings_of(lists@[h]@).contains(t),
            index_lists(idx@, n),
            forall|h: int| 0 <= h < idx@.len() ==> (#[trigger] idx@[h])@.len() == lists@[h]@.len(),
            forall|h: int, p: int|
                0 <= h < idx@.len() && 0 <= p < idx@[h]@.len() ==> tags@[(#[trigger] idx@[h]@[p]) as int]@ == lists@[h]@[p]@,
        decreases lists@.len() - g,
    {
        proof {
            assert forall|p: int| 0 <= p < lists@[g as int]@.len() implies strings_of(tags@).contains(
                #[trigger] lists@[g as int]@[p]@,
            ) by {
                assert(strings_of(lists@[g as int]@)[p] == lists@[g as int]@[p]@);
                assert(strings_of(lists@[g as int]@).contains(lists@[g as int]@[p]@));
            }
        }
        let places = indices_of(&tags, &lists[g]);
        let ghost before = idx@;
        idx.push(places);
        proof {
            assert(idx@[g as int] == places);
            assert forall|h: int| 0 <= h < idx@.len() implies increasing(#[trigger] idx@[h]@) by {
                if h < g {
                    assert(idx@[h] == before[h]);
                }
            }
        }
        g = g + 1;
    }
    let cnt = index_counts(n, &idx);
    proof {
        assert(built(rows@, md, keys@, lists@, tags@, idx@));
    }
    let mut out: Vec<CooccurrenceCounts> = Vec::new();
    let ghost mut placed: Seq<(int, int)> = Seq::empty();
    let mut i: usize = 0;
    while i < n
        invariant
            i <= n,
            n == tags@.len(),
            built(rows@, md, keys@, lists@, tags@, idx@),
            cnt@.len() == n,
            forall|j: int| 0 <= j < n ==> #[trigger] cnt@[j] == idx@.filter(has_index(j as usize)).len(),
            out@.len() == placed.len(),
            forall|k: int| 0 <= k < out@.len() ==> edge_at(tags@, #[trigger] out@[k], placed[k]) && placed[k].0 < i
                && is_graph_edge(rows@, md, out@[k]),
            forall|k1: int, k2: int| 0 <= k1 < k2 < placed.len() ==> place_lt(#[trigger] placed[k1], #[trigger] placed[k2]),
            forall|a: int, b: int|
                0 <= a < i && a < b < n && #[trigger] pair_support(rows@, md, tags@[a]@, tags@[b]@) >= 2 ==> #[trigger] placed.contains((a, b)),
        decreases n - i,
    {
        let cy = partner_counts(n, i, &idx);
        let mut j: usize = i + 1;
        proof {
            assert forall|k: int| 0 <= k < out@.len() implies edge_at(tags@, #[trigger] out@[k], placed[k]) && place_lt(
                placed[k],
                (i as int, j as int),
            ) && is_graph_edge(rows@, md, out@[k]) by {
                assert(edge_at(tags@, out@[k], placed[k]));
                assert(placed[k].0 < i);
                assert(place_lt(placed[k], (i as int, j as int)));
                assert(is_graph_edge(rows@, md, out@[k]));
            }
        }
        while j < n
            invariant
                i < j <= n,
                n == tags@.len(),
                built(rows@, md, keys@, lists@, tags@, idx@),
                cnt@.len() == n,
                cy@.len() == n,
                forall|c: int| 0 <= c < n ==> #[trigger] cnt@[c] == idx@.filter(has_index(c as usize)).len(),
                forall|c: int| i < c < n ==> #[trigger] cy@[c] == idx@.filter(has_both(i, c as usize)).len(),
                out@.len() == placed.len(),
                forall|k: int| 0 <= k < out@.len() ==> edge_at(tags@, #[trigger] out@[k], placed[k]) && place_lt(
                    placed[k],
                    (i as int, j as int),
                ) && is_graph_edge(rows@, md, out@[k]),
                forall|k1: int, k2: int| 0 <= k1 < k2 < placed.len() ==> place_lt(#[trigger] placed[k1], #[trigger] placed[k2]),
                forall|a: int, b: int|
                    (0 <= a < i && a < b < n || a == i && i < b < j) && #[trigger] pair_support(rows@, md, tags@[a]@, tags@[b]@)
                        >= 2 ==> #[trigger] placed.contains((a, b)),
            decreases n - j,
        {
            proof {
                lemma_counts_link(rows@, md, keys@, lists@, tags@, idx@, i, j);
                lemma_counts_link(rows@, md, keys@, lists@, tags@, idx@, j, i);
                assert(strings_of(tags@)[i as int] == tags@[i as int]@);
                assert(strings_of(tags@)[j as int] == tags@[j as int]@);
                lemma_sorted_places(strings_of(tags@), i as int, j as int);
            }
            let ghost old_placed = placed;
            let ghost old_out = out@;
            if cy[j] >= 2 {
                let e = CooccurrenceCounts {
                    tag_a_id: owned(tags[i].as_str()),
                    tag_b_id: owned(tags[j].as_str()),
                    coarchive_count: cy[j] as u64,
                    tag_a_archive_count: cnt[i] as u64,
                    tag_b_archive_count: cnt[j] as u64,
                };
                proof {
                    assert(edge_at(tags@, e, (i as int, j as int)));
                    assert(is_graph_edge(rows@, md, e));
                }
                out.push(e);
                proof {
                    placed = placed.push((i as int, j as int));
                    assert forall|k: int| 0 <= k < out@.len() implies edge_at(tags@, #[trigger] out@[k], placed[k]) && place_lt(
                        placed[k],
                        (i as int, j + 1),
                    ) && is_graph_edge(rows@, md, out@[k]) by {
                        if k < old_out.len() {
                            assert(out@[k] == old_out[k]);
                            assert(placed[k] == old_placed[k]);
                        }
                    }
                    assert forall|k1: int, k2: int| 0 <= k1 < k2 < placed.len() implies place_lt(
                        #[trigger] placed[k1],
                        #[trigger] placed[k2],
                    ) by {
                        assert(placed[k1] == old_placed[k1]);
                        if k2 < old_placed.len() {
                            assert(placed[k2] == old_placed[k2]);
                        } else {
                            assert(old_out[k1] == out@[k1]);
                        }
                    }
                    assert forall|a: int, b: int|
                        (0 <= a < i && a < b < n || a == i && i < b < j + 1) && #[trigger] pair_support(rows@, md, tags@[a]@, tags@[b]@)
                            >= 2 implies #[trigger] placed.contains((a, b)) by {
                        if a == i && b == j {
                            assert(placed[placed.len() - 1] == (a, b));
                        } else {
                            assert(old_placed.contains((a, b)));
                            let w = choose|w: int| 0 <= w < old_placed.len() && old_placed[w] == (a, b);
                            assert(placed[w] == (a, b));
                        }
                    }
                }
            } else {
                proof {
                    assert forall|a: int, b: int|
                        (0 <= a < i && a < b < n || a == i && i < b < j + 1) && #[trigger] pair_support(rows@, md, tags@[a]@, tags@[b]@)
                            >= 2 implies #[trigger] placed.contains((a, b)) by {}
                }
            }
            j = j + 1;
            proof {
                assert forall|k: int| 0 <= k < out@.len() implies edge_at(tags@, #[trigger] out@[k], placed[k]) && place_lt(
                    placed[k],
                    (i as int, j as int),
                ) && is_graph_edge(rows@, md, out@[k]) by {
                    assert(edge_at(tags@, out@[k], placed[k]));
                    assert(place_lt(placed[k], (i as int, j as int)));
                    assert(is_graph_edge(rows@, md, out@[k]));
                }
            }
        }
        proof {
            assert forall|a: int, b: int|
                0 <= a < i + 1 && a < b < n && #[trigger] pair_support(rows@, md, tags@[a]@, tags@[b]@) >= 2 implies #[trigger] placed.contains(
                (a, b),
            ) by {}
        }
        i = i + 1;
        proof {
            assert forall|k: int| 0 <= k < out@.len() implies edge_at(tags@, #[trigger] out@[k], placed[k]) && placed[k].0 < i
                && is_graph_edge(rows@, md, out@[k]) by {
                assert(edge_at(tags@, out@[k], placed[k]));
                assert(place_lt(placed[k], ((i - 1) as int, n as int)));
                assert(placed[k].0 < i);
                assert(is_graph_edge(rows@, md, out@[k]));
            }
        }
    }
    proof {
        assert forall|x: Seq<char>, y: Seq<char>|
            lex_lt(x, y) && #[trigger] pair_support(rows@, md, x, y) >= 2 implies exists|k: int|
                0 <= k < out@.len() && (#[trigger] out@[k]).tag_a_id@ == x && out@[k].tag_b_id@ == y by {
            let (a, b) = lemma_supported_pair_places(rows@, md, keys@, lists@, tags@, idx@, x, y);
            assert(placed.contains((a, b)));
            let k = choose|k: int| 0 <= k < placed.len() && placed[k] == (a, b);
            assert(edge_at(tags@, out@[k], placed[k]));
        }
        assert forall|k1: int, k2: int|
            0 <= k1 < k2 < out@.len() implies !((#[trigger] out@[k1]).tag_a_id@ == (#[trigger] out@[k2]).tag_a_id@
                && out@[k1].tag_b_id@ == out@[k2].tag_b_id@) by {
            assert(edge_at(tags@, out@[k1], placed[k1]));
            assert(edge_at(tags@, out@[k2], placed[k2]));
            assert(place_lt(placed[k1], placed[k2]));
            let s = strings_of(tags@);
            assert(s[placed[k1].0] == tags@[placed[k1].0]@ && s[placed[k2].0] == tags@[placed[k2].0]@);
            assert(s[placed[k1].1] == tags@[placed[k1].1]@ && s[placed[k2].1] == tags@[placed[k2].1]@);
            lemma_sorted_places(s, placed[k1].0, placed[k2].0);
            lemma_sorted_places(s, placed[k1].1, placed[k2].1);
        }
    }
    out
}

proof fn lemma_filter_len_mono<A>(s: Seq<A>, p: spec_fn(A) -> bool, q: spec_fn(A) -> bool)
    requires
        forall|a: A| #[trigger] p(a) ==> q(a),
    ensures
        s.filter(p).len() <= s.filter(q).len(),
    decreases s.len(),
{
    if s.len() == 0 {
        s.lemma_filter_len(p);
    } else {
        let s0 = s.drop_last();
        lemma_filter_len_mono(s0, p, q);
        assert(s =~= s0.push(s.last()));
        s0.lemma_filter_len_push(p, s.last());
        s0.lemma_filter_len_push(q, s.last());
    }
}

/// A tag that no counted row carries (all its rows lie in the theme or a
/// metadata namespace) is joined to no other tag.
pub proof fn law_excluded_tags_have_no_edges(rows: Seq<ArchiveTagRow>, metadata: Seq<Seq<char>>, x: Seq<char>, y: Seq<char>)
    requires
        forall|i: int| 0 <= i < rows.len() && (#[trigger] rows[i]).tag_id@ == x ==> !counted(rows[i], metadata),
    ensures
        pair_support(rows, metadata, x, y) == 0,
        pair_support(rows, metadata, y, x) == 0,
{
    let archives = archives_in_order(rows, metadata);
    assert forall|g: int| 0 <= g < archives.len() implies !co_carrier(rows, metadata, x, y)(#[trigger] archives[g])
        && !co_carrier(rows, metadata, y, x)(archives[g]) by {
        if carries(rows, metadata, archives[g], x) {
            let i = choose|i: int|
                #![trigger rows[i]]
                0 <= i < rows.len() && counted(rows[i], metadata) && rows[i].archive_id@ == archives[g] && rows[i].tag_id@ == x;
        }
    }
    archives.lemma_all_neg_filter_empty(co_carrier(rows, metadata, x, y));
    archives.lemma_all_neg_filter_empty(co_carrier(rows, metadata, y, x));
}

/// Two tags are never carried together by more archives than carry either,
/// so the archives that carry one or the other are at least as many as those
/// that carry both.
pub proof fn law_pair_support_is_bounded(rows: Seq<ArchiveTagRow>, metadata: Seq<Seq<char>>, x: Seq<char>, y: Seq<char>)
    ensures
        pair_support(rows, metadata, x, y) <= support(rows, metadata, x),
        pair_support(rows, metadata, x, y) <= support(rows, metadata, y),
        support(rows, metadata, x) + support(rows, metadata, y) - pair_support(rows, metadata, x, y) >= pair_support(
            rows,
            metadata,
            x,
            y,
        ),
{
    let archives = archives_in_order(rows, metadata);
    lemma_filter_len_mono(archives, co_carrier(rows, metadata, x, y), carrier(rows, metadata, x));
    lemma_filter_len_mono(archives, co_carrier(rows, metadata, x, y), carrier(rows, metadata, y));
}

// ---------------------------------------------------------------------------
// Neighbor lookups
// ---------------------------------------------------------------------------
/// The seed tags of a neighbor lookup: the non-blank ids, each once, sorted.
pub fn neighbor_seeds(seed_tag_ids: &Vec<String>) -> (r: Vec<String>)
    ensures
        strictly_sorted(strings_of(r@)),
        id_set(r@) == non_blank_ids(seed_tag_ids@),
{
    let mut pending = PendingTagIds::new();
    add_non_blank(&mut pending, seed_tag_ids);
    assert(pending@ =~= non_blank_ids(seed_tag_ids@));
    pending.take()
}

/// One more kept edge for seed `s`, unless it has reached the limit.
pub open spec fn bump(counts: Map<Seq<char>, nat>, limit: nat, s: Seq<char>) -> Map<Seq<char>, nat> {
    if counts.dom().contains(s) && counts[s] < limit {
        counts.insert(s, counts[s] + 1)
    } else {
        counts
    }
}

/// An edge between `a` and `b` touches a seed below the limit.
pub open spec fn wanted(counts: Map<Seq<char>, nat>, limit: nat, a: Seq<char>, b: Seq<char>) -> bool {
    (counts.dom().contains(a) && counts[a] < limit) || (counts.dom().contains(b) && counts[b] < limit)
}

/// Going through the edges in order: which are kept, and how many kept
/// edges each seed has. An edge is kept when one of the seeds it touches has
/// fewer than `limit` kept edges; each touching seed below the limit then
/// counts it.
pub open spec fn neighbor_scan(seeds: Set<Seq<char>>, limit: nat, edges: Seq<(Seq<char>, Seq<char>)>) -> (
    Seq<bool>,
    Map<Seq<char>, nat>,
)
    decreases edges.len(),
{
    if edges.len() == 0 {
        (Seq::empty(), Map::new(|s: Seq<char>| seeds.contains(s), |s: Seq<char>| 0nat))
    } else {
        let (kept, counts) = neighbor_scan(seeds, limit, edges.drop_last());
        let (a, b) = edges.last();
        if wanted(counts, limit, a, b) {
            let once = bump(counts, limit, a);
            (kept.push(true), if a == b {
                once
            } else {
                bump(once, limit, b)
            })
        } else {
            (kept.push(false), counts)
        }
    }
}

proof fn lemma_scan_step(seeds: Set<Seq<char>>, limit: nat, edges: Seq<(Seq<char>, Seq<char>)>, k: int)
    requires
        0 <= k < edges.len(),
    ensures
        ({
            let prev = neighbor_scan(seeds, limit, edges.take(k));
            let a = edges[k].0;
            let b = edges[k].1;
            neighbor_scan(seeds, limit, edges.take(k + 1)) == if wanted(prev.1, limit, a, b) {
                (prev.0.push(true), if a == b {
                    bump(prev.1, limit, a)
                } else {
                    bump(bump(prev.1, limit, a), limit, b)
                })
            } else {
                (prev.0.push(false), prev.1)
            }
        }),
{
    assert(edges.take(k + 1).drop_last() =~= edges.take(k));
    assert(edges.take(k + 1).last() == edges[k]);
}

pub open spec fn edge_views(edges: Seq<(String, String)>) -> Seq<(Seq<char>, Seq<char>)> {
    edges.map_values(|e: (String, String)| (e.0@, e.1@))
}

fn seed_place(seeds: &Vec<String>, x: &str) -> (r: Option<usize>)
    requires
        strictly_sorted(strings_of(seeds@)),
    ensures
        match r {
            Some(p) => p < seeds@.len() && seeds@[p as int]@ == x@,
            None => !id_set(seeds@).contains(x@),
        },
{
    match find_sorted(seeds, x) {
        Ok(p) => Some(p),
        Err(p) => {
            proof {
                if id_set(seeds@).contains(x@) {
                    let w = choose|w: int| 0 <= w < strings_of(seeds@).len() && strings_of(seeds@)[w] == x@;
                    assert(seeds@[w]@ == x@);
                    lemma_lex_irreflexive(x@);
                }
            }
            None
        },
    }
}

/// Which edges a neighbor lookup keeps, given its seeds (non-blank, sorted,
/// each once; see `neighbor_seeds`) and the edges touching them in the order
/// the store ranks them (see `neighbor_scan`).
pub fn select_neighbor_edges(seeds: &Vec<String>, limit_per_seed: usize, edges: &Vec<(String, String)>) -> (r: Vec<bool>)
    requires
        strictly_sorted(strings_of(seeds@)),
    ensures
        r@ == neighbor_scan(id_set(seeds@), limit_per_seed as nat, edge_views(edges@)).0,
{
    let ghost seed_set = id_set(seeds@);
    let ghost lim = limit_per_seed as nat;
    let ghost views = edge_views(edges@);
    let n = seeds.len();
    let mut counts: Vec<usize> = vec![0usize; n];
    let mut kept: Vec<bool> = Vec::new();
    let mut k: usize = 0;
    proof {
        assert(views.take(0) =~= Seq::<(Seq<char>, Seq<char>)>::empty());
        assert forall|p: int| 0 <= p < n implies seed_set.contains(#[trigger] seeds@[p]@) by {
            assert(strings_of(seeds@)[p] == seeds@[p]@);
        }
        let start = neighbor_scan(seed_set, lim, views.take(0));
        assert(start.1.dom() =~= seed_set);
    }
    while k < edges.len()
        invariant
            k <= edges@.len(),
            n == seeds@.len(),
            strictly_sorted(strings_of(seeds@)),
            seed_set == id_set(seeds@),
            views == edge_views(edges@),
            lim == limit_per_seed as nat,
            forall|p: int| 0 <= p < n ==> seed_set.contains(#[trigger] seeds@[p]@),
            counts@.len() == n,
            kept@ == neighbor_scan(seed_set, lim, views.take(k as int)).0,
            neighbor_scan(seed_set, lim, views.take(k as int)).1.dom() == seed_set,
            forall|p: int| 0 <= p < n ==> #[trigger] counts@[p] as nat == neighbor_scan(seed_set, lim, views.take(k as int)).1[seeds@[p]@]
                && counts@[p] <= limit_per_seed,
        decreases edges@.len() - k,
    {
        let ghost before = neighbor_scan(seed_set, lim, views.take(k as int)).1;
        let a = edges[k].0.as_str();
        let b = edges[k].1.as_str();
        proof {
            assert(views.len() == edges@.len());
            assert(views[k as int] == (a@, b@));
            lemma_scan_step(seed_set, lim, views, k as int);
        }
        let pa = seed_place(seeds, a);
        let pb = seed_place(seeds, b);
        let want_a = match pa {
            Some(p) => counts[p] < limit_per_seed,
            None => false,
        };
        let want_b = match pb {
            Some(p) => counts[p] < limit_per_seed,
            None => false,
        };
        proof {
            assert(want_a == (before.dom().contains(a@) && before[a@] < lim));
            assert(want_b == (before.dom().contains(b@) && before[b@] < lim));
        }
        if want_a || want_b {
            let ghost once = bump(before, lim, a@);
            if let Some(p) = pa {
                if counts[p] < limit_per_seed {
                    counts.set(p, counts[p] + 1);
                }
            }
            proof {
                assert(once.dom() == seed_set);
                assert forall|q: int| 0 <= q < n implies #[trigger] counts@[q] as nat == once[seeds@[q]@] && counts@[q]
                    <= limit_per_seed by {
                    let sq = strings_of(seeds@);
                    assert(sq[q] == seeds@[q]@);
                    if let Some(p) = pa {
                        assert(sq[p as int] == seeds@[p as int]@);
                        lemma_sorted_places(sq, p as int, q);
                    }
                }
            }
            if !crate::text::str_eq(a, b) {
                let ghost twice = bump(once, lim, b@);
                if let Some(p) = pb {
                    if counts[p] < limit_per_seed {
                        counts.set(p, counts[p] + 1);
                    }
                }
                proof {
                    assert(twice.dom() == seed_set);
                    assert forall|q: int| 0 <= q < n implies #[trigger] counts@[q] as nat == twice[seeds@[q]@] && counts@[q]
                        <= limit_per_seed by {
                        let sq = strings_of(seeds@);
                        assert(sq[q] == seeds@[q]@);
                        if let Some(p) = pb {
                            assert(sq[p as int] == seeds@[p as int]@);
                            lemma_sorted_places(sq, p as int, q);
                        }
                    }
                    assert(neighbor_scan(seed_set, lim, views.take(k + 1)).1 == twice);
                }
            } else {
                proof {
                    assert(neighbor_scan(seed_set, lim, views.take(k + 1)).1 == once);
                }
            }
            kept.push(true);
        } else {
            kept.push(false);
        }
        k = k + 1;
    }
    proof {
        assert(views.take(edges@.len() as int) =~= views);
    }
    kept
}

} // verus!
