//! Preference learning rules: how strongly a behavior event speaks for or
//! against an archive, which concept keys an analysis yields, and the concept
//! combinations whose rule candidates an event updates.
use crate::content::{ContentAnalysisResult, ContentConcept};
use crate::json::{json_get, json_i64, JsonValue};
use crate::ordered::{insert_sorted, strictly_sorted};
use crate::text::{lowercase, str_eq, strings_of, to_lowercase, trim, trim_seq};
use vstd::prelude::*;

verus! {

// ---------------------------------------------------------------------------
// Event signals
// ---------------------------------------------------------------------------
/// The value of an event's metadata field under `key`, falling back to
/// `alt` when `key` is absent, as an integer (`get(key).or_else(get(alt)).and_then(as_i64)`).
pub open spec fn metadata_int(metadata: JsonValue, key: Seq<char>, alt: Seq<char>) -> Option<i64> {
    match json_get(metadata, key) {
        Some(v) => json_i64(v),
        None => match json_get(metadata, alt) {
            Some(v) => json_i64(v),
            None => None,
        },
    }
}

pub open spec fn int_or(v: Option<i64>, default: int) -> int {
    match v {
        Some(x) => x as int,
        None => default,
    }
}

/// The signal of an event, in half points (a signal of -5.0 is -10): manual
/// deletes are strongly negative, restores and rule corrections strongly
/// positive, continued reading and reopening positive. An exit is negative
/// after a short glance (under 15 s, at most one page further), positive after
/// reading to three quarters of the pages or ten pages further, and neutral
/// otherwise. Other events carry no signal.
pub open spec fn event_signal(event_type: Seq<char>, metadata: JsonValue) -> int {
    if event_type == "manual_delete"@ {
        -10
    } else if event_type == "restore"@ || event_type == "rule_correction"@ {
        12
    } else if event_type == "continue_reading"@ || event_type == "repeat_open"@ {
        6
    } else if event_type == "exit"@ {
        let start = int_or(metadata_int(metadata, "startPage"@, "start_page"@), 1);
        let end = int_or(metadata_int(metadata, "endPage"@, "end_page"@), 1);
        let total_raw = int_or(metadata_int(metadata, "totalPages"@, "total_pages"@), 1);
        let total = if total_raw >= 1 {
            total_raw
        } else {
            1
        };
        let duration = int_or(metadata_int(metadata, "durationMs"@, "duration_ms"@), 0);
        if duration > 0 && duration < 15_000 && end <= start + 1 {
            -1
        } else if end >= total * 3 / 4 || end - start >= 10 {
            6
        } else {
            0
        }
    } else {
        0
    }
}

fn metadata_int_exec(metadata: &JsonValue, key: &str, alt: &str) -> (r: Option<i64>)
    ensures
        r == metadata_int(*metadata, key@, alt@),
{
    match metadata.get(key) {
        Some(v) => v.as_i64(),
        None => match metadata.get(alt) {
            Some(v) => v.as_i64(),
            None => None,
        },
    }
}

fn int_or_exec(v: Option<i64>, default: i64) -> (r: i128)
    ensures
        r == int_or(v, default as int),
{
    match v {
        Some(x) => x as i128,
        None => default as i128,
    }
}

/// The signal of a behavior event, in half points; arithmetic on the page
/// numbers is exact.
pub fn signal_for_event(event_type: &str, metadata: &JsonValue) -> (r: i32)
    ensures
        r == event_signal(event_type@, *metadata),
{
    proof {
        reveal_strlit("manual_delete");
        reveal_strlit("restore");
        reveal_strlit("rule_correction");
        reveal_strlit("continue_reading");
        reveal_strlit("repeat_open");
        reveal_strlit("exit");
    }
    if str_eq(event_type, "manual_delete") {
        -10
    } else if str_eq(event_type, "restore") || str_eq(event_type, "rule_correction") {
        12
    } else if str_eq(event_type, "continue_reading") || str_eq(event_type, "repeat_open") {
        6
    } else if str_eq(event_type, "exit") {
        let start = int_or_exec(metadata_int_exec(metadata, "startPage", "start_page"), 1);
        let end = int_or_exec(metadata_int_exec(metadata, "endPage", "end_page"), 1);
        let total_raw = int_or_exec(metadata_int_exec(metadata, "totalPages", "total_pages"), 1);
        let total = if total_raw >= 1 {
            total_raw
        } else {
            1
        };
        let duration = int_or_exec(metadata_int_exec(metadata, "durationMs", "duration_ms"), 0);
        if duration > 0 && duration < 15_000 && end <= start + 1 {
            -1
        } else if end >= total * 3 / 4 || end - start >= 10 {
            6
        } else {
            0
        }
    } else {
        0
    }
}

/// Whatever the metadata: a manual delete is strongly negative (-5 points),
/// a restore or a rule correction strongly positive (+6), continued reading
/// and reopening positive (+3), and an event of any other kind but an exit
/// carries no signal.
pub proof fn law_event_kinds_signal(event_type: Seq<char>, metadata: JsonValue)
    ensures
        event_signal("manual_delete"@, metadata) == -10,
        event_signal("restore"@, metadata) == 12,
        event_signal("rule_correction"@, metadata) == 12,
        event_signal("continue_reading"@, metadata) == 6,
        event_signal("repeat_open"@, metadata) == 6,
        event_type != "manual_delete"@ && event_type != "restore"@ && event_type != "rule_correction"@
            && event_type != "continue_reading"@ && event_type != "repeat_open"@ && event_type != "exit"@
            ==> event_signal(event_type, metadata) == 0,
        -1 <= event_signal("exit"@, metadata) <= 6,
{
    reveal_strlit("exit");
    reveal_strlit("manual_delete");
    reveal_strlit("restore");
    reveal_strlit("rule_correction");
    reveal_strlit("continue_reading");
    reveal_strlit("repeat_open");
    assert("restore"@[0] != "manual_delete"@[0]);
    assert("rule_correction"@[1] != "restore"@[1] && "rule_correction"@[0] != "manual_delete"@[0]);
    assert("continue_reading"@[0] != "manual_delete"@[0] && "continue_reading"@[0] != "restore"@[0]);
    assert("repeat_open"@[2] != "restore"@[2] && "repeat_open"@[0] != "manual_delete"@[0] && "repeat_open"@[1]
        != "rule_correction"@[1] && "repeat_open"@[0] != "continue_reading"@[0]);
    assert("exit"@[0] != "manual_delete"@[0] && "exit"@[0] != "restore"@[0] && "exit"@[0]
        != "rule_correction"@[0] && "exit"@[0] != "continue_reading"@[0] && "exit"@[0] != "repeat_open"@[0]);
}

/// The metadata field gives the integer `value` under its camelCase name, or
/// under its snake_case name when the camelCase one is absent.
pub open spec fn field_reads(metadata: JsonValue, camel: Seq<char>, snake: Seq<char>, value: i64) -> bool {
    ||| exists|v: JsonValue| json_get(metadata, camel) == Some(v) && json_i64(v) == Some(value)
    ||| (json_get(metadata, camel) is None && exists|v: JsonValue|
        json_get(metadata, snake) == Some(v) && json_i64(v) == Some(value))
}

/// An exit reads each of its four numbers under either spelling, camelCase
/// first: a glance of under 15 seconds that moved at most one page is a quick
/// exit (-1), reaching three quarters of the pages (of at least one) or ten
/// pages further is a good read (6), anything else is neutral. So metadata in
/// snake_case and in camelCase give the same signal.
pub proof fn law_exit_signal_reads_both_spellings(
    metadata: JsonValue,
    start: i64,
    end: i64,
    total: i64,
    duration: i64,
)
    requires
        field_reads(metadata, "startPage"@, "start_page"@, start),
        field_reads(metadata, "endPage"@, "end_page"@, end),
        field_reads(metadata, "totalPages"@, "total_pages"@, total),
        field_reads(metadata, "durationMs"@, "duration_ms"@, duration),
    ensures
        event_signal("exit"@, metadata) == if 0 < duration < 15_000 && end <= start + 1 {
            -1
        } else if end >= (if total >= 1 {
            total as int
        } else {
            1
        }) * 3 / 4 || end - start >= 10 {
            6
        } else {
            0
        },
{
    reveal_strlit("exit");
    reveal_strlit("manual_delete");
    reveal_strlit("restore");
    reveal_strlit("rule_correction");
    reveal_strlit("continue_reading");
    reveal_strlit("repeat_open");
    assert("exit"@[0] != "manual_delete"@[0] && "exit"@[0] != "restore"@[0] && "exit"@[0]
        != "rule_correction"@[0] && "exit"@[0] != "continue_reading"@[0] && "exit"@[0] != "repeat_open"@[0]);
    assert(metadata_int(metadata, "startPage"@, "start_page"@) == Some(start));
    assert(metadata_int(metadata, "endPage"@, "end_page"@) == Some(end));
    assert(metadata_int(metadata, "totalPages"@, "total_pages"@) == Some(total));
    assert(metadata_int(metadata, "durationMs"@, "duration_ms"@) == Some(duration));
}


// ---------------------------------------------------------------------------
// Concept keys
// ---------------------------------------------------------------------------
/// Concepts at or above this confidence (basis points) with evidence pages
/// become keys.
pub const MIN_CONCEPT_CONFIDENCE: u32 = 7500;

/// A concept or theme as a key: trimmed, then lowercase.
pub open spec fn key_of(name: Seq<char>) -> Seq<char> {
    lowercase(trim_seq(name))
}

pub open spec fn concept_counts(c: ContentConcept) -> bool {
    c.confidence >= MIN_CONCEPT_CONFIDENCE && c.evidence_pages@.len() > 0
}

pub open spec fn key_of_concepts(concepts: Seq<ContentConcept>, n: int, t: Seq<char>) -> bool {
    exists|i: int| 0 <= i < n && concept_counts(#[trigger] concepts[i]) && key_of(concepts[i].name@) == t
}

pub open spec fn key_of_themes(themes: Seq<String>, n: int, t: Seq<char>) -> bool {
    exists|i: int| 0 <= i < n && key_of(#[trigger] themes[i]@) == t
}

/// `t` is a concept key of the analysis: non-empty, from a confident concept
/// with evidence or from a theme.
pub open spec fn concept_key(result: ContentAnalysisResult, t: Seq<char>) -> bool {
    &&& t.len() > 0
    &&& key_of_concepts(result.concepts@, result.concepts@.len() as int, t) || key_of_themes(
        result.themes@,
        result.themes@.len() as int,
        t,
    )
}

/// The concept keys of an analysis, sorted and without duplicates.
pub fn concept_keys(result: &ContentAnalysisResult) -> (r: Vec<String>)
    ensures
        strictly_sorted(strings_of(r@)),
        forall|t: Seq<char>| #[trigger] strings_of(r@).contains(t) <==> concept_key(*result, t),
{
    let mut keys: Vec<String> = Vec::new();
    let mut i: usize = 0;
    while i < result.concepts.len()
        invariant
            i <= result.concepts@.len(),
            strictly_sorted(strings_of(keys@)),
            forall|t: Seq<char>| #[trigger]
                strings_of(keys@).contains(t) <==> t.len() > 0 && key_of_concepts(result.concepts@, i as int, t),
        decreases result.concepts@.len() - i,
    {
        let concept: &ContentConcept = &result.concepts[i];
        let ghost before = strings_of(keys@);
        let ghost mut added: Option<Seq<char>> = None;
        if concept.confidence >= MIN_CONCEPT_CONFIDENCE && concept.evidence_pages.len() > 0 {
            let trimmed = trim(concept.name.as_str());
            let key = to_lowercase(trimmed.as_str());
            if key.as_str().unicode_len() > 0 {
                proof {
                    added = Some(key@);
                }
                insert_sorted(&mut keys, key);
            }
        }
        proof {
            assert forall|t: Seq<char>| #[trigger]
                strings_of(keys@).contains(t) <==> t.len() > 0 && key_of_concepts(result.concepts@, i + 1, t) by {
                if key_of_concepts(result.concepts@, i + 1, t) && !key_of_concepts(result.concepts@, i as int, t) {
                    let w = choose|w: int|
                        0 <= w < i + 1 && concept_counts(#[trigger] result.concepts@[w]) && key_of(
                            result.concepts@[w].name@,
                        ) == t;
                    assert(w == i);
                }
                if key_of_concepts(result.concepts@, i as int, t) {
                    let w = choose|w: int|
                        0 <= w < i && concept_counts(#[trigger] result.concepts@[w]) && key_of(
                            result.concepts@[w].name@,
                        ) == t;
                    assert(concept_counts(result.concepts@[w]));
                }
                if added == Some(t) {
                    assert(concept_counts(result.concepts@[i as int]));
                }
            }
        }
        i = i + 1;
    }
    let mut j: usize = 0;
    while j < result.themes.len()
        invariant
            j <= result.themes@.len(),
            strictly_sorted(strings_of(keys@)),
            forall|t: Seq<char>| #[trigger]
                strings_of(keys@).contains(t) <==> t.len() > 0 && (key_of_concepts(
                    result.concepts@,
                    result.concepts@.len() as int,
                    t,
                ) || key_of_themes(result.themes@, j as int, t)),
        decreases result.themes@.len() - j,
    {
        let trimmed = trim(result.themes[j].as_str());
        let key = to_lowercase(trimmed.as_str());
        let ghost kv = key@;
        if key.as_str().unicode_len() > 0 {
            insert_sorted(&mut keys, key);
        }
        proof {
            assert forall|t: Seq<char>| #[trigger]
                strings_of(keys@).contains(t) <==> t.len() > 0 && (key_of_concepts(
                    result.concepts@,
                    result.concepts@.len() as int,
                    t,
                ) || key_of_themes(result.themes@, j + 1, t)) by {
                if key_of_themes(result.themes@, j + 1, t) && !key_of_themes(result.themes@, j as int, t) {
                    let w = choose|w: int| 0 <= w < j + 1 && key_of(#[trigger] result.themes@[w]@) == t;
                    assert(w == j);
                }
                if key_of_themes(result.themes@, j as int, t) {
                    let w = choose|w: int| 0 <= w < j && key_of(#[trigger] result.themes@[w]@) == t;
                    assert(key_of(result.themes@[w]@) == t);
                }
                if t == kv && t.len() > 0 {
                    assert(key_of(result.themes@[j as int]@) == t);
                }
            }
        }
        j = j + 1;
    }
    keys
}

// ---------------------------------------------------------------------------
// Combinations
// ---------------------------------------------------------------------------
pub open spec fn lists_of(v: Seq<Vec<String>>) -> Seq<Seq<Seq<char>>> {
    v.map_values(|c: Vec<String>| strings_of(c@))
}

pub open spec fn prepend_all(x: Seq<char>, cs: Seq<Seq<Seq<char>>>) -> Seq<Seq<Seq<char>>> {
    cs.map_values(|c: Seq<Seq<char>>| seq![x] + c)
}

/// The `k`-element combinations of `s`, each in the order of `s`, listed in
/// lexicographic order of their positions.
pub open spec fn combos(s: Seq<Seq<char>>, k: nat) -> Seq<Seq<Seq<char>>>
    decreases s.len(),
{
    if k == 0 {
        seq![Seq::empty()]
    } else if s.len() == 0 {
        Seq::empty()
    } else {
        prepend_all(s[0], combos(s.drop_first(), (k - 1) as nat)) + combos(s.drop_first(), k)
    }
}

/// `n` choose `k`.
pub open spec fn binomial(n: nat, k: nat) -> nat
    decreases n,
{
    if k == 0 {
        1
    } else if n == 0 {
        0
    } else {
        binomial((n - 1) as nat, (k - 1) as nat) + binomial((n - 1) as nat, k)
    }
}

fn prepended(x: &String, c: &Vec<String>) -> (r: Vec<String>)
    ensures
        strings_of(r@) == seq![x@] + strings_of(c@),
{
    let mut r: Vec<String> = Vec::new();
    r.push(x.clone());
    let mut i: usize = 0;
    while i < c.len()
        invariant
            i <= c@.len(),
            strings_of(r@) == seq![x@] + strings_of(c@).take(i as int),
        decreases c@.len() - i,
    {
        let ghost before = r@;
        r.push(c[i].clone());
        assert(strings_of(r@) =~= strings_of(before).push(c@[i as int]@));
        i = i + 1;
        assert(strings_of(r@) =~= seq![x@] + strings_of(c@).take(i as int));
    }
    assert(strings_of(c@).take(c@.len() as int) =~= strings_of(c@));
    r
}

fn combinations_from(values: &Vec<String>, start: usize, size: usize) -> (r: Vec<Vec<String>>)
    requires
        start <= values@.len(),
    ensures
        lists_of(r@) == combos(strings_of(values@).skip(start as int), size as nat),
    decreases values@.len() - start,
{
    let ghost s = strings_of(values@).skip(start as int);
    if size == 0 {
        let mut r: Vec<Vec<String>> = Vec::new();
        let empty: Vec<String> = Vec::new();
        assert(strings_of(empty@) =~= Seq::<Seq<char>>::empty());
        r.push(empty);
        assert(lists_of(r@) =~= seq![Seq::<Seq<char>>::empty()]);
        return r;
    }
    if start == values.len() {
        assert(s.len() == 0);
        return Vec::new();
    }
    assert(s.drop_first() =~= strings_of(values@).skip(start + 1));
    let with_first = combinations_from(values, start + 1, size - 1);
    let without_first = combinations_from(values, start + 1, size);
    let mut r: Vec<Vec<String>> = Vec::new();
    let mut i: usize = 0;
    while i < with_first.len()
        invariant
            i <= with_first@.len(),
            start < values@.len(),
            s == strings_of(values@).skip(start as int),
            lists_of(r@) == prepend_all(s[0], lists_of(with_first@)).take(i as int),
        decreases with_first@.len() - i,
    {
        let ghost before = r@;
        let c = prepended(&values[start], &with_first[i]);
        r.push(c);
        assert(lists_of(r@) =~= lists_of(before).push(strings_of(c@)));
        i = i + 1;
        assert(lists_of(r@) =~= prepend_all(s[0], lists_of(with_first@)).take(i as int));
    }
    let ghost head = lists_of(r@);
    assert(head =~= prepend_all(s[0], lists_of(with_first@)));
    let mut j: usize = 0;
    while j < without_first.len()
        invariant
            j <= without_first@.len(),
            lists_of(r@) == head + lists_of(without_first@).take(j as int),
        decreases without_first@.len() - j,
    {
        let ghost before = r@;
        r.push(without_first[j].clone());
        assert(lists_of(r@) =~= lists_of(before).push(strings_of(without_first@[j as int]@)));
        j = j + 1;
        assert(lists_of(r@) =~= head + lists_of(without_first@).take(j as int));
    }
    assert(lists_of(without_first@).take(without_first@.len() as int) =~= lists_of(without_first@));
    r
}

/// The `size`-element combinations of `values`, each in the order of
/// `values`, listed in lexicographic order of their positions.
pub fn combinations(values: &Vec<String>, size: usize) -> (r: Vec<Vec<String>>)
    ensures
        lists_of(r@) == combos(strings_of(values@), size as nat),
{
    assert(strings_of(values@).skip(0) =~= strings_of(values@));
    combinations_from(values, 0, size)
}

// ---------------------------------------------------------------------------
// Laws
// ---------------------------------------------------------------------------
/// There are `n` choose `k` combinations of `k` out of `n` values, and each
/// has exactly `k` elements.
pub proof fn law_combination_count(s: Seq<Seq<char>>, k: nat)
    ensures
        combos(s, k).len() == binomial(s.len(), k),
        forall|i: int| 0 <= i < combos(s, k).len() ==> (#[trigger] combos(s, k)[i]).len() == k,
    decreases s.len(),
{
    if k > 0 && s.len() > 0 {
        law_combination_count(s.drop_first(), (k - 1) as nat);
        law_combination_count(s.drop_first(), k);
        let a = prepend_all(s[0], combos(s.drop_first(), (k - 1) as nat));
        let b = combos(s.drop_first(), k);
        assert forall|i: int| 0 <= i < combos(s, k).len() implies (#[trigger] combos(s, k)[i]).len()
            == k by {
            if i < a.len() {
                assert(combos(s, k)[i] == seq![s[0]] + combos(s.drop_first(), (k - 1) as nat)[i]);
            } else {
                assert(combos(s, k)[i] == b[i - a.len()]);
            }
        }
    }
}

} // verus!
