//! A plain model of JSON documents, so that the logic that reads JSON
//! (manifest schemas, event payload filters, tag evidence) can be verified.
//! Objects keep their entries in the order the parser produced them.
use vstd::prelude::*;

verus! {

/// A JSON number as the parser classified it. Non-integral numbers keep their
/// textual form, which is all the services compare them by.
#[derive(Debug)]
pub enum JsonNumber {
    PosInt(u64),
    NegInt(i64),
    Float(String),
}

#[derive(Debug)]
pub enum JsonValue {
    Null,
    Bool(bool),
    Number(JsonNumber),
    String(String),
    Array(Vec<JsonValue>),
    Object(Vec<(String, JsonValue)>),
}

impl JsonValue {
    pub open spec fn spec_is_object(&self) -> bool {
        self is Object
    }

    /// `serde_json::Value::is_object`.
    pub fn is_object(&self) -> (r: bool)
        ensures
            r == self.spec_is_object(),
    {
        match self {
            JsonValue::Object(_) => true,
            _ => false,
        }
    }

    /// An empty JSON object.
    pub fn empty_object() -> (r: JsonValue)
        ensures
            r matches JsonValue::Object(entries) && entries@.len() == 0,
    {
        JsonValue::Object(Vec::new())
    }

    /// An empty JSON array.
    pub fn empty_array() -> (r: JsonValue)
        ensures
            r matches JsonValue::Array(items) && items@.len() == 0,
    {
        JsonValue::Array(Vec::new())
    }
}


/// The first member of an object's entries under `key`.
pub open spec fn entries_get(entries: Seq<(String, JsonValue)>, key: Seq<char>) -> Option<JsonValue>
    decreases entries.len(),
{
    if entries.len() == 0 {
        None
    } else if entries[0].0@ == key {
        Some(entries[0].1)
    } else {
        entries_get(entries.drop_first(), key)
    }
}

/// `serde_json::Value::get` with a string key: the member of an object under `key`.
pub open spec fn json_get(v: JsonValue, key: Seq<char>) -> Option<JsonValue> {
    match v {
        JsonValue::Object(entries) => entries_get(entries@, key),
        _ => None,
    }
}

/// `serde_json::Value::as_i64`: an integer that fits in `i64`.
pub open spec fn json_i64(v: JsonValue) -> Option<i64> {
    match v {
        JsonValue::Number(JsonNumber::PosInt(u)) => if u <= i64::MAX {
            Some(u as i64)
        } else {
            None
        },
        JsonValue::Number(JsonNumber::NegInt(i)) => Some(i),
        _ => None,
    }
}

/// `serde_json::Value::as_str`.
pub open spec fn json_str(v: JsonValue) -> Option<Seq<char>> {
    match v {
        JsonValue::String(s) => Some(s@),
        _ => None,
    }
}

impl JsonValue {
    /// The member of an object under `key`; `None` for a missing key or a
    /// value that is not an object.
    pub fn get(&self, key: &str) -> (r: Option<&JsonValue>)
        ensures
            match r {
                Some(v) => json_get(*self, key@) == Some(*v),
                None => json_get(*self, key@) is None,
            },
    {
        match self {
            JsonValue::Object(entries) => {
                let mut j: usize = 0;
                assert(entries@.skip(0) =~= entries@);
                while j < entries.len()
                    invariant
                        j <= entries@.len(),
                        json_get(*self, key@) == entries_get(entries@.skip(j as int), key@),
                    decreases entries@.len() - j,
                {
                    if crate::text::str_eq(entries[j].0.as_str(), key) {
                        assert(entries@.skip(j as int)[0] == entries@[j as int]);
                        return Some(&entries[j].1);
                    }
                    assert(entries@.skip(j as int).drop_first() =~= entries@.skip(j + 1));
                    j = j + 1;
                }
                None
            },
            _ => None,
        }
    }

    /// `serde_json::Value::as_i64`.
    pub fn as_i64(&self) -> (r: Option<i64>)
        ensures
            r == json_i64(*self),
    {
        match self {
            JsonValue::Number(JsonNumber::PosInt(u)) => if *u <= 0x7fff_ffff_ffff_ffffu64 {
                Some(*u as i64)
            } else {
                None
            },
            JsonValue::Number(JsonNumber::NegInt(i)) => Some(*i),
            _ => None,
        }
    }

    /// `serde_json::Value::as_str`.
    pub fn as_str(&self) -> (r: Option<&str>)
        ensures
            match r {
                Some(s) => json_str(*self) == Some(s@),
                None => json_str(*self) is None,
            },
    {
        match self {
            JsonValue::String(s) => Some(s.as_str()),
            _ => None,
        }
    }
}


/// Equality of JSON numbers as `serde_json` has it.
pub open spec fn number_eq(a: JsonNumber, b: JsonNumber) -> bool {
    match (a, b) {
        (JsonNumber::PosInt(x), JsonNumber::PosInt(y)) => x == y,
        (JsonNumber::NegInt(x), JsonNumber::NegInt(y)) => x == y,
        (JsonNumber::Float(x), JsonNumber::Float(y)) => x@ == y@,
        _ => false,
    }
}

/// Equality of JSON values: the same kind and equal contents; arrays element
/// by element, objects with the same members under the same keys.
pub open spec fn json_eq(a: JsonValue, b: JsonValue) -> bool
    decreases a,
{
    match a {
        JsonValue::Null => b is Null,
        JsonValue::Bool(x) => b matches JsonValue::Bool(y) && x == y,
        JsonValue::Number(n) => b matches JsonValue::Number(m) && number_eq(n, m),
        JsonValue::String(s) => b matches JsonValue::String(t) && s@ == t@,
        JsonValue::Array(xs) => match b {
            JsonValue::Array(ys) => xs@.len() == ys@.len() && forall|i: int|
                0 <= i < xs@.len() ==> json_eq(#[trigger] xs@[i], ys@[i]),
            _ => false,
        },
        JsonValue::Object(es) => match b {
            JsonValue::Object(fs) => es@.len() == fs@.len() && forall|i: int|
                0 <= i < es@.len() ==> match #[trigger] entries_get(fs@, es@[i].0@) {
                    Some(v) => json_eq(es@[i].1, v),
                    None => false,
                },
            _ => false,
        },
    }
}

fn number_equal(a: &JsonNumber, b: &JsonNumber) -> (r: bool)
    ensures
        r == number_eq(*a, *b),
{
    match (a, b) {
        (JsonNumber::PosInt(x), JsonNumber::PosInt(y)) => *x == *y,
        (JsonNumber::NegInt(x), JsonNumber::NegInt(y)) => *x == *y,
        (JsonNumber::Float(x), JsonNumber::Float(y)) => crate::text::str_eq(x.as_str(), y.as_str()),
        _ => false,
    }
}

/// `==` on JSON values (see `json_eq`).
pub fn json_equal(a: &JsonValue, b: &JsonValue) -> (r: bool)
    ensures
        r == json_eq(*a, *b),
    decreases *a,
{
    match a {
        JsonValue::Null => match b {
            JsonValue::Null => true,
            _ => false,
        },
        JsonValue::Bool(x) => match b {
            JsonValue::Bool(y) => *x == *y,
            _ => false,
        },
        JsonValue::Number(n) => match b {
            JsonValue::Number(m) => number_equal(n, m),
            _ => false,
        },
        JsonValue::String(s) => match b {
            JsonValue::String(t) => crate::text::str_eq(s.as_str(), t.as_str()),
            _ => false,
        },
        JsonValue::Array(xs) => match b {
            JsonValue::Array(ys) => {
                if xs.len() != ys.len() {
                    return false;
                }
                let mut i: usize = 0;
                while i < xs.len()
                    invariant
                        *a == JsonValue::Array(*xs),
                        *b == JsonValue::Array(*ys),
                        xs@.len() == ys@.len(),
                        i <= xs@.len(),
                        forall|k: int| 0 <= k < i ==> json_eq(#[trigger] xs@[k], ys@[k]),
                    decreases xs@.len() - i,
                {
                    proof {
                        let v: Vec<JsonValue> = *xs;
                        assert((*a)->Array_0 == v);
                        assert(decreases_to!(*a => (*a)->Array_0));
                        assert(decreases_to!(v => v@));
                        assert(decreases_to!(v@ => v@[i as int]));
                        assert(decreases_to!(*a => xs@[i as int]));
                    }
                    if !json_equal(&xs[i], &ys[i]) {
                        return false;
                    }
                    i = i + 1;
                }
                true
            },
            _ => false,
        },
        JsonValue::Object(es) => match b {
            JsonValue::Object(fs) => {
                if es.len() != fs.len() {
                    return false;
                }
                let mut i: usize = 0;
                while i < es.len()
                    invariant
                        *a == JsonValue::Object(*es),
                        *b == JsonValue::Object(*fs),
                        es@.len() == fs@.len(),
                        i <= es@.len(),
                        forall|k: int| 0 <= k < i ==> match #[trigger] entries_get(fs@, es@[k].0@) {
                            Some(v) => json_eq(es@[k].1, v),
                            None => false,
                        },
                    decreases es@.len() - i,
                {
                    match b.get(es[i].0.as_str()) {
                        Some(v) => {
                            proof {
                                let v: Vec<(String, JsonValue)> = *es;
                                assert((*a)->Object_0 == v);
                                assert(decreases_to!(*a => (*a)->Object_0));
                                assert(decreases_to!(v => v@));
                                assert(decreases_to!(v@ => v@[i as int]));
                                assert(decreases_to!(v@[i as int] => v@[i as int].1));
                                assert(decreases_to!(*a => es@[i as int].1));
                            }
                            if !json_equal(&es[i].1, v) {
                                return false;
                            }
                        },
                        None => {
                            return false;
                        },
                    }
                    i = i + 1;
                }
                true
            },
            _ => false,
        },
    }
}

// ---------------------------------------------------------------------------
// The mathematical value of a JSON document
// ---------------------------------------------------------------------------
/// A JSON number as a mathematical value.
pub enum NumberView {
    PosInt(u64),
    NegInt(i64),
    Float(Seq<char>),
}

/// A JSON document as a mathematical value: strings are character sequences,
/// arrays and objects are sequences.
pub enum JsonView {
    Null,
    Bool(bool),
    Number(NumberView),
    Str(Seq<char>),
    Array(Seq<JsonView>),
    Object(Seq<(Seq<char>, JsonView)>),
}

pub open spec fn number_view(n: JsonNumber) -> NumberView {
    match n {
        JsonNumber::PosInt(u) => NumberView::PosInt(u),
        JsonNumber::NegInt(i) => NumberView::NegInt(i),
        JsonNumber::Float(f) => NumberView::Float(f@),
    }
}

/// The mathematical value of a JSON document.
pub open spec fn json_view(v: JsonValue) -> JsonView
    decreases v, 0int,
{
    match v {
        JsonValue::Null => JsonView::Null,
        JsonValue::Bool(b) => JsonView::Bool(b),
        JsonValue::Number(n) => JsonView::Number(number_view(n)),
        JsonValue::String(s) => JsonView::Str(s@),
        JsonValue::Array(xs) => {
            proof {
                assert(decreases_to!(v => xs));
                assert(decreases_to!(xs => xs@));
            }
            JsonView::Array(items_view(xs@))
        },
        JsonValue::Object(es) => {
            proof {
                assert(decreases_to!(v => es));
                assert(decreases_to!(es => es@));
            }
            JsonView::Object(entries_view(es@))
        },
    }
}

/// The values of the items of an array.
pub open spec fn items_view(s: Seq<JsonValue>) -> Seq<JsonView>
    decreases s, 1int,
{
    if s.len() == 0 {
        Seq::empty()
    } else {
        proof {
            assert(decreases_to!(s => s.subrange(0, s.len() - 1)));
            assert(decreases_to!(s => s[s.len() - 1]));
        }
        items_view(s.drop_last()).push(json_view(s.last()))
    }
}

/// The keys and values of the entries of an object.
pub open spec fn entries_view(s: Seq<(String, JsonValue)>) -> Seq<(Seq<char>, JsonView)>
    decreases s, 1int,
{
    if s.len() == 0 {
        Seq::empty()
    } else {
        proof {
            assert(decreases_to!(s => s.subrange(0, s.len() - 1)));
            assert(decreases_to!(s => s[s.len() - 1]));
            assert(decreases_to!(s[s.len() - 1] => s[s.len() - 1].1));
        }
        entries_view(s.drop_last()).push((s.last().0@, json_view(s.last().1)))
    }
}

pub proof fn lemma_items_view(s: Seq<JsonValue>)
    ensures
        items_view(s).len() == s.len(),
        forall|i: int| 0 <= i < s.len() ==> #[trigger] items_view(s)[i] == json_view(s[i]),
    decreases s.len(),
{
    if s.len() > 0 {
        lemma_items_view(s.drop_last());
    }
}

pub proof fn lemma_entries_view(s: Seq<(String, JsonValue)>)
    ensures
        entries_view(s).len() == s.len(),
        forall|i: int| 0 <= i < s.len() ==> #[trigger] entries_view(s)[i] == (s[i].0@, json_view(s[i].1)),
    decreases s.len(),
{
    if s.len() > 0 {
        lemma_entries_view(s.drop_last());
    }
}

/// The member that `entries_get` finds is one of the entries' values.
pub proof fn lemma_entries_get_member(entries: Seq<(String, JsonValue)>, key: Seq<char>)
    ensures
        entries_get(entries, key) matches Some(v) ==> exists|k: int| 0 <= k < entries.len() && #[trigger] entries[k].1 == v,
    decreases entries.len(),
{
    if entries.len() > 0 && entries[0].0@ != key {
        lemma_entries_get_member(entries.drop_first(), key);
        if let Some(v) = entries_get(entries, key) {
            let k = choose|k: int| 0 <= k < entries.drop_first().len() && #[trigger] entries.drop_first()[k].1 == v;
            assert(entries[k + 1].1 == v);
        }
    }
}

/// A member of an object is smaller than the object.
pub proof fn lemma_member_decreases(v: JsonValue, key: Seq<char>)
    ensures
        json_get(v, key) matches Some(m) ==> decreases_to!(v => m),
{
    if let JsonValue::Object(es) = v {
        lemma_entries_get_member(es@, key);
        if let Some(m) = json_get(v, key) {
            let k = choose|k: int| 0 <= k < es@.len() && #[trigger] es@[k].1 == m;
            assert(decreases_to!(v => es));
            assert(decreases_to!(es => es@));
            assert(decreases_to!(es@ => es@[k]));
            assert(decreases_to!(es@[k] => es@[k].1));
        }
    }
}

/// A copy of a JSON document.
pub fn json_clone(v: &JsonValue) -> (r: JsonValue)
    ensures
        json_view(r) == json_view(*v),
    decreases *v,
{
    match v {
        JsonValue::Null => JsonValue::Null,
        JsonValue::Bool(b) => JsonValue::Bool(*b),
        JsonValue::Number(n) => JsonValue::Number(
            match n {
                JsonNumber::PosInt(u) => JsonNumber::PosInt(*u),
                JsonNumber::NegInt(i) => JsonNumber::NegInt(*i),
                JsonNumber::Float(f) => JsonNumber::Float(crate::text::owned(f.as_str())),
            },
        ),
        JsonValue::String(s) => JsonValue::String(crate::text::owned(s.as_str())),
        JsonValue::Array(xs) => {
            let mut out: Vec<JsonValue> = Vec::new();
            let mut i: usize = 0;
            while i < xs.len()
                invariant
                    *v == JsonValue::Array(*xs),
                    i <= xs@.len(),
                    out@.len() == i,
                    forall|k: int| 0 <= k < i ==> json_view(#[trigger] out@[k]) == json_view(xs@[k]),
                decreases xs@.len() - i,
            {
                proof {
                    let w: Vec<JsonValue> = *xs;
                    assert((*v)->Array_0 == w);
                    assert(decreases_to!(*v => (*v)->Array_0));
                    assert(decreases_to!(w => w@));
                    assert(decreases_to!(w@ => w@[i as int]));
                }
                let c = json_clone(&xs[i]);
                out.push(c);
                i = i + 1;
            }
            proof {
                lemma_items_view(out@);
                lemma_items_view(xs@);
                assert(items_view(out@) =~= items_view(xs@));
            }
            JsonValue::Array(out)
        },
        JsonValue::Object(es) => {
            let mut out: Vec<(String, JsonValue)> = Vec::new();
            let mut i: usize = 0;
            while i < es.len()
                invariant
                    *v == JsonValue::Object(*es),
                    i <= es@.len(),
                    out@.len() == i,
                    forall|k: int| 0 <= k < i ==> (#[trigger] out@[k]).0@ == es@[k].0@ && json_view(out@[k].1) == json_view(es@[k].1),
                decreases es@.len() - i,
            {
                proof {
                    let w: Vec<(String, JsonValue)> = *es;
                    assert((*v)->Object_0 == w);
                    assert(decreases_to!(*v => (*v)->Object_0));
                    assert(decreases_to!(w => w@));
                    assert(decreases_to!(w@ => w@[i as int]));
                    assert(decreases_to!(w@[i as int] => w@[i as int].1));
                }
                let key = crate::text::owned(es[i].0.as_str());
                let c = json_clone(&es[i].1);
                out.push((key, c));
                i = i + 1;
            }
            proof {
                lemma_entries_view(out@);
                lemma_entries_view(es@);
                assert(entries_view(out@) =~= entries_view(es@));
            }
            JsonValue::Object(out)
        },
    }
}

} // verus!
