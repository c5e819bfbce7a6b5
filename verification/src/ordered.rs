//! The order of strings (that of `str`'s `Ord`: UTF-8 bytes compare as code
//! points do) and sorted, duplicate-free string lists, the shape of a
//! `BTreeSet<String>` read out in order.
use crate::text::{chars_of, strings_of};
use vstd::prelude::*;

verus! {

/// `a < b` for strings: lexicographic by code point, a proper prefix first.
pub open spec fn lex_lt(a: Seq<char>, b: Seq<char>) -> bool
    decreases a.len(),
{
    if a.len() == 0 {
        b.len() > 0
    } else if b.len() == 0 {
        false
    } else if a[0] != b[0] {
        a[0] < b[0]
    } else {
        lex_lt(a.drop_first(), b.drop_first())
    }
}

pub open spec fn lex_le(a: Seq<char>, b: Seq<char>) -> bool {
    a == b || lex_lt(a, b)
}

pub proof fn lemma_lex_irreflexive(a: Seq<char>)
    ensures
        !lex_lt(a, a),
    decreases a.len(),
{
    if a.len() > 0 {
        lemma_lex_irreflexive(a.drop_first());
    }
}

/// Exactly one of `a < b`, `a == b`, `b < a` holds.
pub proof fn lemma_lex_trichotomy(a: Seq<char>, b: Seq<char>)
    ensures
        a == b || lex_lt(a, b) || lex_lt(b, a),
        !(lex_lt(a, b) && lex_lt(b, a)),
        a == b ==> !lex_lt(a, b),
    decreases a.len(),
{
    lemma_lex_irreflexive(a);
    if a.len() == 0 && b.len() == 0 {
        assert(a =~= b);
    } else if a.len() > 0 && b.len() > 0 && a[0] == b[0] {
        lemma_lex_trichotomy(a.drop_first(), b.drop_first());
        if a.drop_first() == b.drop_first() {
            assert(a =~= seq![a[0]] + a.drop_first());
            assert(b =~= seq![b[0]] + b.drop_first());
        }
    }
}

pub proof fn lemma_lex_transitive(a: Seq<char>, b: Seq<char>, c: Seq<char>)
    requires
        lex_lt(a, b),
        lex_lt(b, c),
    ensures
        lex_lt(a, c),
    decreases a.len(),
{
    if a.len() > 0 && a[0] == b[0] && b[0] == c[0] {
        lemma_lex_transitive(a.drop_first(), b.drop_first(), c.drop_first());
    }
}

proof fn lemma_lex_skip(a: Seq<char>, b: Seq<char>, i: int)
    requires
        0 <= i < a.len(),
        i < b.len(),
        a[i] == b[i],
    ensures
        lex_lt(a.skip(i), b.skip(i)) == lex_lt(a.skip(i + 1), b.skip(i + 1)),
{
    assert(a.skip(i).drop_first() =~= a.skip(i + 1));
    assert(b.skip(i).drop_first() =~= b.skip(i + 1));
}

/// `a < b` on character vectors.
pub fn chars_lt(a: &Vec<char>, b: &Vec<char>) -> (r: bool)
    ensures
        r == lex_lt(a@, b@),
{
    let mut i: usize = 0;
    assert(a@.skip(0) =~= a@);
    assert(b@.skip(0) =~= b@);
    while i < a.len() && i < b.len() && a[i] == b[i]
        invariant
            i <= a@.len(),
            i <= b@.len(),
            lex_lt(a@, b@) == lex_lt(a@.skip(i as int), b@.skip(i as int)),
        decreases a@.len() - i,
    {
        proof {
            lemma_lex_skip(a@, b@, i as int);
        }
        i = i + 1;
    }
    if i == a.len() {
        i < b.len()
    } else if i == b.len() {
        false
    } else {
        a[i] < b[i]
    }
}

/// `a < b` on strings.
pub fn str_lt(a: &str, b: &str) -> (r: bool)
    ensures
        r == lex_lt(a@, b@),
{
    let x = chars_of(a);
    let y = chars_of(b);
    chars_lt(&x, &y)
}

/// Every element is smaller than every later one: sorted, without duplicates.
pub open spec fn strictly_sorted(s: Seq<Seq<char>>) -> bool {
    forall|i: int, j: int| 0 <= i < j < s.len() ==> lex_lt(#[trigger] s[i], #[trigger] s[j])
}

/// `s` holds exactly the members of `t`.
pub open spec fn lists_set(s: Seq<Seq<char>>, t: Set<Seq<char>>) -> bool {
    forall|a: Seq<char>| #[trigger] s.contains(a) <==> t.contains(a)
}

/// A sorted, duplicate-free list is determined by its set of elements.
pub proof fn lemma_sorted_list_unique(s: Seq<Seq<char>>, t: Seq<Seq<char>>)
    requires
        strictly_sorted(s),
        strictly_sorted(t),
        forall|a: Seq<char>|
            #![trigger s.contains(a)]
            #![trigger t.contains(a)]
            s.contains(a) <==> t.contains(a),
    ensures
        s == t,
    decreases s.len(),
{
    if s.len() == 0 {
        if t.len() > 0 {
            assert(t.contains(t[0]));
        }
        assert(s =~= t);
    } else if t.len() == 0 {
        assert(s.contains(s[0]));
    } else {
        assert(s.contains(s[0]));
        assert(t.contains(t[0]));
        assert(t.contains(s[0]));
        assert(s.contains(t[0]));
        assert(exists|k: int| 0 <= k < t.len() && t[k] == s[0]);
        assert(exists|m: int| 0 <= m < s.len() && s[m] == t[0]);
        let k = choose|k: int| 0 <= k < t.len() && t[k] == s[0];
        let m = choose|m: int| 0 <= m < s.len() && s[m] == t[0];
        if s[0] != t[0] {
            assert(k > 0 && m > 0);
            assert(lex_lt(t[0], t[k]));
            assert(lex_lt(s[0], s[m]));
            lemma_lex_trichotomy(s[0], t[0]);
        }
        let s2 = s.drop_first();
        let t2 = t.drop_first();
        assert forall|a: Seq<char>|
            #![trigger s2.contains(a)]
            #![trigger t2.contains(a)]
            s2.contains(a) <==> t2.contains(a) by {
            if s2.contains(a) {
                let i = choose|i: int| 0 <= i < s2.len() && s2[i] == a;
                assert(s[i + 1] == a);
                assert(lex_lt(s[0], s[i + 1]));
                lemma_lex_irreflexive(a);
                assert(t.contains(a));
                let j = choose|j: int| 0 <= j < t.len() && t[j] == a;
                assert(j != 0);
                assert(t2[j - 1] == a);
            }
            if t2.contains(a) {
                let i = choose|i: int| 0 <= i < t2.len() && t2[i] == a;
                assert(t[i + 1] == a);
                assert(lex_lt(t[0], t[i + 1]));
                lemma_lex_irreflexive(a);
                assert(s.contains(a));
                let j = choose|j: int| 0 <= j < s.len() && s[j] == a;
                assert(j != 0);
                assert(s2[j - 1] == a);
            }
        }
        lemma_sorted_list_unique(s2, t2);
        assert(s =~= seq![s[0]] + s2);
        assert(t =~= seq![t[0]] + t2);
    }
}

/// Where `x` is in a sorted, duplicate-free list (`Ok`), or the place where
/// it would go (`Err`): every element before it is smaller, every later one
/// greater.
pub fn find_sorted(v: &Vec<String>, x: &str) -> (r: Result<usize, usize>)
    requires
        strictly_sorted(strings_of(v@)),
    ensures
        match r {
            Ok(i) => i < v@.len() && v@[i as int]@ == x@,
            Err(i) => i <= v@.len() && (forall|k: int| 0 <= k < i ==> lex_lt(#[trigger] v@[k]@, x@)) && (forall|k: int|
                i <= k < v@.len() ==> lex_lt(x@, #[trigger] v@[k]@)),
        },
{
    let ghost s = strings_of(v@);
    let mut lo: usize = 0;
    let mut hi: usize = v.len();
    while lo < hi
        invariant
            lo <= hi <= v@.len(),
            s == strings_of(v@),
            strictly_sorted(s),
            forall|k: int| 0 <= k < lo ==> lex_lt(#[trigger] v@[k]@, x@),
            forall|k: int| hi <= k < v@.len() ==> lex_lt(x@, #[trigger] v@[k]@),
        decreases hi - lo,
    {
        let mid = lo + (hi - lo) / 2;
        if crate::text::str_eq(v[mid].as_str(), x) {
            return Ok(mid);
        }
        if str_lt(v[mid].as_str(), x) {
            assert forall|k: int| 0 <= k < mid + 1 implies lex_lt(#[trigger] v@[k]@, x@) by {
                if k < mid {
                    assert(s[k] == v@[k]@ && s[mid as int] == v@[mid as int]@);
                    lemma_lex_transitive(v@[k]@, v@[mid as int]@, x@);
                }
            }
            lo = mid + 1;
        } else {
            proof {
                lemma_lex_trichotomy(v@[mid as int]@, x@);
            }
            assert forall|k: int| mid <= k < v@.len() implies lex_lt(x@, #[trigger] v@[k]@) by {
                if k > mid {
                    assert(s[k] == v@[k]@ && s[mid as int] == v@[mid as int]@);
                    lemma_lex_transitive(x@, v@[mid as int]@, v@[k]@);
                }
            }
            hi = mid;
        }
    }
    Err(lo)
}

/// Adds `x` to a sorted, duplicate-free list of strings, keeping it so
/// (`BTreeSet::insert`).
pub fn insert_sorted(v: &mut Vec<String>, x: String)
    requires
        strictly_sorted(strings_of(old(v)@)),
    ensures
        strictly_sorted(strings_of(final(v)@)),
        forall|a: Seq<char>| #[trigger]
            strings_of(final(v)@).contains(a) <==> strings_of(old(v)@).contains(a) || a == x@,
{
    let ghost s0 = strings_of(v@);
    let i = match find_sorted(v, x.as_str()) {
        Ok(i) => {
            assert forall|a: Seq<char>| #[trigger] s0.contains(a) <==> s0.contains(a) || a == x@ by {
                if a == x@ {
                    assert(s0[i as int] == a);
                }
            }
            return;
        },
        Err(i) => i,
    };
    v.insert(i, x);
    proof {
        let s1 = strings_of(v@);
        assert(s1 =~= s0.insert(i as int, x@));
        assert forall|p: int, q: int| 0 <= p < q < s1.len() implies lex_lt(
            #[trigger] s1[p],
            #[trigger] s1[q],
        ) by {
            if q < i {
                assert(s1[p] == s0[p] && s1[q] == s0[q]);
            } else if q == i {
                assert(s1[p] == s0[p]);
                assert(s0[p] == old(v)@[p]@);
            } else if p == i {
                assert(s1[q] == s0[q - 1]);
                assert(s0[q - 1] == old(v)@[q - 1]@);
            } else if p < i {
                assert(s1[p] == s0[p] && s1[q] == s0[q - 1]);
                assert(lex_lt(s0[p], s0[q - 1]));
            } else {
                assert(s1[p] == s0[p - 1] && s1[q] == s0[q - 1]);
            }
        }
        assert forall|a: Seq<char>| #[trigger] s1.contains(a) <==> s0.contains(a) || a == x@ by {
            if s1.contains(a) {
                let k = choose|k: int| 0 <= k < s1.len() && s1[k] == a;
                if k < i {
                    assert(s0[k] == a);
                } else if k > i {
                    assert(s0[k - 1] == a);
                }
            }
            if s0.contains(a) {
                let k = choose|k: int| 0 <= k < s0.len() && s0[k] == a;
                if k < i {
                    assert(s1[k] == a);
                } else {
                    assert(s1[k + 1] == a);
                }
            }
            if a == x@ {
                assert(s1[i as int] == a);
            }
        }
    }
}

} // verus!
