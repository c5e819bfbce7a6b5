//! The namespace policy of recommendations: the canonical theme namespace is
//! managed by the system, and metadata namespaces are compared in ASCII
//! lowercase.
use crate::ordered::{insert_sorted, strictly_sorted};
use crate::text::{ascii_lower_seq, str_eq, strings_of, to_ascii_lowercase, trim, trim_seq};
use vstd::prelude::*;

verus! {

pub const METADATA_NAMESPACE_POLICY_VERSION: &'static str = "metadata-v1";

pub const CANONICAL_THEME_NAMESPACE: &'static str = "theme";

/// Whether a tag namespace is the system-managed theme namespace: `theme`,
/// ignoring surrounding whitespace and ASCII case.
pub fn is_system_managed_theme_namespace(namespace: &str) -> (r: bool)
    ensures
        r == (ascii_lower_seq(trim_seq(namespace@)) == CANONICAL_THEME_NAMESPACE@),
{
    let t = trim(namespace);
    let lowered = to_ascii_lowercase(t.as_str());
    proof {
        reveal_strlit("theme");
    }
    str_eq(lowered.as_str(), CANONICAL_THEME_NAMESPACE)
}

/// An ordinary tag namespace: after trimming and ASCII lowercasing, neither
/// the system-managed theme namespace nor one of `metadata`.
pub open spec fn ordinary_namespace(namespace: Seq<char>, metadata: Seq<Seq<char>>) -> bool {
    let n = ascii_lower_seq(trim_seq(namespace));
    ascii_lower_seq(trim_seq(n)) != CANONICAL_THEME_NAMESPACE@ && !metadata.contains(n)
}

pub fn is_ordinary_namespace(namespace: &str, metadata: &Vec<String>) -> (r: bool)
    ensures
        r == ordinary_namespace(namespace@, strings_of(metadata@)),
{
    let trimmed = trim(namespace);
    let normalized = to_ascii_lowercase(trimmed.as_str());
    !is_system_managed_theme_namespace(normalized.as_str()) && !crate::text::contains_str(metadata, normalized.as_str())
}

/// A tag that the clustering may use: outside the metadata namespaces.
#[derive(Debug)]
pub struct NonMetadataTagCandidate {
    pub id: String,
    pub name: String,
    pub namespace: String,
    pub archive_count: i64,
}

/// The metadata namespaces of the policy, in ASCII lowercase, sorted and
/// without duplicates.
pub fn metadata_namespace_set(namespaces: &Vec<String>) -> (r: Vec<String>)
    ensures
        strictly_sorted(strings_of(r@)),
        forall|n: Seq<char>| #[trigger] strings_of(r@).contains(n) <==> exists|i: int|
            0 <= i < namespaces@.len() && ascii_lower_seq(#[trigger] namespaces@[i]@) == n,
{
    let mut out: Vec<String> = Vec::new();
    let mut i: usize = 0;
    while i < namespaces.len()
        invariant
            i <= namespaces@.len(),
            strictly_sorted(strings_of(out@)),
            forall|n: Seq<char>| #[trigger] strings_of(out@).contains(n) <==> exists|k: int|
                0 <= k < i && ascii_lower_seq(#[trigger] namespaces@[k]@) == n,
        decreases namespaces@.len() - i,
    {
        let lowered = to_ascii_lowercase(namespaces[i].as_str());
        let ghost lv = lowered@;
        insert_sorted(&mut out, lowered);
        proof {
            assert forall|n: Seq<char>| #[trigger] strings_of(out@).contains(n) <==> exists|k: int|
                0 <= k < i + 1 && ascii_lower_seq(#[trigger] namespaces@[k]@) == n by {
                if n == lv {
                    assert(ascii_lower_seq(namespaces@[i as int]@) == n);
                }
                if exists|k: int| 0 <= k < i + 1 && ascii_lower_seq(#[trigger] namespaces@[k]@) == n {
                    let k = choose|k: int| 0 <= k < i + 1 && ascii_lower_seq(#[trigger] namespaces@[k]@) == n;
                    if k < i {
                        assert(exists|k2: int| 0 <= k2 < i && ascii_lower_seq(#[trigger] namespaces@[k2]@) == n);
                    }
                }
            }
        }
        i = i + 1;
    }
    out
}

} // verus!
