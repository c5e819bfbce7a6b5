//! Canonical tag pairs for the observing-only semantic relations between tags:
//! a pair is stored once, with its tags ordered by id, under an id and an input
//! hash that do not depend on the order in which the tags were given nor on
//! their support counts.
use crate::ordered::{lex_le, lex_lt, lemma_lex_trichotomy, str_lt};
use crate::text::{law_trim_seq_idempotent, push_char, str_eq, trim, trim_seq};
use sha2::{Digest, Sha256};
use vstd::prelude::*;
use vstd::string::*;
use vstd::utf8::encode_utf8;

verus! {

#[derive(Debug, Clone)]
pub struct TagRelationTag {
    pub id: String,
    pub namespace: String,
    pub name: String,
    pub support_count: u32,
}

#[derive(Debug, Clone)]
pub struct TagRelationPair {
    pub pair_id: String,
    pub tag_a: TagRelationTag,
    pub tag_b: TagRelationTag,
    pub pair_input_hash: String,
}

/// A pair with a missing or shared tag cannot be canonicalized.
#[derive(Debug, Clone, Copy, PartialEq, Eq, Structural)]
pub enum TagRelationError {
    InvalidOrIdenticalTags,
    /// An edge is written only for a pair given in canonical order.
    NotCanonical,
}

impl TagRelationError {
    pub fn message(&self) -> (r: String)
        ensures
            r@ == match *self {
                TagRelationError::InvalidOrIdenticalTags => "tag relation pair has invalid or identical tags"@,
                TagRelationError::NotCanonical => "semantic edge pair must already be canonical"@,
            },
    {
        match self {
            TagRelationError::InvalidOrIdenticalTags => String::from_str("tag relation pair has invalid or identical tags"),
            TagRelationError::NotCanonical => String::from_str("semantic edge pair must already be canonical"),
        }
    }
}

// ---------------------------------------------------------------------------
// Pair ids
// ---------------------------------------------------------------------------
/// `left:right` with the smaller id first.
pub open spec fn pair_id_of(a: Seq<char>, b: Seq<char>) -> Seq<char> {
    if lex_le(a, b) {
        a + seq![':'] + b
    } else {
        b + seq![':'] + a
    }
}

fn joined(left: &str, right: &str) -> (r: String)
    ensures
        r@ == left@ + seq![':'] + right@,
{
    let mut s = String::from_str(left);
    push_char(&mut s, ':');
    s.append(right);
    s
}

/// The id of the pair of two tag ids, the same in either order.
pub fn canonical_pair_id(tag_a_id: &str, tag_b_id: &str) -> (r: String)
    ensures
        r@ == pair_id_of(tag_a_id@, tag_b_id@),
{
    if str_eq(tag_a_id, tag_b_id) || str_lt(tag_a_id, tag_b_id) {
        joined(tag_a_id, tag_b_id)
    } else {
        joined(tag_b_id, tag_a_id)
    }
}

// ---------------------------------------------------------------------------
// Input hashes
// ---------------------------------------------------------------------------
/// The SHA-256 digest of `data`.
pub uninterp spec fn sha256(data: Seq<u8>) -> Seq<u8>;

/// `sha2::Sha256::digest`; the digest has 32 bytes.
#[verifier::external_body]
pub(crate) fn sha256_digest(data: &[u8]) -> (r: Vec<u8>)
    ensures
        r@ == sha256(data@),
        r@.len() == 32,
{
    Sha256::digest(data).to_vec()
}

/// What one tag contributes to the hashed input: its id, trimmed namespace
/// and trimmed name in UTF-8, each closed by a 0 byte, the last by 0xff.
pub open spec fn tag_bytes(t: TagRelationTag) -> Seq<u8> {
    encode_utf8(t.id@) + seq![0u8] + encode_utf8(trim_seq(t.namespace@)) + seq![0u8] + encode_utf8(
        trim_seq(t.name@),
    ) + seq![0xffu8]
}

/// The hashed input of a pair: both tags, the one with the smaller id first
/// (the given order when the ids are equal).
pub open spec fn pair_message(a: TagRelationTag, b: TagRelationTag) -> Seq<u8> {
    if lex_lt(b.id@, a.id@) {
        tag_bytes(b) + tag_bytes(a)
    } else {
        tag_bytes(a) + tag_bytes(b)
    }
}

pub open spec fn hex_digit(n: u8) -> char {
    if n < 10 {
        (48 + n) as char
    } else {
        (87 + n) as char
    }
}

/// Lowercase hexadecimal, two digits per byte.
pub open spec fn hex_of(bytes: Seq<u8>) -> Seq<char>
    decreases bytes.len(),
{
    if bytes.len() == 0 {
        Seq::empty()
    } else {
        hex_of(bytes.drop_last()) + seq![hex_digit(bytes.last() / 16), hex_digit(bytes.last() % 16)]
    }
}

/// The input hash of a pair: the hex SHA-256 of its message.
pub open spec fn pair_hash(a: TagRelationTag, b: TagRelationTag) -> Seq<char> {
    hex_of(sha256(pair_message(a, b)))
}

/// Only lowercase hexadecimal digits.
pub open spec fn is_lower_hex(s: Seq<char>) -> bool {
    forall|i: int| 0 <= i < s.len() ==> ('0' <= #[trigger] s[i] <= '9') || ('a' <= s[i] <= 'f')
}

/// The hex form has two lowercase digits per byte.
pub proof fn lemma_hex_of(bytes: Seq<u8>)
    ensures
        hex_of(bytes).len() == 2 * bytes.len(),
        is_lower_hex(hex_of(bytes)),
    decreases bytes.len(),
{
    if bytes.len() > 0 {
        lemma_hex_of(bytes.drop_last());
        let prev = hex_of(bytes.drop_last());
        let h = hex_of(bytes);
        let b = bytes.last();
        assert(b / 16 < 16 && b % 16 < 16);
        assert forall|i: int| 0 <= i < h.len() implies ('0' <= #[trigger] h[i] <= '9') || ('a' <= h[i] <= 'f') by {
            if i < prev.len() {
                assert(h[i] == prev[i]);
            }
        }
    }
}

fn hex_digit_exec(n: u8) -> (r: char)
    requires
        n < 16,
    ensures
        r == hex_digit(n),
{
    if n < 10 {
        (48 + n) as char
    } else {
        (87 + n) as char
    }
}

/// Lowercase hexadecimal of `bytes`, two digits per byte.
pub fn format_hash(bytes: &[u8]) -> (r: String)
    ensures
        r@ == hex_of(bytes@),
{
    let mut out = String::new();
    let mut i: usize = 0;
    while i < bytes.len()
        invariant
            i <= bytes@.len(),
            out@ == hex_of(bytes@.take(i as int)),
        decreases bytes@.len() - i,
    {
        let b = bytes[i];
        push_char(&mut out, hex_digit_exec(b / 16));
        push_char(&mut out, hex_digit_exec(b % 16));
        assert(bytes@.take(i + 1).drop_last() =~= bytes@.take(i as int));
        i = i + 1;
    }
    assert(bytes@.take(bytes@.len() as int) =~= bytes@);
    out
}

fn push_bytes(out: &mut Vec<u8>, s: &str)
    ensures
        final(out)@ == old(out)@ + encode_utf8(s@),
{
    let bytes = s.as_bytes();
    let ghost start = out@;
    let mut i: usize = 0;
    while i < bytes.len()
        invariant
            bytes@ == encode_utf8(s@),
            i <= bytes@.len(),
            out@ == start + bytes@.take(i as int),
        decreases bytes@.len() - i,
    {
        out.push(bytes[i]);
        i = i + 1;
        assert(out@ =~= start + bytes@.take(i as int));
    }
    assert(bytes@.take(bytes@.len() as int) =~= bytes@);
}

fn push_tag_bytes(out: &mut Vec<u8>, t: &TagRelationTag)
    ensures
        final(out)@ == old(out)@ + tag_bytes(*t),
{
    let ghost start = out@;
    push_bytes(out, t.id.as_str());
    out.push(0u8);
    let namespace = trim(t.namespace.as_str());
    push_bytes(out, namespace.as_str());
    out.push(0u8);
    let name = trim(t.name.as_str());
    push_bytes(out, name.as_str());
    out.push(0xffu8);
    assert(out@ =~= start + tag_bytes(*t));
}

/// The input hash of a pair of tags: independent of their order and of
/// their support counts.
pub fn pair_input_hash(tag_a: &TagRelationTag, tag_b: &TagRelationTag) -> (r: String)
    ensures
        r@ == pair_hash(*tag_a, *tag_b),
        r@.len() == 64,
        is_lower_hex(r@),
{
    let mut message: Vec<u8> = Vec::new();
    if str_lt(tag_b.id.as_str(), tag_a.id.as_str()) {
        push_tag_bytes(&mut message, tag_b);
        push_tag_bytes(&mut message, tag_a);
    } else {
        push_tag_bytes(&mut message, tag_a);
        push_tag_bytes(&mut message, tag_b);
    }
    assert(message@ =~= pair_message(*tag_a, *tag_b));
    let digest = sha256_digest(message.as_slice());
    proof {
        lemma_hex_of(digest@);
    }
    format_hash(digest.as_slice())
}

// ---------------------------------------------------------------------------
// Canonical pairs
// ---------------------------------------------------------------------------
/// A tag with its id, namespace and name trimmed.
pub open spec fn trimmed_tag(t: TagRelationTag, u: TagRelationTag) -> bool {
    &&& u.id@ == trim_seq(t.id@)
    &&& u.namespace@ == trim_seq(t.namespace@)
    &&& u.name@ == trim_seq(t.name@)
    &&& u.support_count == t.support_count
}

/// The same tag as far as views go.
pub open spec fn same_tag(t: TagRelationTag, u: TagRelationTag) -> bool {
    &&& u.id@ == t.id@
    &&& u.namespace@ == t.namespace@
    &&& u.name@ == t.name@
    &&& u.support_count == t.support_count
}

/// The same id, namespace and name as far as views go; the support count may differ.
pub open spec fn same_text(t: TagRelationTag, u: TagRelationTag) -> bool {
    &&& u.id@ == t.id@
    &&& u.namespace@ == t.namespace@
    &&& u.name@ == t.name@
}

/// Whether a pair can be canonicalized: every trimmed field is non-empty and
/// the trimmed ids differ.
pub open spec fn pair_valid(a: TagRelationTag, b: TagRelationTag) -> bool {
    &&& trim_seq(a.id@).len() > 0
    &&& trim_seq(b.id@).len() > 0
    &&& trim_seq(a.namespace@).len() > 0
    &&& trim_seq(b.namespace@).len() > 0
    &&& trim_seq(a.name@).len() > 0
    &&& trim_seq(b.name@).len() > 0
    &&& trim_seq(a.id@) != trim_seq(b.id@)
}

/// `r` is the canonical form of the pair of `a` and `b`: trimmed tags, the
/// smaller id first, with the pair id and the input hash of that order.
pub open spec fn canonical_pair(a: TagRelationTag, b: TagRelationTag, r: TagRelationPair) -> bool {
    let swap = lex_lt(trim_seq(b.id@), trim_seq(a.id@));
    &&& trimmed_tag(if swap { b } else { a }, r.tag_a)
    &&& trimmed_tag(if swap { a } else { b }, r.tag_b)
    &&& r.pair_id@ == pair_id_of(r.tag_a.id@, r.tag_b.id@)
    &&& r.pair_input_hash@ == pair_hash(r.tag_a, r.tag_b)
}

fn trimmed(t: TagRelationTag) -> (r: TagRelationTag)
    ensures
        trimmed_tag(t, r),
{
    TagRelationTag {
        id: trim(t.id.as_str()),
        namespace: trim(t.namespace.as_str()),
        name: trim(t.name.as_str()),
        support_count: t.support_count,
    }
}

impl TagRelationPair {
    /// Trims both tags, rejects a pair with an empty field or the same tag
    /// twice, orders the tags by id and sets the pair id and the input hash.
    pub fn canonicalize(self) -> (r: Result<Self, TagRelationError>)
        ensures
            r is Ok <==> pair_valid(self.tag_a, self.tag_b),
            r matches Ok(p) ==> canonical_pair(self.tag_a, self.tag_b, p),
            r matches Ok(p) ==> p.pair_input_hash@.len() == 64 && is_lower_hex(p.pair_input_hash@),
            r matches Err(e) ==> e == TagRelationError::InvalidOrIdenticalTags,
    {
        let a = trimmed(self.tag_a);
        let b = trimmed(self.tag_b);
        if a.id.as_str().unicode_len() == 0 || b.id.as_str().unicode_len() == 0
            || a.namespace.as_str().unicode_len() == 0 || b.namespace.as_str().unicode_len() == 0
            || a.name.as_str().unicode_len() == 0 || b.name.as_str().unicode_len() == 0 || str_eq(
            a.id.as_str(),
            b.id.as_str(),
        ) {
            return Err(TagRelationError::InvalidOrIdenticalTags);
        }
        let (first, second) = if str_lt(b.id.as_str(), a.id.as_str()) {
            (b, a)
        } else {
            (a, b)
        };
        let pair_id = canonical_pair_id(first.id.as_str(), second.id.as_str());
        let pair_input_hash = pair_input_hash(&first, &second);
        Ok(TagRelationPair { pair_id, tag_a: first, tag_b: second, pair_input_hash })
    }
}

/// The tag ids of the canonical pair: trimmed, the smaller first.
pub open spec fn canonical_ids(a: TagRelationTag, b: TagRelationTag) -> (Seq<char>, Seq<char>) {
    if lex_lt(trim_seq(b.id@), trim_seq(a.id@)) {
        (trim_seq(b.id@), trim_seq(a.id@))
    } else {
        (trim_seq(a.id@), trim_seq(b.id@))
    }
}

/// The pair keeps its tag ids when canonicalized.
pub open spec fn in_canonical_order(a: TagRelationTag, b: TagRelationTag) -> bool {
    canonical_ids(a, b) == (a.id@, b.id@)
}

/// The canonical form of a pair that an edge is written for: refused when the
/// pair is invalid, and when canonicalizing would change its tag ids.
pub fn canonical_edge_pair(pair: TagRelationPair) -> (r: Result<TagRelationPair, TagRelationError>)
    ensures
        !pair_valid(pair.tag_a, pair.tag_b) ==> r == Err::<TagRelationPair, TagRelationError>(
            TagRelationError::InvalidOrIdenticalTags,
        ),
        pair_valid(pair.tag_a, pair.tag_b) && !in_canonical_order(pair.tag_a, pair.tag_b) ==> r == Err::<
            TagRelationPair,
            TagRelationError,
        >(TagRelationError::NotCanonical),
        pair_valid(pair.tag_a, pair.tag_b) && in_canonical_order(pair.tag_a, pair.tag_b) ==> (r matches Ok(p)
            && canonical_pair(pair.tag_a, pair.tag_b, p)),
{
    let ghost a0 = pair.tag_a;
    let ghost b0 = pair.tag_b;
    let a_id = crate::text::owned(pair.tag_a.id.as_str());
    let b_id = crate::text::owned(pair.tag_b.id.as_str());
    match pair.canonicalize() {
        Err(e) => Err(e),
        Ok(p) => {
            if str_eq(p.tag_a.id.as_str(), a_id.as_str()) && str_eq(p.tag_b.id.as_str(), b_id.as_str()) {
                Ok(p)
            } else {
                Err(TagRelationError::NotCanonical)
            }
        },
    }
}

// ---------------------------------------------------------------------------
// Laws
// ---------------------------------------------------------------------------
/// A pair id does not depend on the order of the two ids.
pub proof fn law_pair_id_is_symmetric(a: Seq<char>, b: Seq<char>)
    ensures
        pair_id_of(a, b) == pair_id_of(b, a),
{
    lemma_lex_trichotomy(a, b);
}

/// The hashed input of two tags with different ids does not depend on their
/// order, and only their ids, namespaces and names enter it.
pub proof fn law_pair_hash_is_symmetric(
    a: TagRelationTag,
    b: TagRelationTag,
    a2: TagRelationTag,
    b2: TagRelationTag,
)
    requires
        a.id@ != b.id@,
    ensures
        pair_message(a, b) == pair_message(b, a),
        pair_hash(a, b) == pair_hash(b, a),
        a2.id@ == a.id@ && a2.namespace@ == a.namespace@ && a2.name@ == a.name@ && b2.id@ == b.id@
            && b2.namespace@ == b.namespace@ && b2.name@ == b.name@ ==> pair_hash(a2, b2)
            == pair_hash(a, b),
{
    lemma_lex_trichotomy(a.id@, b.id@);
    if a2.id@ == a.id@ && a2.namespace@ == a.namespace@ && a2.name@ == a.name@ && b2.id@ == b.id@
        && b2.namespace@ == b.namespace@ && b2.name@ == b.name@ {
        assert(tag_bytes(a2) == tag_bytes(a));
        assert(tag_bytes(b2) == tag_bytes(b));
    }
}

/// Canonicalizing a pair and the same pair with its tags swapped gives the same
/// tags, pair id and input hash: the swapped pair is valid too, and every
/// canonical form of it agrees with the first.
pub proof fn law_canonical_pair_is_order_independent(a: TagRelationTag, b: TagRelationTag, r: TagRelationPair)
    requires
        pair_valid(a, b),
        canonical_pair(a, b, r),
    ensures
        pair_valid(b, a),
        forall|s: TagRelationPair|
            #[trigger] canonical_pair(b, a, s) ==> same_tag(r.tag_a, s.tag_a) && same_tag(r.tag_b, s.tag_b)
                && r.pair_id@ == s.pair_id@ && r.pair_input_hash@ == s.pair_input_hash@,
{
    lemma_lex_trichotomy(trim_seq(a.id@), trim_seq(b.id@));
    assert forall|s: TagRelationPair| #[trigger] canonical_pair(b, a, s) implies same_tag(r.tag_a, s.tag_a)
        && same_tag(r.tag_b, s.tag_b) && r.pair_id@ == s.pair_id@ && r.pair_input_hash@
        == s.pair_input_hash@ by {
        assert(tag_bytes(r.tag_a) == tag_bytes(s.tag_a));
        assert(tag_bytes(r.tag_b) == tag_bytes(s.tag_b));
        assert(pair_message(r.tag_a, r.tag_b) == pair_message(s.tag_a, s.tag_b));
    }
}

/// The fields of a canonical pair are already trimmed and non-empty, its ids
/// differ and come in canonical order.
proof fn lemma_canonical_pair_shape(a: TagRelationTag, b: TagRelationTag, r: TagRelationPair)
    requires
        pair_valid(a, b),
        canonical_pair(a, b, r),
    ensures
        pair_valid(r.tag_a, r.tag_b),
        trim_seq(r.tag_a.id@) == r.tag_a.id@,
        trim_seq(r.tag_b.id@) == r.tag_b.id@,
        trim_seq(r.tag_a.namespace@) == r.tag_a.namespace@,
        trim_seq(r.tag_b.namespace@) == r.tag_b.namespace@,
        trim_seq(r.tag_a.name@) == r.tag_a.name@,
        trim_seq(r.tag_b.name@) == r.tag_b.name@,
        lex_lt(r.tag_a.id@, r.tag_b.id@),
        !lex_lt(r.tag_b.id@, r.tag_a.id@),
{
    law_trim_seq_idempotent(a.id@);
    law_trim_seq_idempotent(b.id@);
    law_trim_seq_idempotent(a.namespace@);
    law_trim_seq_idempotent(b.namespace@);
    law_trim_seq_idempotent(a.name@);
    law_trim_seq_idempotent(b.name@);
    lemma_lex_trichotomy(trim_seq(a.id@), trim_seq(b.id@));
}

/// Canonicalizing tags with the texts of a canonical pair, given in either
/// order, gives that pair's texts, pair id and input hash again.
proof fn lemma_recanonicalize(
    a: TagRelationTag,
    b: TagRelationTag,
    r: TagRelationPair,
    x: TagRelationTag,
    y: TagRelationTag,
    q: TagRelationPair,
)
    requires
        pair_valid(a, b),
        canonical_pair(a, b, r),
        (same_text(x, r.tag_a) && same_text(y, r.tag_b)) || (same_text(x, r.tag_b) && same_text(
            y,
            r.tag_a,
        )),
        canonical_pair(x, y, q),
    ensures
        pair_valid(x, y),
        same_text(q.tag_a, r.tag_a),
        same_text(q.tag_b, r.tag_b),
        same_text(x, r.tag_a) ==> q.tag_a.support_count == x.support_count && q.tag_b.support_count
            == y.support_count,
        same_text(x, r.tag_b) ==> q.tag_a.support_count == y.support_count && q.tag_b.support_count
            == x.support_count,
        q.pair_id@ == r.pair_id@,
        q.pair_input_hash@ == r.pair_input_hash@,
{
    lemma_canonical_pair_shape(a, b, r);
    lemma_lex_trichotomy(r.tag_a.id@, r.tag_b.id@);
    assert(tag_bytes(q.tag_a) == tag_bytes(r.tag_a));
    assert(tag_bytes(q.tag_b) == tag_bytes(r.tag_b));
    assert(pair_message(q.tag_a, q.tag_b) == pair_message(r.tag_a, r.tag_b));
}

/// Canonicalizing is idempotent: a canonical pair is valid, it is its own
/// canonical form, and every canonical form of it has the same tags, pair id
/// and input hash.
pub proof fn law_canonicalize_is_idempotent(a: TagRelationTag, b: TagRelationTag, r: TagRelationPair)
    requires
        pair_valid(a, b),
        canonical_pair(a, b, r),
    ensures
        pair_valid(r.tag_a, r.tag_b),
        canonical_pair(r.tag_a, r.tag_b, r),
        forall|q: TagRelationPair|
            #[trigger] canonical_pair(r.tag_a, r.tag_b, q) ==> same_tag(q.tag_a, r.tag_a) && same_tag(
                q.tag_b,
                r.tag_b,
            ) && q.pair_id@ == r.pair_id@ && q.pair_input_hash@ == r.pair_input_hash@,
{
    lemma_canonical_pair_shape(a, b, r);
    assert forall|q: TagRelationPair| #[trigger] canonical_pair(r.tag_a, r.tag_b, q) implies same_tag(
        q.tag_a,
        r.tag_a,
    ) && same_tag(q.tag_b, r.tag_b) && q.pair_id@ == r.pair_id@ && q.pair_input_hash@
        == r.pair_input_hash@ by {
        lemma_recanonicalize(a, b, r, r.tag_a, r.tag_b, q);
    }
}

/// Canonicalizing a canonical pair with its tags swapped succeeds and gives
/// back the same tags, pair id and input hash: the swapped pair is valid, the
/// pair is its canonical form, and every canonical form of it agrees.
pub proof fn law_recanonicalize_swapped_is_stable(a: TagRelationTag, b: TagRelationTag, r: TagRelationPair)
    requires
        pair_valid(a, b),
        canonical_pair(a, b, r),
    ensures
        pair_valid(r.tag_b, r.tag_a),
        canonical_pair(r.tag_b, r.tag_a, r),
        forall|q: TagRelationPair|
            #[trigger] canonical_pair(r.tag_b, r.tag_a, q) ==> same_tag(q.tag_a, r.tag_a) && same_tag(
                q.tag_b,
                r.tag_b,
            ) && q.pair_id@ == r.pair_id@ && q.pair_input_hash@ == r.pair_input_hash@,
{
    lemma_canonical_pair_shape(a, b, r);
    lemma_lex_trichotomy(r.tag_a.id@, r.tag_b.id@);
    assert forall|q: TagRelationPair| #[trigger] canonical_pair(r.tag_b, r.tag_a, q) implies same_tag(
        q.tag_a,
        r.tag_a,
    ) && same_tag(q.tag_b, r.tag_b) && q.pair_id@ == r.pair_id@ && q.pair_input_hash@
        == r.pair_input_hash@ by {
        lemma_recanonicalize(a, b, r, r.tag_b, r.tag_a, q);
    }
}

/// Support counts never enter the pair identity: the tags of a canonical pair
/// with other support counts are still valid, and every canonical form of
/// them has the same texts, pair id and input hash, with the new counts.
pub proof fn law_pair_identity_ignores_support_counts(
    a: TagRelationTag,
    b: TagRelationTag,
    r: TagRelationPair,
    x: TagRelationTag,
    y: TagRelationTag,
)
    requires
        pair_valid(a, b),
        canonical_pair(a, b, r),
        same_text(x, r.tag_a),
        same_text(y, r.tag_b),
    ensures
        pair_valid(x, y),
        forall|q: TagRelationPair|
            #[trigger] canonical_pair(x, y, q) ==> {
                &&& same_text(q.tag_a, r.tag_a)
                &&& same_text(q.tag_b, r.tag_b)
                &&& q.tag_a.support_count == x.support_count
                &&& q.tag_b.support_count == y.support_count
                &&& q.pair_id@ == r.pair_id@
                &&& q.pair_input_hash@ == r.pair_input_hash@
            },
{
    lemma_canonical_pair_shape(a, b, r);
    assert forall|q: TagRelationPair| #[trigger] canonical_pair(x, y, q) implies {
        &&& same_text(q.tag_a, r.tag_a)
        &&& same_text(q.tag_b, r.tag_b)
        &&& q.tag_a.support_count == x.support_count
        &&& q.tag_b.support_count == y.support_count
        &&& q.pair_id@ == r.pair_id@
        &&& q.pair_input_hash@ == r.pair_input_hash@
    } by {
        lemma_recanonicalize(a, b, r, x, y, q);
    }
}

} // verus!
