//! Recommendation rules: which experiment arm a user is in, the names of the
//! algorithms and preference tiers, which candidates a user's path grants
//! admit, which graph-recalled archives join the candidates, and the topic sets
//! of archives.
use crate::content::{ContentAnalysisResult, ContentConcept};
use crate::ordered::{insert_sorted, strictly_sorted};
use crate::text::{
    collapse_whitespace, collapse_ws_seq, contains_str, is_blank, lowercase, owned, starts_with_seq,
    str_eq, strings_of, to_lowercase,
};
use vstd::prelude::*;
use vstd::string::*;

verus! {

// ---------------------------------------------------------------------------
// Experiment assignment
// ---------------------------------------------------------------------------
pub const FNV_OFFSET_BASIS: u64 = 0xcbf29ce484222325;

pub const FNV_PRIME: u64 = 0x100000001b3;

/// The salt of the running multi-user experiment; another salt reshuffles the arms.
pub const EXPERIMENT_SALT: u64 = 739_000;

/// Users whose bucket is below this share get the uniform comparison arm.
pub const UNIFORM_ARM_BUCKETS: u8 = 20;

/// FNV-1a over `bytes`, starting from the state `h`.
pub open spec fn fnv1a(h: u64, bytes: Seq<u8>) -> u64
    decreases bytes.len(),
{
    if bytes.len() == 0 {
        h
    } else {
        fnv1a(vstd::wrapping::u64_specs::wrapping_mul(h ^ (bytes[0] as u64), FNV_PRIME), bytes.drop_first())
    }
}

/// The experiment bucket (0 to 99) of a user id's UTF-8 bytes: FNV-1a with the
/// offset basis mixed with `salt`, reduced modulo 100.
pub open spec fn experiment_bucket(bytes: Seq<u8>, salt: u64) -> u8 {
    (fnv1a(FNV_OFFSET_BASIS ^ salt, bytes) % 100) as u8
}

/// The ASCII decimal digits of `n`.
pub open spec fn decimal_bytes(n: nat) -> Seq<u8>
    decreases n,
{
    if n < 10 {
        seq![(48 + n) as u8]
    } else {
        decimal_bytes(n / 10).push((48 + n % 10) as u8)
    }
}

/// The UTF-8 bytes of the user id `user-{i}`.
pub open spec fn numbered_user(i: nat) -> Seq<u8> {
    seq![117u8, 115u8, 101u8, 114u8, 45u8] + decimal_bytes(i)
}

/// How many of the users `user-{lo}` to `user-{lo + n - 1}` the running
/// experiment puts in the uniform share (counted by halves).
pub open spec fn uniform_users(lo: nat, n: nat) -> nat
    decreases n,
{
    if n == 0 {
        0
    } else if n == 1 {
        if experiment_bucket(numbered_user(lo), EXPERIMENT_SALT) < UNIFORM_ARM_BUCKETS {
            1
        } else {
            0
        }
    } else {
        uniform_users(lo, n / 2) + uniform_users(lo + n / 2, (n - n / 2) as nat)
    }
}

/// The bucket of `user_id` under `salt`. It depends on nothing else, so a user
/// stays in one arm for the lifetime of an experiment, across processes.
pub fn stable_experiment_bucket(user_id: &str, salt: u64) -> (r: u8)
    ensures
        r == experiment_bucket(user_id.spec_bytes(), salt),
        r < 100,
{
    let bytes = user_id.as_bytes();
    let mut hash: u64 = FNV_OFFSET_BASIS ^ salt;
    let mut i: usize = 0;
    assert(bytes@.skip(0) =~= bytes@);
    while i < bytes.len()
        invariant
            bytes@ == user_id.spec_bytes(),
            i <= bytes@.len(),
            fnv1a(hash, bytes@.skip(i as int)) == fnv1a(FNV_OFFSET_BASIS ^ salt, bytes@),
        decreases bytes@.len() - i,
    {
        assert(bytes@.skip(i as int).drop_first() =~= bytes@.skip(i + 1));
        hash = (hash ^ (bytes[i] as u64)).wrapping_mul(FNV_PRIME);
        i = i + 1;
    }
    assert(bytes@.skip(i as int) =~= Seq::<u8>::empty());
    (hash % 100) as u8
}

#[derive(Debug, Clone, Copy, PartialEq, Eq, Structural)]
pub enum RecommendationAlgorithm {
    WeightedV1,
    UniformV1,
}

impl RecommendationAlgorithm {
    pub open spec fn spec_label(self) -> Seq<char> {
        match self {
            RecommendationAlgorithm::WeightedV1 => "weighted-v1"@,
            RecommendationAlgorithm::UniformV1 => "uniform-v1"@,
        }
    }

    /// The variant name recorded with a recommendation session.
    pub fn name(self) -> (r: &'static str)
        ensures
            r@ == self.spec_label(),
    {
        match self {
            RecommendationAlgorithm::WeightedV1 => "weighted-v1",
            RecommendationAlgorithm::UniformV1 => "uniform-v1",
        }
    }
}

/// The arm of a user: personalized weighting, unless the experiment is enabled
/// and the user's bucket falls in the uniform share.
pub open spec fn algorithm_for(experiment_enabled: bool, user_bytes: Seq<u8>) -> RecommendationAlgorithm {
    if experiment_enabled && experiment_bucket(user_bytes, EXPERIMENT_SALT) < UNIFORM_ARM_BUCKETS {
        RecommendationAlgorithm::UniformV1
    } else {
        RecommendationAlgorithm::WeightedV1
    }
}

pub fn recommendation_algorithm(experiment_enabled: bool, user_id: &str) -> (r: RecommendationAlgorithm)
    ensures
        r == algorithm_for(experiment_enabled, user_id.spec_bytes()),
{
    if experiment_enabled && stable_experiment_bucket(user_id, EXPERIMENT_SALT) < UNIFORM_ARM_BUCKETS {
        RecommendationAlgorithm::UniformV1
    } else {
        RecommendationAlgorithm::WeightedV1
    }
}

#[derive(Debug, Clone, Copy, PartialEq, Eq, Structural)]
pub enum PreferenceTier {
    Keep,
    Unknown,
    Downrank,
    AutoDelete,
}

pub open spec fn tier_label(tier: PreferenceTier) -> Seq<char> {
    match tier {
        PreferenceTier::Keep => "keep"@,
        PreferenceTier::Unknown => "unknown"@,
        PreferenceTier::Downrank => "downrank"@,
        PreferenceTier::AutoDelete => "auto_delete"@,
    }
}

pub fn preference_tier_name(tier: PreferenceTier) -> (r: &'static str)
    ensures
        r@ == tier_label(tier),
{
    match tier {
        PreferenceTier::Keep => "keep",
        PreferenceTier::Unknown => "unknown",
        PreferenceTier::Downrank => "downrank",
        PreferenceTier::AutoDelete => "auto_delete",
    }
}

// ---------------------------------------------------------------------------
// Path permissions
// ---------------------------------------------------------------------------
/// Whether one granted path admits `path`: a pattern ending in `*` admits
/// every path that starts with what precedes the `*`; any other pattern admits
/// itself and the paths below it.
pub open spec fn pattern_admits(pattern: Seq<char>, path: Seq<char>) -> bool {
    if pattern.len() > 0 && pattern.last() == '*' {
        starts_with_seq(path, pattern.drop_last())
    } else {
        path == pattern || starts_with_seq(path, pattern.push('/'))
    }
}

/// Whether a user may see `path`: administrators see everything, a user
/// without path grants is unrestricted, and otherwise some grant must admit it.
pub open spec fn path_permitted(role: Seq<char>, user_paths: Seq<Seq<char>>, path: Seq<char>) -> bool {
    ||| role == "admin"@
    ||| user_paths.len() == 0
    ||| exists|i: int| 0 <= i < user_paths.len() && pattern_admits(#[trigger] user_paths[i], path)
}

fn pattern_admits_exec(pattern: &str, path: &str) -> (r: bool)
    ensures
        r == pattern_admits(pattern@, path@),
{
    let p = crate::text::chars_of(pattern);
    let t = crate::text::chars_of(path);
    if p.len() > 0 && p[p.len() - 1] == '*' {
        let mut prefix: Vec<char> = Vec::new();
        let mut i: usize = 0;
        while i < p.len() - 1
            invariant
                p@.len() > 0,
                i <= p@.len() - 1,
                prefix@ == p@.subrange(0, i as int),
            decreases p@.len() - i,
        {
            prefix.push(p[i]);
            i = i + 1;
            assert(prefix@ =~= p@.subrange(0, i as int));
        }
        assert(prefix@ =~= p@.drop_last());
        crate::text::chars_starts_with(&t, &prefix)
    } else {
        let mut dir = p.clone();
        dir.push('/');
        assert(dir@ =~= p@.push('/'));
        crate::text::chars_eq(&t, &p) || crate::text::chars_starts_with(&t, &dir)
    }
}

/// Whether `role` with the granted `user_paths` may see `path`.
pub fn has_path_permission(role: &str, user_paths: &Vec<String>, path: &str) -> (r: bool)
    ensures
        r == path_permitted(role@, strings_of(user_paths@), path@),
{
    let admin = str_eq(role, "admin");
    proof {
        reveal_strlit("admin");
    }
    if admin || user_paths.len() == 0 {
        return true;
    }
    let mut i: usize = 0;
    while i < user_paths.len()
        invariant
            i <= user_paths@.len(),
            forall|k: int| 0 <= k < i ==> !pattern_admits(#[trigger] strings_of(user_paths@)[k], path@),
        decreases user_paths@.len() - i,
    {
        if pattern_admits_exec(user_paths[i].as_str(), path) {
            assert(pattern_admits(strings_of(user_paths@)[i as int], path@));
            return true;
        }
        i = i + 1;
    }
    false
}

/// Graph recall needs an explicit path scope: an administrator, or a user with
/// at least one path grant (an empty list is not a grant here).
pub fn graph_recall_has_path_scope(role: &str, user_paths: &Vec<String>) -> (r: bool)
    ensures
        r == (role@ == "admin"@ || user_paths@.len() > 0),
{
    let admin = str_eq(role, "admin");
    proof {
        reveal_strlit("admin");
    }
    admin || user_paths.len() > 0
}

/// An archive as the permission filter sees it.
#[derive(Debug)]
pub struct ArchiveDeleteTarget {
    pub id: String,
    pub path: String,
}

fn copy_target(t: &ArchiveDeleteTarget) -> (r: ArchiveDeleteTarget)
    ensures
        r == *t,
{
    ArchiveDeleteTarget { id: t.id.clone(), path: t.path.clone() }
}

/// The targets that `role` with `user_paths` may see, in their order.
pub open spec fn permitted_targets(
    role: Seq<char>,
    user_paths: Seq<Seq<char>>,
    targets: Seq<ArchiveDeleteTarget>,
) -> Seq<ArchiveDeleteTarget>
    decreases targets.len(),
{
    if targets.len() == 0 {
        Seq::empty()
    } else {
        let rest = permitted_targets(role, user_paths, targets.drop_last());
        if path_permitted(role, user_paths, targets.last().path@) {
            rest.push(targets.last())
        } else {
            rest
        }
    }
}

pub open spec fn target_ids(targets: Seq<ArchiveDeleteTarget>) -> Seq<Seq<char>> {
    targets.map_values(|t: ArchiveDeleteTarget| t.id@)
}

/// Keeps the archives that the user's path grants admit.
pub fn filter_graph_recall_archives(
    role: &str,
    user_paths: &Vec<String>,
    archives: Vec<ArchiveDeleteTarget>,
) -> (r: Vec<ArchiveDeleteTarget>)
    ensures
        r@ == permitted_targets(role@, strings_of(user_paths@), archives@),
{
    let mut out: Vec<ArchiveDeleteTarget> = Vec::new();
    let mut i: usize = 0;
    while i < archives.len()
        invariant
            i <= archives@.len(),
            out@ == permitted_targets(role@, strings_of(user_paths@), archives@.take(i as int)),
        decreases archives@.len() - i,
    {
        assert(archives@.take(i + 1).drop_last() =~= archives@.take(i as int));
        if has_path_permission(role, user_paths, archives[i].path.as_str()) {
            out.push(copy_target(&archives[i]));
        }
        i = i + 1;
    }
    assert(archives@.take(archives@.len() as int) =~= archives@);
    out
}

/// The ids of the targets that the user's path grants admit, in order. This is
/// applied before random sampling, so a user with few visible archives still
/// gets candidates.
pub fn permitted_archive_ids(role: &str, user_paths: &Vec<String>, targets: Vec<ArchiveDeleteTarget>) -> (r:
    Vec<String>)
    ensures
        strings_of(r@) == target_ids(permitted_targets(role@, strings_of(user_paths@), targets@)),
{
    let kept = filter_graph_recall_archives(role, user_paths, targets);
    let mut ids: Vec<String> = Vec::new();
    let mut i: usize = 0;
    while i < kept.len()
        invariant
            i <= kept@.len(),
            strings_of(ids@) == target_ids(kept@.take(i as int)),
        decreases kept@.len() - i,
    {
        let id = kept[i].id.clone();
        let ghost before = ids@;
        ids.push(id);
        assert(kept@.take(i + 1) =~= kept@.take(i as int).push(kept@[i as int]));
        assert(strings_of(ids@) =~= strings_of(before).push(kept@[i as int].id@));
        assert(target_ids(kept@.take(i + 1)) =~= target_ids(kept@.take(i as int)).push(
            kept@[i as int].id@,
        ));
        i = i + 1;
        assert(strings_of(ids@) =~= target_ids(kept@.take(i as int)));
    }
    assert(kept@.take(kept@.len() as int) =~= kept@);
    ids
}

// ---------------------------------------------------------------------------
// Graph recall
// ---------------------------------------------------------------------------
/// The archive scope of a feed: an explicit id list (none or empty means every
/// archive) and ids to leave out.
#[derive(Debug)]
pub struct RecallFilters {
    pub archive_ids: Option<Vec<String>>,
    pub exclude_archive_ids: Option<Vec<String>>,
}

/// Whether a recalled archive id may join the candidates.
pub open spec fn recall_admits(filters: RecallFilters, current: Seq<Seq<char>>, id: Seq<char>) -> bool {
    &&& !current.contains(id)
    &&& match filters.exclude_archive_ids {
        Some(ex) => !strings_of(ex@).contains(id),
        None => true,
    }
    &&& match filters.archive_ids {
        Some(scope) => scope@.len() == 0 || strings_of(scope@).contains(id),
        None => true,
    }
}

pub open spec fn recalled_ids(filters: RecallFilters, current: Seq<Seq<char>>, ids: Seq<Seq<char>>) -> Seq<
    Seq<char>,
>
    decreases ids.len(),
{
    if ids.len() == 0 {
        Seq::empty()
    } else {
        let rest = recalled_ids(filters, current, ids.drop_last());
        if recall_admits(filters, current, ids.last()) {
            rest.push(ids.last())
        } else {
            rest
        }
    }
}

/// The recalled ids, in order, that are not already candidates, not excluded,
/// and inside the feed's explicit scope when it has one.
pub fn graph_recall_archive_ids(
    archive_ids: Vec<String>,
    filters: &RecallFilters,
    current_candidate_ids: &Vec<String>,
) -> (r: Vec<String>)
    ensures
        strings_of(r@) == recalled_ids(*filters, strings_of(current_candidate_ids@), strings_of(archive_ids@)),
{
    let mut out: Vec<String> = Vec::new();
    let mut i: usize = 0;
    while i < archive_ids.len()
        invariant
            i <= archive_ids@.len(),
            strings_of(out@) == recalled_ids(
                *filters,
                strings_of(current_candidate_ids@),
                strings_of(archive_ids@.take(i as int)),
            ),
        decreases archive_ids@.len() - i,
    {
        let id = archive_ids[i].as_str();
        assert(strings_of(archive_ids@.take(i + 1)).drop_last() =~= strings_of(archive_ids@.take(i as int)));
        assert(strings_of(archive_ids@.take(i + 1)).last() == id@);
        let fresh = !contains_str(current_candidate_ids, id);
        let not_excluded = match &filters.exclude_archive_ids {
            Some(ex) => !contains_str(ex, id),
            None => true,
        };
        let in_scope = match &filters.archive_ids {
            Some(scope) => scope.len() == 0 || contains_str(scope, id),
            None => true,
        };
        if fresh && not_excluded && in_scope {
            out.push(archive_ids[i].clone());
        }
        i = i + 1;
        assert(strings_of(out@) =~= recalled_ids(
            *filters,
            strings_of(current_candidate_ids@),
            strings_of(archive_ids@.take(i as int)),
        ));
    }
    assert(archive_ids@.take(archive_ids@.len() as int) =~= archive_ids@);
    out
}


// ---------------------------------------------------------------------------
// Topics
// ---------------------------------------------------------------------------
/// `j` is the first snapshot entry of archive `id`.
pub open spec fn snapshot_entry(snapshots: Seq<(String, Vec<String>)>, id: Seq<char>, j: int) -> bool {
    &&& 0 <= j < snapshots.len()
    &&& snapshots[j].0@ == id
    &&& forall|k: int| 0 <= k < j ==> #[trigger] snapshots[k].0@ != id
}

/// `t` is a topic of the archive `ids[i]`.
pub open spec fn topic_of_archive(
    ids: Seq<Seq<char>>,
    snapshots: Seq<(String, Vec<String>)>,
    i: int,
    t: Seq<char>,
) -> bool {
    exists|j: int| snapshot_entry(snapshots, ids[i], j) && strings_of(snapshots[j].1@).contains(t)
}

/// `t` is a topic of one of the first `n` archives of `ids`.
pub open spec fn topic_of_archives(
    ids: Seq<Seq<char>>,
    snapshots: Seq<(String, Vec<String>)>,
    n: int,
    t: Seq<char>,
) -> bool {
    exists|i: int| 0 <= i < n && #[trigger] topic_of_archive(ids, snapshots, i, t)
}

proof fn lemma_snapshot_entry_unique(snapshots: Seq<(String, Vec<String>)>, id: Seq<char>, a: int, b: int)
    requires
        snapshot_entry(snapshots, id, a),
        snapshot_entry(snapshots, id, b),
    ensures
        a == b,
{
    if a < b {
        assert(snapshots[a].0@ != id);
    } else if b < a {
        assert(snapshots[b].0@ != id);
    }
}

fn find_snapshot(snapshots: &Vec<(String, Vec<String>)>, id: &str) -> (r: Option<usize>)
    ensures
        match r {
            Some(j) => snapshot_entry(snapshots@, id@, j as int),
            None => forall|j: int| 0 <= j < snapshots@.len() ==> #[trigger] snapshots@[j].0@ != id@,
        },
{
    let mut j: usize = 0;
    while j < snapshots.len()
        invariant
            j <= snapshots@.len(),
            forall|k: int| 0 <= k < j ==> #[trigger] snapshots@[k].0@ != id@,
        decreases snapshots@.len() - j,
    {
        if str_eq(snapshots[j].0.as_str(), id) {
            return Some(j);
        }
        j = j + 1;
    }
    None
}

/// The topics of the given archives, from per-archive topic snapshots (archive
/// id and its topics; an archive without an entry has none): their union,
/// sorted and without duplicates.
pub fn topics_for_archives(archive_ids: &Vec<String>, snapshots: &Vec<(String, Vec<String>)>) -> (r: Vec<
    String,
>)
    ensures
        strictly_sorted(strings_of(r@)),
        forall|t: Seq<char>| #[trigger]
            strings_of(r@).contains(t) <==> topic_of_archives(
                strings_of(archive_ids@),
                snapshots@,
                archive_ids@.len() as int,
                t,
            ),
{
    let ghost ids = strings_of(archive_ids@);
    let mut topics: Vec<String> = Vec::new();
    let mut i: usize = 0;
    while i < archive_ids.len()
        invariant
            i <= archive_ids@.len(),
            ids == strings_of(archive_ids@),
            strictly_sorted(strings_of(topics@)),
            forall|t: Seq<char>| #[trigger]
                strings_of(topics@).contains(t) <==> topic_of_archives(ids, snapshots@, i as int, t),
        decreases archive_ids@.len() - i,
    {
        match find_snapshot(snapshots, archive_ids[i].as_str()) {
            None => {
                assert forall|t: Seq<char>| #[trigger]
                    strings_of(topics@).contains(t) <==> topic_of_archives(ids, snapshots@, i + 1, t) by {
                    if topic_of_archives(ids, snapshots@, i + 1, t) {
                        let w = choose|w: int| 0 <= w < i + 1 && #[trigger] topic_of_archive(ids, snapshots@, w, t);
                        if w == i {
                            let j = choose|j: int| snapshot_entry(snapshots@, ids[w], j) && strings_of(snapshots@[j].1@).contains(t);
                            assert(snapshots@[j].0@ != archive_ids@[i as int]@);
                        }
                    }
                }
            },
            Some(j) => {
                let values = &snapshots[j].1;
                let ghost before = strings_of(topics@);
                let mut k: usize = 0;
                while k < values.len()
                    invariant
                        k <= values@.len(),
                        i < archive_ids@.len(),
                        ids == strings_of(archive_ids@),
                        snapshot_entry(snapshots@, ids[i as int], j as int),
                        *values == snapshots@[j as int].1,
                        strictly_sorted(strings_of(topics@)),
                        forall|t: Seq<char>| #[trigger] before.contains(t) <==> topic_of_archives(ids, snapshots@, i as int, t),
                        forall|t: Seq<char>| #[trigger]
                            strings_of(topics@).contains(t) <==> before.contains(t) || strings_of(values@).take(k as int).contains(t),
                    decreases values@.len() - k,
                {
                    let ghost prev = strings_of(topics@);
                    insert_sorted(&mut topics, values[k].clone());
                    proof {
                        let vs = strings_of(values@);
                        assert(vs.take(k + 1) =~= vs.take(k as int).push(vs[k as int]));
                        assert forall|t: Seq<char>| #[trigger] strings_of(topics@).contains(t) <==> before.contains(t) || vs.take(k + 1).contains(t) by {
                            if vs.take(k + 1).contains(t) && !vs.take(k as int).contains(t) {
                                let m = choose|m: int| 0 <= m < k + 1 && #[trigger] vs.take(k + 1)[m] == t;
                                if m < k {
                                    assert(vs.take(k as int)[m] == t);
                                }
                            }
                            if vs.take(k as int).contains(t) {
                                let m = choose|m: int| 0 <= m < k && #[trigger] vs.take(k as int)[m] == t;
                                assert(vs.take(k + 1)[m] == t);
                            }
                            if t == vs[k as int] {
                                assert(vs.take(k + 1)[k as int] == t);
                            }
                            if strings_of(topics@).contains(t) && !prev.contains(t) {
                                assert(t == vs[k as int]);
                            }
                        }
                    }
                    k = k + 1;
                }
                proof {
                    let vs = strings_of(values@);
                    assert(vs.take(vs.len() as int) =~= vs);
                    assert forall|t: Seq<char>| #[trigger]
                        strings_of(topics@).contains(t) <==> topic_of_archives(ids, snapshots@, i + 1, t) by {
                        if vs.contains(t) {
                            assert(topic_of_archive(ids, snapshots@, i as int, t));
                        }
                        if topic_of_archives(ids, snapshots@, i as int, t) {
                            let w = choose|w: int| 0 <= w < i && #[trigger] topic_of_archive(ids, snapshots@, w, t);
                            assert(topic_of_archive(ids, snapshots@, w, t));
                        }
                        if topic_of_archives(ids, snapshots@, i + 1, t) {
                            let w = choose|w: int| 0 <= w < i + 1 && #[trigger] topic_of_archive(ids, snapshots@, w, t);
                            if w == i {
                                let jj = choose|jj: int| snapshot_entry(snapshots@, ids[w], jj) && strings_of(snapshots@[jj].1@).contains(t);
                                lemma_snapshot_entry_unique(snapshots@, ids[w], jj, j as int);
                            } else {
                                assert(topic_of_archives(ids, snapshots@, i as int, t));
                            }
                        }
                    }
                }
            },
        }
        i = i + 1;
    }
    topics
}

/// Concepts at or above this confidence (basis points) count as topics.
pub const MIN_TOPIC_CONFIDENCE: u32 = 7000;

/// A theme or concept name as a topic: whitespace collapsed, then lowercase.
pub open spec fn topic_of(name: Seq<char>) -> Seq<char> {
    lowercase(collapse_ws_seq(name))
}

pub open spec fn theme_topic(themes: Seq<String>, n: int, t: Seq<char>) -> bool {
    exists|i: int| 0 <= i < n && topic_of(#[trigger] themes[i]@) == t
}

pub open spec fn concept_topic(concepts: Seq<ContentConcept>, n: int, t: Seq<char>) -> bool {
    exists|i: int|
        0 <= i < n && (#[trigger] concepts[i]).confidence >= MIN_TOPIC_CONFIDENCE && topic_of(concepts[i].name@)
            == t
}

/// `t` is a topic of the analysis: a non-empty normalized theme, or the
/// normalized name of a concept of sufficient confidence.
pub open spec fn normalized_topic(result: ContentAnalysisResult, t: Seq<char>) -> bool {
    &&& t.len() > 0
    &&& theme_topic(result.themes@, result.themes@.len() as int, t) || concept_topic(
        result.concepts@,
        result.concepts@.len() as int,
        t,
    )
}

/// The topics of an analysis, sorted and without duplicates.
pub fn normalized_topics(result: &ContentAnalysisResult) -> (r: Vec<String>)
    ensures
        strictly_sorted(strings_of(r@)),
        forall|t: Seq<char>| #[trigger] strings_of(r@).contains(t) <==> normalized_topic(*result, t),
{
    let mut topics: Vec<String> = Vec::new();
    let mut i: usize = 0;
    while i < result.themes.len()
        invariant
            i <= result.themes@.len(),
            strictly_sorted(strings_of(topics@)),
            forall|t: Seq<char>| #[trigger]
                strings_of(topics@).contains(t) <==> t.len() > 0 && theme_topic(result.themes@, i as int, t),
        decreases result.themes@.len() - i,
    {
        let collapsed = collapse_whitespace(result.themes[i].as_str());
        let topic = to_lowercase(collapsed.as_str());
        let ghost tv = topic@;
        let ghost prev = strings_of(topics@);
        if topic.as_str().unicode_len() > 0 {
            insert_sorted(&mut topics, topic);
        }
        proof {
            assert forall|t: Seq<char>| #[trigger]
                strings_of(topics@).contains(t) <==> t.len() > 0 && theme_topic(result.themes@, i + 1, t) by {
                if theme_topic(result.themes@, i + 1, t) && !theme_topic(result.themes@, i as int, t) {
                    let w = choose|w: int| 0 <= w < i + 1 && topic_of(#[trigger] result.themes@[w]@) == t;
                    assert(w == i);
                }
                if theme_topic(result.themes@, i as int, t) {
                    let w = choose|w: int| 0 <= w < i && topic_of(#[trigger] result.themes@[w]@) == t;
                    assert(topic_of(result.themes@[w]@) == t);
                }
                if t == tv && t.len() > 0 {
                    assert(topic_of(result.themes@[i as int]@) == t);
                }
            }
        }
        i = i + 1;
    }
    let mut j: usize = 0;
    while j < result.concepts.len()
        invariant
            j <= result.concepts@.len(),
            strictly_sorted(strings_of(topics@)),
            forall|t: Seq<char>| #[trigger]
                strings_of(topics@).contains(t) <==> t.len() > 0 && (theme_topic(
                    result.themes@,
                    result.themes@.len() as int,
                    t,
                ) || concept_topic(result.concepts@, j as int, t)),
        decreases result.concepts@.len() - j,
    {
        let concept: &ContentConcept = &result.concepts[j];
        if concept.confidence >= MIN_TOPIC_CONFIDENCE {
            let collapsed = collapse_whitespace(concept.name.as_str());
            let topic = to_lowercase(collapsed.as_str());
            let ghost tv = topic@;
            if topic.as_str().unicode_len() > 0 {
                insert_sorted(&mut topics, topic);
            }
            proof {
                assert forall|t: Seq<char>| #[trigger]
                    strings_of(topics@).contains(t) <==> t.len() > 0 && (theme_topic(
                        result.themes@,
                        result.themes@.len() as int,
                        t,
                    ) || concept_topic(result.concepts@, j + 1, t)) by {
                    if concept_topic(result.concepts@, j + 1, t) && !concept_topic(result.concepts@, j as int, t) {
                        let w = choose|w: int|
                            0 <= w < j + 1 && (#[trigger] result.concepts@[w]).confidence >= MIN_TOPIC_CONFIDENCE
                                && topic_of(result.concepts@[w].name@) == t;
                        assert(w == j);
                    }
                    if concept_topic(result.concepts@, j as int, t) {
                        let w = choose|w: int|
                            0 <= w < j && (#[trigger] result.concepts@[w]).confidence >= MIN_TOPIC_CONFIDENCE
                                && topic_of(result.concepts@[w].name@) == t;
                        assert(result.concepts@[w].confidence >= MIN_TOPIC_CONFIDENCE);
                    }
                    if t == tv && t.len() > 0 {
                        assert(result.concepts@[j as int].confidence >= MIN_TOPIC_CONFIDENCE);
                    }
                }
            }
        } else {
            proof {
                assert forall|t: Seq<char>| #[trigger]
                    strings_of(topics@).contains(t) <==> t.len() > 0 && (theme_topic(
                        result.themes@,
                        result.themes@.len() as int,
                        t,
                    ) || concept_topic(result.concepts@, j + 1, t)) by {
                    if concept_topic(result.concepts@, j + 1, t) && !concept_topic(result.concepts@, j as int, t) {
                        let w = choose|w: int|
                            0 <= w < j + 1 && (#[trigger] result.concepts@[w]).confidence >= MIN_TOPIC_CONFIDENCE
                                && topic_of(result.concepts@[w].name@) == t;
                        assert(w == j);
                    }
                    if concept_topic(result.concepts@, j as int, t) {
                        let w = choose|w: int|
                            0 <= w < j && (#[trigger] result.concepts@[w]).confidence >= MIN_TOPIC_CONFIDENCE
                                && topic_of(result.concepts@[w].name@) == t;
                        assert(result.concepts@[w].confidence >= MIN_TOPIC_CONFIDENCE);
                    }
                }
            }
        }
        j = j + 1;
    }
    topics
}


// ---------------------------------------------------------------------------
// Sessions
// ---------------------------------------------------------------------------
/// A recommendation session: its id, the algorithm variant that served it and
/// the archives returned.
#[derive(Debug)]
pub struct RandomRecommendationSession<A> {
    pub session_id: String,
    pub algorithm_variant: String,
    pub archives: Vec<A>,
}

/// A session that returns nothing.
pub fn empty_session<A>(session_id: String, algorithm: RecommendationAlgorithm) -> (r: RandomRecommendationSession<A>)
    ensures
        r.session_id == session_id,
        r.algorithm_variant@ == algorithm.spec_label(),
        r.archives@.len() == 0,
{
    RandomRecommendationSession {
        session_id,
        algorithm_variant: String::from_str(algorithm.name()),
        archives: Vec::new(),
    }
}

pub const DEFAULT_RANDOM_COUNT: u32 = 20;

pub const MAX_RANDOM_COUNT: u32 = 100;

pub const MIN_CANDIDATE_LIMIT: u64 = 500;

pub const MAX_CANDIDATE_LIMIT: u64 = 1_000;

/// How many archives a request gets: 20 unless given, at most 100.
pub fn requested_count(count: Option<u32>) -> (r: usize)
    ensures
        r == match count {
            Some(c) => if c < MAX_RANDOM_COUNT { c } else { MAX_RANDOM_COUNT },
            None => DEFAULT_RANDOM_COUNT,
        },
{
    let c = match count {
        Some(c) => c,
        None => DEFAULT_RANDOM_COUNT,
    };
    if c < MAX_RANDOM_COUNT {
        c as usize
    } else {
        MAX_RANDOM_COUNT as usize
    }
}

/// How many candidates are sampled for a request: twenty per requested
/// archive, kept within 500 and 1000.
pub fn candidate_limit(requested: usize) -> (r: u64)
    ensures
        r == if requested * 20 < MIN_CANDIDATE_LIMIT {
            MIN_CANDIDATE_LIMIT as int
        } else if requested * 20 > MAX_CANDIDATE_LIMIT {
            MAX_CANDIDATE_LIMIT as int
        } else {
            requested * 20
        },
{
    if requested as u64 > MAX_CANDIDATE_LIMIT / 20 {
        MAX_CANDIDATE_LIMIT
    } else {
        let scaled = requested as u64 * 20;
        if scaled < MIN_CANDIDATE_LIMIT {
            MIN_CANDIDATE_LIMIT
        } else {
            scaled
        }
    }
}

/// How many entries of `tiers` are `tier`.
pub open spec fn tier_count(tiers: Seq<PreferenceTier>, tier: PreferenceTier) -> nat
    decreases tiers.len(),
{
    if tiers.len() == 0 {
        0
    } else {
        tier_count(tiers.drop_last(), tier) + if tiers.last() == tier {
            1nat
        } else {
            0nat
        }
    }
}

/// The number of candidates per tier.
#[derive(Debug, Clone, Copy, PartialEq, Eq, Structural)]
pub struct TierCounts {
    pub keep: usize,
    pub unknown: usize,
    pub downrank: usize,
    pub auto_delete: usize,
}

proof fn lemma_tier_counts_total(tiers: Seq<PreferenceTier>)
    ensures
        tier_count(tiers, PreferenceTier::Keep) + tier_count(tiers, PreferenceTier::Unknown) + tier_count(
            tiers,
            PreferenceTier::Downrank,
        ) + tier_count(tiers, PreferenceTier::AutoDelete) == tiers.len(),
    decreases tiers.len(),
{
    if tiers.len() > 0 {
        lemma_tier_counts_total(tiers.drop_last());
    }
}

pub fn tier_counts(tiers: &Vec<PreferenceTier>) -> (r: TierCounts)
    ensures
        r.keep == tier_count(tiers@, PreferenceTier::Keep),
        r.unknown == tier_count(tiers@, PreferenceTier::Unknown),
        r.downrank == tier_count(tiers@, PreferenceTier::Downrank),
        r.auto_delete == tier_count(tiers@, PreferenceTier::AutoDelete),
        r.keep + r.unknown + r.downrank + r.auto_delete == tiers@.len(),
{
    let mut counts = TierCounts { keep: 0, unknown: 0, downrank: 0, auto_delete: 0 };
    let mut i: usize = 0;
    while i < tiers.len()
        invariant
            i <= tiers@.len(),
            counts.keep == tier_count(tiers@.take(i as int), PreferenceTier::Keep),
            counts.unknown == tier_count(tiers@.take(i as int), PreferenceTier::Unknown),
            counts.downrank == tier_count(tiers@.take(i as int), PreferenceTier::Downrank),
            counts.auto_delete == tier_count(tiers@.take(i as int), PreferenceTier::AutoDelete),
        decreases tiers@.len() - i,
    {
        proof {
            lemma_tier_counts_total(tiers@.take(i as int));
            assert(tiers@.take(i + 1).drop_last() =~= tiers@.take(i as int));
            assert(tiers@.take(i + 1).last() == tiers@[i as int]);
        }
        match tiers[i] {
            PreferenceTier::Keep => counts.keep = counts.keep + 1,
            PreferenceTier::Unknown => counts.unknown = counts.unknown + 1,
            PreferenceTier::Downrank => counts.downrank = counts.downrank + 1,
            PreferenceTier::AutoDelete => counts.auto_delete = counts.auto_delete + 1,
        }
        i = i + 1;
    }
    proof {
        assert(tiers@.take(tiers@.len() as int) =~= tiers@);
        lemma_tier_counts_total(tiers@);
    }
    counts
}

/// Whether the scored candidates list `id` with the unknown tier.
pub open spec fn scored_unknown(scored: Seq<(String, PreferenceTier)>, id: Seq<char>) -> bool {
    exists|k: int| 0 <= k < scored.len() && (#[trigger] scored[k]).0@ == id && scored[k].1 == PreferenceTier::Unknown
}

/// The selected archives that were exploration picks (of unknown tier), in
/// their order.
pub open spec fn exploration_ids(selected: Seq<Seq<char>>, scored: Seq<(String, PreferenceTier)>) -> Seq<Seq<char>>
    decreases selected.len(),
{
    if selected.len() == 0 {
        Seq::empty()
    } else {
        let rest = exploration_ids(selected.drop_last(), scored);
        if scored_unknown(scored, selected.last()) {
            rest.push(selected.last())
        } else {
            rest
        }
    }
}

pub fn exploration_archive_ids(selected_ids: &Vec<String>, scored: &Vec<(String, PreferenceTier)>) -> (r: Vec<
    String,
>)
    ensures
        strings_of(r@) == exploration_ids(strings_of(selected_ids@), scored@),
{
    let mut out: Vec<String> = Vec::new();
    let mut i: usize = 0;
    while i < selected_ids.len()
        invariant
            i <= selected_ids@.len(),
            strings_of(out@) == exploration_ids(strings_of(selected_ids@.take(i as int)), scored@),
        decreases selected_ids@.len() - i,
    {
        let id = selected_ids[i].as_str();
        assert(strings_of(selected_ids@.take(i + 1)).drop_last() =~= strings_of(selected_ids@.take(i as int)));
        assert(strings_of(selected_ids@.take(i + 1)).last() == id@);
        let mut found = false;
        let mut k: usize = 0;
        while k < scored.len()
            invariant
                k <= scored@.len(),
                found <==> exists|j: int| 0 <= j < k && (#[trigger] scored@[j]).0@ == id@ && scored@[j].1 == PreferenceTier::Unknown,
            decreases scored@.len() - k,
        {
            if scored[k].1 == PreferenceTier::Unknown && str_eq(scored[k].0.as_str(), id) {
                found = true;
            }
            k = k + 1;
        }
        let ghost before = out@;
        if found {
            out.push(selected_ids[i].clone());
            assert(strings_of(out@) =~= strings_of(before).push(id@));
        }
        i = i + 1;
    }
    assert(selected_ids@.take(selected_ids@.len() as int) =~= selected_ids@);
    out
}

/// The candidates whose topics count for coverage: all but auto-delete ones.
pub open spec fn coverage_ids(scored: Seq<(String, PreferenceTier)>) -> Seq<Seq<char>>
    decreases scored.len(),
{
    if scored.len() == 0 {
        Seq::empty()
    } else {
        let rest = coverage_ids(scored.drop_last());
        if scored.last().1 != PreferenceTier::AutoDelete {
            rest.push(scored.last().0@)
        } else {
            rest
        }
    }
}

/// The tiers of scored candidates, in order.
pub open spec fn tiers_of(scored: Seq<(String, PreferenceTier)>) -> Seq<PreferenceTier> {
    scored.map_values(|c: (String, PreferenceTier)| c.1)
}

/// Topic coverage keeps every candidate that is not marked for automatic
/// deletion (kept, unknown and down-ranked alike), in order: the ids of two
/// runs of candidates are those of each run, one after the other; a single
/// candidate counts unless it is marked for deletion; so the coverage holds
/// every such candidate's id and has one entry per candidate not marked for
/// deletion.
pub proof fn law_coverage_keeps_all_but_deleted(
    scored: Seq<(String, PreferenceTier)>,
    more: Seq<(String, PreferenceTier)>,
    id: String,
    tier: PreferenceTier,
)
    ensures
        coverage_ids(scored + more) == coverage_ids(scored) + coverage_ids(more),
        coverage_ids(seq![(id, tier)]) == if tier == PreferenceTier::AutoDelete {
            Seq::<Seq<char>>::empty()
        } else {
            seq![id@]
        },
        coverage_ids(scored).len() == scored.len() - tier_count(tiers_of(scored), PreferenceTier::AutoDelete),
        forall|i: int|
            0 <= i < scored.len() && scored[i].1 != PreferenceTier::AutoDelete ==> coverage_ids(
                scored,
            ).contains(#[trigger] scored[i].0@),
    decreases more.len(),
{
    lemma_coverage_count(scored);
    lemma_coverage_contains(scored);
    let one = seq![(id, tier)];
    assert(one.drop_last() =~= Seq::<(String, PreferenceTier)>::empty());
    assert(one.last() == (id, tier));
    assert(coverage_ids(one.drop_last()) =~= Seq::<Seq<char>>::empty());
    if tier != PreferenceTier::AutoDelete {
        assert(Seq::<Seq<char>>::empty().push(id@) =~= seq![id@]);
    }
    if more.len() == 0 {
        assert(scored + more =~= scored);
        assert(coverage_ids(scored) + coverage_ids(more) =~= coverage_ids(scored));
    } else {
        law_coverage_keeps_all_but_deleted(scored, more.drop_last(), id, tier);
        assert((scored + more).drop_last() =~= scored + more.drop_last());
        assert((scored + more).last() == more.last());
        let a = coverage_ids(scored);
        let b = coverage_ids(more.drop_last());
        assert((a + b).push(more.last().0@) =~= a + b.push(more.last().0@));
    }
}

proof fn lemma_coverage_count(scored: Seq<(String, PreferenceTier)>)
    ensures
        coverage_ids(scored).len() == scored.len() - tier_count(tiers_of(scored), PreferenceTier::AutoDelete),
    decreases scored.len(),
{
    if scored.len() > 0 {
        lemma_coverage_count(scored.drop_last());
        assert(tiers_of(scored).drop_last() =~= tiers_of(scored.drop_last()));
        assert(tiers_of(scored).last() == scored.last().1);
        lemma_tier_count_bound(tiers_of(scored.drop_last()));
    }
}

proof fn lemma_tier_count_bound(tiers: Seq<PreferenceTier>)
    ensures
        tier_count(tiers, PreferenceTier::AutoDelete) <= tiers.len(),
    decreases tiers.len(),
{
    if tiers.len() > 0 {
        lemma_tier_count_bound(tiers.drop_last());
    }
}

proof fn lemma_coverage_contains(scored: Seq<(String, PreferenceTier)>)
    ensures
        forall|i: int|
            0 <= i < scored.len() && scored[i].1 != PreferenceTier::AutoDelete ==> coverage_ids(
                scored,
            ).contains(#[trigger] scored[i].0@),
    decreases scored.len(),
{
    if scored.len() > 0 {
        let p = scored.drop_last();
        lemma_coverage_contains(p);
        let c = coverage_ids(scored);
        let cp = coverage_ids(p);
        assert forall|i: int| 0 <= i < scored.len() && scored[i].1 != PreferenceTier::AutoDelete implies c.contains(
            #[trigger] scored[i].0@,
        ) by {
            if i < p.len() {
                assert(p[i] == scored[i]);
                assert(cp.contains(p[i].0@));
                let w = choose|w: int| 0 <= w < cp.len() && cp[w] == p[i].0@;
                assert(c[w] == cp[w]);
            } else {
                assert(c[c.len() - 1] == scored[i].0@);
            }
        }
    }
}

pub fn coverage_archive_ids(scored: &Vec<(String, PreferenceTier)>) -> (r: Vec<String>)
    ensures
        strings_of(r@) == coverage_ids(scored@),
{
    let mut out: Vec<String> = Vec::new();
    let mut i: usize = 0;
    while i < scored.len()
        invariant
            i <= scored@.len(),
            strings_of(out@) == coverage_ids(scored@.take(i as int)),
        decreases scored@.len() - i,
    {
        assert(scored@.take(i + 1).drop_last() =~= scored@.take(i as int));
        assert(scored@.take(i + 1).last() == scored@[i as int]);
        let ghost before = out@;
        if scored[i].1 != PreferenceTier::AutoDelete {
            out.push(scored[i].0.clone());
            assert(strings_of(out@) =~= strings_of(before).push(scored@[i as int].0@));
        }
        i = i + 1;
    }
    assert(scored@.take(scored@.len() as int) =~= scored@);
    out
}

// ---------------------------------------------------------------------------
// Laws
// ---------------------------------------------------------------------------
/// The permission filter keeps exactly the permitted targets, in their order:
/// everything it keeps is permitted, and every permitted target is kept.
pub proof fn law_permission_filter_is_exact(
    role: Seq<char>,
    user_paths: Seq<Seq<char>>,
    targets: Seq<ArchiveDeleteTarget>,
    x: ArchiveDeleteTarget,
)
    ensures
        permitted_targets(role, user_paths, targets).contains(x) <==> targets.contains(x)
            && path_permitted(role, user_paths, x.path@),
        permitted_targets(role, user_paths, targets).len() <= targets.len(),
    decreases targets.len(),
{
    if targets.len() > 0 {
        let init = targets.drop_last();
        law_permission_filter_is_exact(role, user_paths, init, x);
        let rest = permitted_targets(role, user_paths, init);
        assert(targets =~= init.push(targets.last()));
        if targets.contains(x) && x != targets.last() {
            let k = choose|k: int| 0 <= k < targets.len() && targets[k] == x;
            assert(init[k] == x);
        }
        if init.contains(x) {
            let k = choose|k: int| 0 <= k < init.len() && init[k] == x;
            assert(targets[k] == x);
        }
        if path_permitted(role, user_paths, targets.last().path@) {
            let r = rest.push(targets.last());
            if r.contains(x) && x != targets.last() {
                let k = choose|k: int| 0 <= k < r.len() && r[k] == x;
                assert(rest[k] == x);
            }
            if rest.contains(x) {
                let k = choose|k: int| 0 <= k < rest.len() && rest[k] == x;
                assert(r[k] == x);
            }
            assert(r[rest.len() as int] == targets.last());
        }
        assert(targets[targets.len() - 1] == targets.last());
    }
}

/// Administrators, and users without path grants, see every target.
pub proof fn law_unrestricted_users_see_everything(
    role: Seq<char>,
    user_paths: Seq<Seq<char>>,
    targets: Seq<ArchiveDeleteTarget>,
)
    requires
        role == "admin"@ || user_paths.len() == 0,
    ensures
        permitted_targets(role, user_paths, targets) == targets,
    decreases targets.len(),
{
    if targets.len() > 0 {
        law_unrestricted_users_see_everything(role, user_paths, targets.drop_last());
        assert(targets =~= targets.drop_last().push(targets.last()));
    }
}

/// Graph recall only adds archives that are not yet candidates, not excluded,
/// and inside the feed's explicit scope.
pub proof fn law_recall_respects_filters(
    filters: RecallFilters,
    current: Seq<Seq<char>>,
    ids: Seq<Seq<char>>,
    k: int,
)
    requires
        0 <= k < recalled_ids(filters, current, ids).len(),
    ensures
        recall_admits(filters, current, recalled_ids(filters, current, ids)[k]),
        ids.contains(recalled_ids(filters, current, ids)[k]),
    decreases ids.len(),
{
    let init = ids.drop_last();
    let rest = recalled_ids(filters, current, init);
    if k < rest.len() {
        law_recall_respects_filters(filters, current, init, k);
        let w = choose|w: int| 0 <= w < init.len() && init[w] == rest[k];
        assert(ids[w] == rest[k]);
    } else {
        assert(ids[ids.len() - 1] == ids.last());
    }
}

// ---------------------------------------------------------------------------
// The share of the uniform arm
// ---------------------------------------------------------------------------
/// One FNV-1a step over a byte given as a machine word.
spec fn fnv_byte(h: u64, b: u64) -> u64 {
    vstd::wrapping::u64_specs::wrapping_mul(h ^ b, FNV_PRIME)
}

/// FNV-1a over the decimal digits of `i`, starting from `h`, in machine words.
spec fn digits_hash(h: u64, i: u64) -> u64
    decreases i,
{
    if i < 10 {
        fnv_byte(h, (48 + i) as u64)
    } else {
        fnv_byte(digits_hash(h, i / 10), (48 + i % 10) as u64)
    }
}

/// The state of the experiment's hash after the bytes of `user-`.
spec fn user_prefix_state() -> u64 {
    0x9341194d97448905u64
}

/// `uniform_users` in machine words, for the bit-vector prover.
spec fn share_count(lo: u64, n: u64) -> u64
    decreases n,
{
    if n == 0 {
        0
    } else if n == 1 {
        if digits_hash(user_prefix_state(), lo) % 100 < 20 {
            1u64
        } else {
            0u64
        }
    } else {
        (share_count(lo, n / 2) + share_count((lo + n / 2) as u64, (n - n / 2) as u64)) as u64
    }
}

proof fn lemma_fnv1a_concat(h: u64, a: Seq<u8>, b: Seq<u8>)
    ensures
        fnv1a(h, a + b) == fnv1a(fnv1a(h, a), b),
    decreases a.len(),
{
    if a.len() == 0 {
        assert(a + b =~= b);
    } else {
        assert((a + b)[0] == a[0]);
        assert((a + b).drop_first() =~= a.drop_first() + b);
        lemma_fnv1a_concat(
            vstd::wrapping::u64_specs::wrapping_mul(h ^ (a[0] as u64), FNV_PRIME),
            a.drop_first(),
            b,
        );
    }
}

proof fn lemma_fnv1a_byte(h: u64, b: u8)
    ensures
        fnv1a(h, seq![b]) == fnv_byte(h, b as u64),
{
    let s = seq![b];
    assert(s.drop_first() =~= Seq::<u8>::empty());
    assert(s[0] == b);
    let h1 = vstd::wrapping::u64_specs::wrapping_mul(h ^ (b as u64), FNV_PRIME);
    assert(fnv1a(h, s) == fnv1a(h1, s.drop_first()));
    assert(fnv1a(h1, Seq::<u8>::empty()) == h1);
}

proof fn lemma_fnv1a_digits(h: u64, i: nat)
    requires
        i <= u64::MAX,
    ensures
        fnv1a(h, decimal_bytes(i)) == digits_hash(h, i as u64),
    decreases i,
{
    if i < 10 {
        lemma_fnv1a_byte(h, (48 + i) as u8);
    } else {
        lemma_fnv1a_digits(h, i / 10);
        let c = (48 + i % 10) as u8;
        assert(decimal_bytes(i) == decimal_bytes(i / 10) + seq![c]);
        lemma_fnv1a_concat(h, decimal_bytes(i / 10), seq![c]);
        lemma_fnv1a_byte(fnv1a(h, decimal_bytes(i / 10)), c);
        assert((i as u64) / 10 == (i / 10) as u64);
        assert((48 + (i as u64) % 10) as u64 == c as u64);
    }
}

proof fn lemma_user_prefix()
    ensures
        fnv1a(FNV_OFFSET_BASIS ^ EXPERIMENT_SALT, seq![117u8, 115u8, 101u8, 114u8, 45u8]) == user_prefix_state(),
{
    let h0 = FNV_OFFSET_BASIS ^ EXPERIMENT_SALT;
    let s = seq![117u8, 115u8, 101u8, 114u8, 45u8];
    assert(s =~= seq![117u8] + seq![115u8] + seq![101u8] + seq![114u8] + seq![45u8]);
    lemma_fnv1a_concat(h0, seq![117u8] + seq![115u8] + seq![101u8] + seq![114u8], seq![45u8]);
    lemma_fnv1a_concat(h0, seq![117u8] + seq![115u8] + seq![101u8], seq![114u8]);
    lemma_fnv1a_concat(h0, seq![117u8] + seq![115u8], seq![101u8]);
    lemma_fnv1a_concat(h0, seq![117u8], seq![115u8]);
    let h1 = fnv1a(h0, seq![117u8]);
    let h2 = fnv1a(h1, seq![115u8]);
    let h3 = fnv1a(h2, seq![101u8]);
    let h4 = fnv1a(h3, seq![114u8]);
    lemma_fnv1a_byte(h0, 117u8);
    lemma_fnv1a_byte(h1, 115u8);
    lemma_fnv1a_byte(h2, 101u8);
    lemma_fnv1a_byte(h3, 114u8);
    lemma_fnv1a_byte(h4, 45u8);
    assert(fnv_byte(fnv_byte(fnv_byte(fnv_byte(fnv_byte(0xcbf29ce484222325u64 ^ 739000u64, 117), 115), 101), 114), 45)
        == 0x9341194d97448905u64) by (bit_vector);
}

proof fn lemma_share_count(lo: u64, n: u64)
    requires
        lo + n <= u64::MAX,
    ensures
        share_count(lo, n) == uniform_users(lo as nat, n as nat),
        share_count(lo, n) <= n,
    decreases n,
{
    if n == 1 {
        lemma_user_prefix();
        lemma_fnv1a_concat(
            FNV_OFFSET_BASIS ^ EXPERIMENT_SALT,
            seq![117u8, 115u8, 101u8, 114u8, 45u8],
            decimal_bytes(lo as nat),
        );
        lemma_fnv1a_digits(user_prefix_state(), lo as nat);
    } else if n > 1 {
        lemma_share_count(lo, n / 2);
        lemma_share_count((lo + n / 2) as u64, (n - n / 2) as u64);
    }
}

/// About a fifth of the users land in the uniform arm: of the ten thousand
/// users `user-0` to `user-9999`, between 1700 and 2300 do (1950 exactly).
pub proof fn law_uniform_arm_takes_about_a_fifth()
    ensures
        1700 <= uniform_users(0, 10000) <= 2300,
        uniform_users(0, 10000) == 1950,
{
    assert(share_count(0, 10000) == 1950) by (bit_vector);
    lemma_share_count(0, 10000);
}

} // verus!
