//! The bookkeeping of a page of recommended archives. A weighted page is
//! filled in three phases: the preferred share (kept archives, with the
//! down-ranked ones as a weighted alternative), the exploration share (archives
//! of unknown preference) and a final fill from every pool. Each draw is made
//! by the caller, whose weights are floating-point scores; this module decides
//! which pools a draw takes from and records what it took. Archives marked for
//! automatic deletion never enter a pool, no archive is picked twice, a page
//! never holds more than the requested count, and the exploration count is the
//! number of picks of unknown preference.
use crate::recommendations::PreferenceTier;
use vstd::prelude::*;

verus! {

/// A pool of candidates, one per preference tier that can be picked.
#[derive(Debug, Clone, Copy, PartialEq, Eq, Structural)]
pub enum SelectionPool {
    Keep,
    Unknown,
    Downrank,
}

/// The pools that one draw takes from, in the order a weighted draw walks them.
#[derive(Debug, Clone, Copy, PartialEq, Eq, Structural)]
pub enum DrawFrom {
    /// Kept, then down-ranked archives.
    Preferred,
    Unknown,
    Downrank,
    /// Kept, unknown, then down-ranked archives.
    All,
}

pub open spec fn pool_tier(p: SelectionPool) -> PreferenceTier {
    match p {
        SelectionPool::Keep => PreferenceTier::Keep,
        SelectionPool::Unknown => PreferenceTier::Unknown,
        SelectionPool::Downrank => PreferenceTier::Downrank,
    }
}

pub open spec fn draw_allows(d: DrawFrom, p: SelectionPool) -> bool {
    match d {
        DrawFrom::Preferred => p == SelectionPool::Keep || p == SelectionPool::Downrank,
        DrawFrom::Unknown => p == SelectionPool::Unknown,
        DrawFrom::Downrank => p == SelectionPool::Downrank,
        DrawFrom::All => true,
    }
}

/// How many of `picks` are of unknown preference.
pub open spec fn unknown_picks(tiers: Seq<PreferenceTier>, picks: Seq<usize>) -> nat
    decreases picks.len(),
{
    if picks.len() == 0 {
        0
    } else {
        unknown_picks(tiers, picks.drop_last()) + if tiers[picks.last() as int] == PreferenceTier::Unknown {
            1nat
        } else {
            0nat
        }
    }
}

/// `s` without its item at `pos`, the last item taking its place.
pub open spec fn swap_removed(s: Seq<usize>, pos: int) -> Seq<usize> {
    s.update(pos, s.last()).drop_last()
}

pub open spec fn distinct(s: Seq<usize>) -> bool {
    forall|i: int, j: int| 0 <= i < j < s.len() ==> s[i] != s[j]
}

/// The candidates of `tiers` with tier `t`, in order.
pub open spec fn indices_of(tiers: Seq<PreferenceTier>, t: PreferenceTier) -> Seq<usize>
    decreases tiers.len(),
{
    if tiers.len() == 0 {
        Seq::empty()
    } else if tiers.last() == t {
        indices_of(tiers.drop_last(), t).push((tiers.len() - 1) as usize)
    } else {
        indices_of(tiers.drop_last(), t)
    }
}

/// A pool holds distinct candidates of tier `t` that were not picked.
pub open spec fn pool_ok(tiers: Seq<PreferenceTier>, picked: Seq<bool>, s: Seq<usize>, t: PreferenceTier) -> bool {
    &&& distinct(s)
    &&& forall|j: int|
        0 <= j < s.len() ==> #[trigger] s[j] < tiers.len() && tiers[s[j] as int] == t && !picked[s[j] as int]
}

proof fn lemma_take_from_pool(
    tiers: Seq<PreferenceTier>,
    picked: Seq<bool>,
    s: Seq<usize>,
    t: PreferenceTier,
    pos: int,
)
    requires
        pool_ok(tiers, picked, s, t),
        0 <= pos < s.len(),
        picked.len() == tiers.len(),
    ensures
        s[pos] < tiers.len(),
        tiers[s[pos] as int] == t,
        !picked[s[pos] as int],
        pool_ok(tiers, picked.update(s[pos] as int, true), swap_removed(s, pos), t),
        swap_removed(s, pos).len() == s.len() - 1,
{
    let x = s[pos];
    let n = swap_removed(s, pos);
    let pk = picked.update(x as int, true);
    assert forall|a: int, b: int| 0 <= a < b < n.len() implies n[a] != n[b] by {
        let ia = if a == pos { s.len() - 1 } else { a };
        let ib = if b == pos { s.len() - 1 } else { b };
        assert(n[a] == s[ia]);
        assert(n[b] == s[ib]);
    }
    assert forall|j: int| 0 <= j < n.len() implies #[trigger] n[j] < tiers.len() && tiers[n[j] as int] == t
        && !pk[n[j] as int] by {
        let ij = if j == pos { s.len() - 1 } else { j };
        assert(n[j] == s[ij]);
        assert(ij != pos);
        assert(s[ij] != x);
    }
}

proof fn lemma_other_pool(
    tiers: Seq<PreferenceTier>,
    picked: Seq<bool>,
    s: Seq<usize>,
    t: PreferenceTier,
    x: int,
)
    requires
        pool_ok(tiers, picked, s, t),
        0 <= x < tiers.len(),
        tiers[x] != t,
        picked.len() == tiers.len(),
    ensures
        pool_ok(tiers, picked.update(x, true), s, t),
{
    let pk = picked.update(x, true);
    assert forall|j: int| 0 <= j < s.len() implies #[trigger] s[j] < tiers.len() && tiers[s[j] as int] == t
        && !pk[s[j] as int] by {
        assert(s[j] != x);
    }
}

proof fn lemma_unknown_picks_bound(tiers: Seq<PreferenceTier>, picks: Seq<usize>)
    ensures
        unknown_picks(tiers, picks) <= picks.len(),
    decreases picks.len(),
{
    if picks.len() > 0 {
        lemma_unknown_picks_bound(tiers, picks.drop_last());
    }
}

/// The state of a weighted page being filled.
pub struct ArchiveSelection {
    tiers: Vec<PreferenceTier>,
    picked: Vec<bool>,
    keep: Vec<usize>,
    unknown: Vec<usize>,
    downrank: Vec<usize>,
    selected: Vec<usize>,
    explored: usize,
    count: usize,
    eligible: usize,
    target: usize,
    preferred_target: usize,
    exploration_target: usize,
    steps: usize,
    exhausted: bool,
}

impl ArchiveSelection {
    pub closed spec fn tiers(&self) -> Seq<PreferenceTier> {
        self.tiers@
    }

    /// The candidates still in pool `p`, in the order a draw walks them.
    pub closed spec fn pool(&self, p: SelectionPool) -> Seq<usize> {
        match p {
            SelectionPool::Keep => self.keep@,
            SelectionPool::Unknown => self.unknown@,
            SelectionPool::Downrank => self.downrank@,
        }
    }

    /// The candidates picked so far, in the order they were drawn.
    pub closed spec fn picks(&self) -> Seq<usize> {
        self.selected@
    }

    pub closed spec fn explored(&self) -> nat {
        self.explored as nat
    }

    /// The count that was asked for.
    pub closed spec fn count(&self) -> nat {
        self.count as nat
    }

    /// How many picks the page aims at: the count, or fewer when fewer
    /// candidates can be picked.
    pub closed spec fn target(&self) -> nat {
        self.target as nat
    }

    pub closed spec fn preferred_target(&self) -> nat {
        self.preferred_target as nat
    }

    pub closed spec fn exploration_target(&self) -> nat {
        self.exploration_target as nat
    }

    /// How many draws of the preferred and exploration phases were made.
    pub closed spec fn steps(&self) -> nat {
        self.steps as nat
    }

    /// Whether a draw of the final fill came back empty.
    pub closed spec fn exhausted(&self) -> bool {
        self.exhausted
    }

    pub closed spec fn wf(&self) -> bool {
        &&& self.picked@.len() == self.tiers@.len()
        &&& pool_ok(self.tiers@, self.picked@, self.keep@, PreferenceTier::Keep)
        &&& pool_ok(self.tiers@, self.picked@, self.unknown@, PreferenceTier::Unknown)
        &&& pool_ok(self.tiers@, self.picked@, self.downrank@, PreferenceTier::Downrank)
        &&& distinct(self.selected@)
        &&& forall|j: int|
            0 <= j < self.selected@.len() ==> #[trigger] self.selected@[j] < self.tiers@.len()
                && self.tiers@[self.selected@[j] as int] != PreferenceTier::AutoDelete
                && self.picked@[self.selected@[j] as int]
        &&& self.explored == unknown_picks(self.tiers@, self.selected@)
        &&& self.keep@.len() + self.unknown@.len() + self.downrank@.len() + self.selected@.len()
            == self.eligible
        &&& self.target == if self.count <= self.eligible {
            self.count
        } else {
            self.eligible
        }
        &&& self.exploration_target <= self.count
        &&& self.preferred_target == self.target - if self.exploration_target <= self.target {
            self.exploration_target
        } else {
            self.target
        }
        &&& self.steps <= self.preferred_target + self.exploration_target
        &&& (self.selected@.len() <= self.steps || self.steps == self.preferred_target
            + self.exploration_target)
        &&& self.selected@.len() <= self.target
    }

    /// Which pools the next draw takes from; `None` once the page is done.
    pub closed spec fn next_draw_of(&self) -> Option<DrawFrom> {
        if self.steps < self.preferred_target {
            Some(
                if self.keep@.len() > 0 {
                    DrawFrom::Preferred
                } else if self.unknown@.len() > 0 {
                    DrawFrom::Unknown
                } else {
                    DrawFrom::Downrank
                },
            )
        } else if self.steps < self.preferred_target + self.exploration_target {
            Some(
                if self.unknown@.len() > 0 {
                    DrawFrom::Unknown
                } else {
                    DrawFrom::Preferred
                },
            )
        } else if !self.exhausted && self.selected@.len() < self.target && (self.keep@.len() > 0
            || self.unknown@.len() > 0 || self.downrank@.len() > 0) {
            Some(DrawFrom::All)
        } else {
            None
        }
    }
}

/// The candidates of tier `t`, in order.
fn indices_with(tiers: &Vec<PreferenceTier>, t: PreferenceTier) -> (r: Vec<usize>)
    ensures
        r@ == indices_of(tiers@, t),
        forall|j: int| 0 <= j < r@.len() ==> #[trigger] r@[j] < tiers@.len() && tiers@[r@[j] as int] == t,
        forall|i: int, j: int| 0 <= i < j < r@.len() ==> r@[i] < r@[j],
{
    let mut out: Vec<usize> = Vec::new();
    let mut i: usize = 0;
    while i < tiers.len()
        invariant
            i <= tiers@.len(),
            out@ == indices_of(tiers@.take(i as int), t),
            forall|j: int| 0 <= j < out@.len() ==> #[trigger] out@[j] < i && tiers@[out@[j] as int] == t,
            forall|a: int, b: int| 0 <= a < b < out@.len() ==> out@[a] < out@[b],
        decreases tiers@.len() - i,
    {
        proof {
            assert(tiers@.take(i + 1).drop_last() =~= tiers@.take(i as int));
            assert(tiers@.take(i + 1).last() == tiers@[i as int]);
        }
        if tiers[i] == t {
            out.push(i);
        }
        i = i + 1;
    }
    assert(tiers@.take(tiers@.len() as int) =~= tiers@);
    out
}

fn all_false(n: usize) -> (r: Vec<bool>)
    ensures
        r@.len() == n,
        forall|j: int| 0 <= j < n ==> !#[trigger] r@[j],
{
    let mut out: Vec<bool> = Vec::new();
    let mut i: usize = 0;
    while i < n
        invariant
            i <= n,
            out@.len() == i,
            forall|j: int| 0 <= j < i ==> !#[trigger] out@[j],
        decreases n - i,
    {
        out.push(false);
        i = i + 1;
    }
    out
}

impl ArchiveSelection {
    /// A page of `count` archives among candidates of the given tiers, of
    /// which `exploration_target` draws go to the exploration share.
    pub fn new(tiers: &Vec<PreferenceTier>, count: usize, exploration_target: usize) -> (r: Self)
        requires
            exploration_target <= count,
        ensures
            r.wf(),
            r.tiers() == tiers@,
            r.pool(SelectionPool::Keep) == indices_of(tiers@, PreferenceTier::Keep),
            r.pool(SelectionPool::Unknown) == indices_of(tiers@, PreferenceTier::Unknown),
            r.pool(SelectionPool::Downrank) == indices_of(tiers@, PreferenceTier::Downrank),
            r.picks().len() == 0,
            r.explored() == 0,
            r.count() == count,
            r.target() == if count <= r.pool(SelectionPool::Keep).len() + r.pool(SelectionPool::Unknown).len()
                + r.pool(SelectionPool::Downrank).len() {
                count as nat
            } else {
                r.pool(SelectionPool::Keep).len() + r.pool(SelectionPool::Unknown).len() + r.pool(
                    SelectionPool::Downrank,
                ).len()
            },
            r.exploration_target() == exploration_target,
            r.preferred_target() == r.target() - if exploration_target <= r.target() {
                exploration_target as int
            } else {
                r.target() as int
            },
            r.steps() == 0,
            !r.exhausted(),
    {
        let keep = indices_with(tiers, PreferenceTier::Keep);
        let unknown = indices_with(tiers, PreferenceTier::Unknown);
        let downrank = indices_with(tiers, PreferenceTier::Downrank);
        let picked = all_false(tiers.len());
        proof {
            lemma_indices_bound(tiers@);
        }
        let eligible = keep.len() + unknown.len() + downrank.len();
        let target = if count <= eligible {
            count
        } else {
            eligible
        };
        let preferred_target = target - if exploration_target <= target {
            exploration_target
        } else {
            target
        };
        let r = ArchiveSelection {
            tiers: copy_tiers(tiers),
            picked,
            keep,
            unknown,
            downrank,
            selected: Vec::new(),
            explored: 0,
            count,
            eligible,
            target,
            preferred_target,
            exploration_target,
            steps: 0,
            exhausted: false,
        };
        proof {
            assert(distinct(r.keep@));
            assert(distinct(r.unknown@));
            assert(distinct(r.downrank@));
        }
        r
    }
}

fn copy_tiers(tiers: &Vec<PreferenceTier>) -> (r: Vec<PreferenceTier>)
    ensures
        r@ == tiers@,
{
    let mut out: Vec<PreferenceTier> = Vec::new();
    let mut i: usize = 0;
    while i < tiers.len()
        invariant
            i <= tiers@.len(),
            out@ == tiers@.take(i as int),
        decreases tiers@.len() - i,
    {
        out.push(tiers[i]);
        i = i + 1;
        assert(out@ =~= tiers@.take(i as int));
    }
    assert(tiers@.take(tiers@.len() as int) =~= tiers@);
    out
}

proof fn lemma_indices_bound(tiers: Seq<PreferenceTier>)
    ensures
        indices_of(tiers, PreferenceTier::Keep).len() + indices_of(tiers, PreferenceTier::Unknown).len()
            + indices_of(tiers, PreferenceTier::Downrank).len() <= tiers.len(),
    decreases tiers.len(),
{
    if tiers.len() > 0 {
        lemma_indices_bound(tiers.drop_last());
    }
}

/// Whether the draw `d` may take what `pick` names: an item of one of its
/// pools, by its position there.
pub open spec fn pick_allowed(pools: spec_fn(SelectionPool) -> Seq<usize>, d: DrawFrom, pick: Option<(SelectionPool, usize)>) -> bool {
    pick matches Some((p, pos)) && draw_allows(d, p) && pos < pools(p).len()
}

fn allows(d: DrawFrom, p: SelectionPool) -> (r: bool)
    ensures
        r == draw_allows(d, p),
{
    match d {
        DrawFrom::Preferred => p == SelectionPool::Keep || p == SelectionPool::Downrank,
        DrawFrom::Unknown => p == SelectionPool::Unknown,
        DrawFrom::Downrank => p == SelectionPool::Downrank,
        DrawFrom::All => true,
    }
}

impl ArchiveSelection {
    pub closed spec fn pools(&self) -> spec_fn(SelectionPool) -> Seq<usize> {
        |p: SelectionPool| self.pool(p)
    }

    /// Which pools the next draw takes from; `None` once the page is done.
    pub fn next_draw(&self) -> (r: Option<DrawFrom>)
        requires
            self.wf(),
        ensures
            r == self.next_draw_of(),
            r is None ==> self.exhausted() || self.picks().len() == self.target(),
    {
        proof {
            law_next_draw(*self);
        }
        if self.steps < self.preferred_target {
            Some(
                if self.keep.len() > 0 {
                    DrawFrom::Preferred
                } else if self.unknown.len() > 0 {
                    DrawFrom::Unknown
                } else {
                    DrawFrom::Downrank
                },
            )
        } else if self.steps < self.preferred_target + self.exploration_target {
            Some(
                if self.unknown.len() > 0 {
                    DrawFrom::Unknown
                } else {
                    DrawFrom::Preferred
                },
            )
        } else if !self.exhausted && self.selected.len() < self.target && (self.keep.len() > 0
            || self.unknown.len() > 0 || self.downrank.len() > 0) {
            Some(DrawFrom::All)
        } else {
            None
        }
    }

    /// The candidates still in pool `p`.
    pub fn pool_items(&self, p: SelectionPool) -> (r: &Vec<usize>)
        ensures
            r@ == self.pool(p),
    {
        match p {
            SelectionPool::Keep => &self.keep,
            SelectionPool::Unknown => &self.unknown,
            SelectionPool::Downrank => &self.downrank,
        }
    }

    /// The candidates picked so far, in the order they were drawn.
    pub fn picked_items(&self) -> (r: &Vec<usize>)
        ensures
            r@ == self.picks(),
    {
        &self.selected
    }

    /// How many picks were of unknown preference.
    pub fn explored_count(&self) -> (r: usize)
        ensures
            r == self.explored(),
    {
        self.explored
    }

    /// Records the outcome of the next draw: `pick` names the pool and the
    /// position in it of the candidate drawn, or `None` when the draw came back
    /// empty. A pick outside the pools of the draw counts as an empty draw. A
    /// draw of the preferred or exploration phase counts even when empty; an
    /// empty draw of the final fill ends the page. Returns whether a
    /// candidate was taken.
    pub fn record(&mut self, pick: Option<(SelectionPool, usize)>) -> (r: bool)
        requires
            old(self).wf(),
        ensures
            final(self).wf(),
            final(self).tiers() == old(self).tiers(),
            final(self).count() == old(self).count(),
            final(self).target() == old(self).target(),
            final(self).preferred_target() == old(self).preferred_target(),
            final(self).exploration_target() == old(self).exploration_target(),
            r == (old(self).next_draw_of() matches Some(d) && pick_allowed(old(self).pools(), d, pick)),
            old(self).next_draw_of() is None ==> final(self).steps() == old(self).steps()
                && final(self).exhausted() == old(self).exhausted(),
            old(self).next_draw_of() is Some && old(self).steps() < old(self).preferred_target()
                + old(self).exploration_target() ==> final(self).steps() == old(self).steps() + 1
                && final(self).exhausted() == old(self).exhausted(),
            old(self).next_draw_of() is Some && old(self).steps() >= old(self).preferred_target()
                + old(self).exploration_target() ==> final(self).steps() == old(self).steps()
                && final(self).exhausted() == !r,
            final(self).exhausted() == (old(self).exhausted() || (old(self).next_draw_of() == Some(
                DrawFrom::All,
            ) && !r)),
            !r ==> final(self).picks() == old(self).picks() && final(self).explored() == old(self).explored()
                && forall|q: SelectionPool| #[trigger] final(self).pool(q) == old(self).pool(q),
            r ==> (pick matches Some((p, pos)) && {
                &&& final(self).pool(p) == swap_removed(old(self).pool(p), pos as int)
                &&& forall|q: SelectionPool| q != p ==> #[trigger] final(self).pool(q) == old(self).pool(q)
                &&& final(self).picks() == old(self).picks().push(old(self).pool(p)[pos as int])
                &&& final(self).explored() == old(self).explored() + if p == SelectionPool::Unknown {
                    1nat
                } else {
                    0nat
                }
            }),
    {
        let d = self.next_draw();
        let from = match d {
            None => return false,
            Some(from) => from,
        };
        let in_phase = self.steps < self.preferred_target + self.exploration_target;
        let ok = match pick {
            Some((p, pos)) => allows(from, p) && pos < self.pool_items(p).len(),
            None => false,
        };
        assert(ok == pick_allowed(self.pools(), from, pick));
        if ok {
            let (p, pos) = match pick {
                Some(x) => x,
                None => (SelectionPool::Keep, 0),
            };
            let ghost tiers = self.tiers@;
            let ghost picked = self.picked@;
            proof {
                lemma_unknown_picks_bound(self.tiers@, self.selected@);
                match p {
                    SelectionPool::Keep => {
                        lemma_take_from_pool(tiers, picked, self.keep@, PreferenceTier::Keep, pos as int);
                    },
                    SelectionPool::Unknown => {
                        lemma_take_from_pool(tiers, picked, self.unknown@, PreferenceTier::Unknown, pos as int);
                    },
                    SelectionPool::Downrank => {
                        lemma_take_from_pool(tiers, picked, self.downrank@, PreferenceTier::Downrank, pos as int);
                    },
                }
            }
            let x = match p {
                SelectionPool::Keep => self.keep.swap_remove(pos),
                SelectionPool::Unknown => self.unknown.swap_remove(pos),
                SelectionPool::Downrank => self.downrank.swap_remove(pos),
            };
            proof {
                if p != SelectionPool::Keep {
                    lemma_other_pool(tiers, picked, self.keep@, PreferenceTier::Keep, x as int);
                }
                if p != SelectionPool::Unknown {
                    lemma_other_pool(tiers, picked, self.unknown@, PreferenceTier::Unknown, x as int);
                }
                if p != SelectionPool::Downrank {
                    lemma_other_pool(tiers, picked, self.downrank@, PreferenceTier::Downrank, x as int);
                }
                assert(forall|j: int| 0 <= j < self.selected@.len() ==> #[trigger] self.selected@[j] != x);
            }
            self.picked.set(x, true);
            let ghost before = self.selected@;
            self.selected.push(x);
            proof {
                assert(self.selected@.drop_last() =~= before);
                assert(forall|j: int| 0 <= j < before.len() ==> #[trigger] self.selected@[j] == before[j]);
            }
            if p == SelectionPool::Unknown {
                self.explored = self.explored + 1;
            }
        }
        if in_phase {
            self.steps = self.steps + 1;
        } else if !ok {
            self.exhausted = true;
        }
        ok
    }
}

/// Which pools the next draw takes from: while the preferred share lasts,
/// kept and down-ranked archives (unknown ones, then down-ranked ones, once no
/// kept archive is left); while the exploration share lasts, archives of
/// unknown preference (kept and down-ranked ones once none is left); then
/// every pool, until the page holds its target, the pools are empty or a fill
/// draw came back empty. A page is done only when it holds its target or a
/// fill draw came back empty.
pub proof fn law_next_draw(s: ArchiveSelection)
    requires
        s.wf(),
    ensures
        s.next_draw_of() == if s.steps() < s.preferred_target() {
            Some(
                if s.pool(SelectionPool::Keep).len() > 0 {
                    DrawFrom::Preferred
                } else if s.pool(SelectionPool::Unknown).len() > 0 {
                    DrawFrom::Unknown
                } else {
                    DrawFrom::Downrank
                },
            )
        } else if s.steps() < s.preferred_target() + s.exploration_target() {
            Some(
                if s.pool(SelectionPool::Unknown).len() > 0 {
                    DrawFrom::Unknown
                } else {
                    DrawFrom::Preferred
                },
            )
        } else if !s.exhausted() && s.picks().len() < s.target() && (s.pool(SelectionPool::Keep).len() > 0
            || s.pool(SelectionPool::Unknown).len() > 0 || s.pool(SelectionPool::Downrank).len() > 0) {
            Some(DrawFrom::All)
        } else {
            None
        },
        s.next_draw_of() is None ==> s.exhausted() || s.picks().len() == s.target(),
        s.target() <= s.count(),
        s.target() == s.count() || s.target() == s.pool(SelectionPool::Keep).len() + s.pool(
            SelectionPool::Unknown,
        ).len() + s.pool(SelectionPool::Downrank).len() + s.picks().len(),
{
}

/// A page filled so far never holds an archive twice, nor one marked for
/// automatic deletion, nor more archives than were asked for, and its
/// exploration count is the number of its picks of unknown preference.
pub proof fn law_weighted_page_is_sound(s: ArchiveSelection)
    requires
        s.wf(),
    ensures
        distinct(s.picks()),
        forall|j: int|
            0 <= j < s.picks().len() ==> #[trigger] s.picks()[j] < s.tiers().len() && s.tiers()[s.picks()[j] as int]
                != PreferenceTier::AutoDelete,
        s.picks().len() <= s.target() <= s.count(),
        s.explored() == unknown_picks(s.tiers(), s.picks()),
{
}

// ---------------------------------------------------------------------------
// Uniform pages
// ---------------------------------------------------------------------------
/// The uniform page: the candidates in the given (shuffled) order, skipping
/// those marked for automatic deletion, repeated positions and positions past
/// the last candidate, until `count` are taken.
pub open spec fn uniform_picks(tiers: Seq<PreferenceTier>, order: Seq<usize>, count: nat) -> Seq<usize>
    decreases order.len(),
{
    if order.len() == 0 {
        Seq::empty()
    } else {
        let prev = uniform_picks(tiers, order.drop_last(), count);
        let i = order.last();
        if prev.len() < count && i < tiers.len() && tiers[i as int] != PreferenceTier::AutoDelete
            && !prev.contains(i) {
            prev.push(i)
        } else {
            prev
        }
    }
}

/// The uniform page of `count` archives among candidates of the given tiers,
/// taken in `order` (a shuffle of the candidates' positions), and how many of
/// them are of unknown preference.
pub fn uniform_selection(tiers: &Vec<PreferenceTier>, order: &Vec<usize>, count: usize) -> (r: (
    Vec<usize>,
    usize,
))
    ensures
        r.0@ == uniform_picks(tiers@, order@, count as nat),
        r.1 == unknown_picks(tiers@, r.0@),
{
    let mut seen = all_false(tiers.len());
    let mut out: Vec<usize> = Vec::new();
    let mut explored: usize = 0;
    let mut i: usize = 0;
    while i < order.len()
        invariant
            i <= order@.len(),
            seen@.len() == tiers@.len(),
            out@ == uniform_picks(tiers@, order@.take(i as int), count as nat),
            out@.len() <= count,
            forall|k: int| 0 <= k < tiers@.len() ==> (#[trigger] seen@[k] <==> out@.contains(k as usize)),
            forall|j: int| 0 <= j < out@.len() ==> #[trigger] out@[j] < tiers@.len(),
            explored == unknown_picks(tiers@, out@),
            explored <= out@.len(),
        decreases order@.len() - i,
    {
        proof {
            assert(order@.take(i + 1).drop_last() =~= order@.take(i as int));
            assert(order@.take(i + 1).last() == order@[i as int]);
        }
        let k = order[i];
        if out.len() < count && k < tiers.len() && tiers[k] != PreferenceTier::AutoDelete && !seen[k] {
            let ghost before = out@;
            out.push(k);
            seen.set(k, true);
            proof {
                assert(out@.drop_last() =~= before);
                assert forall|m: int| 0 <= m < tiers@.len() implies (#[trigger] seen@[m] <==> out@.contains(
                    m as usize,
                )) by {
                    if out@.contains(m as usize) {
                        let w = choose|w: int| 0 <= w < out@.len() && out@[w] == m as usize;
                        if w < before.len() {
                            assert(before[w] == m as usize);
                        }
                    }
                    if m != k && before.contains(m as usize) {
                        let w = choose|w: int| 0 <= w < before.len() && before[w] == m as usize;
                        assert(out@[w] == m as usize);
                    }
                    if m == k {
                        assert(out@[before.len() as int] == k);
                    }
                }
            }
            if tiers[k] == PreferenceTier::Unknown {
                explored = explored + 1;
            }
        }
        i = i + 1;
    }
    assert(order@.take(order@.len() as int) =~= order@);
    (out, explored)
}

/// A uniform page never holds an archive twice, nor one marked for automatic
/// deletion, nor more than `count` archives.
pub proof fn law_uniform_page_is_sound(tiers: Seq<PreferenceTier>, order: Seq<usize>, count: nat)
    ensures
        distinct(uniform_picks(tiers, order, count)),
        uniform_picks(tiers, order, count).len() <= count,
        forall|j: int|
            0 <= j < uniform_picks(tiers, order, count).len() ==> #[trigger] uniform_picks(tiers, order, count)[j]
                < tiers.len() && tiers[uniform_picks(tiers, order, count)[j] as int] != PreferenceTier::AutoDelete,
    decreases order.len(),
{
    if order.len() > 0 {
        law_uniform_page_is_sound(tiers, order.drop_last(), count);
        let prev = uniform_picks(tiers, order.drop_last(), count);
        let cur = uniform_picks(tiers, order, count);
        if cur.len() > prev.len() {
            assert forall|a: int, b: int| 0 <= a < b < cur.len() implies cur[a] != cur[b] by {
                if b == prev.len() {
                    assert(prev[a] == cur[a]);
                    assert(!prev.contains(order.last()));
                }
            }
            assert forall|j: int| 0 <= j < cur.len() implies #[trigger] cur[j] < tiers.len() && tiers[cur[j] as int]
                != PreferenceTier::AutoDelete by {
                if j < prev.len() {
                    assert(cur[j] == prev[j]);
                }
            }
        }
    }
}

} // verus!
