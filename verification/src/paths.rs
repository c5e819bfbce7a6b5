//! Lexical normalization of Unix paths, as the plugin permission gateway does it:
//! relative paths are joined to the working directory, `.` parts vanish and `..`
//! removes the part before it, without touching the file system.
use crate::text::{
    chars_eq, chars_of, in_class, join_chars, join_seq, lit, push_char, runs, seqs_of, split_runs,
    string_from_chars, CharClass,
};
use vstd::prelude::*;

verus! {

/// A path as components: whether it starts at the root, then its normal parts.
#[derive(Debug)]
pub struct PathModel {
    pub rooted: bool,
    pub parts: Vec<Vec<char>>,
}

pub open spec fn path_parts(s: Seq<char>) -> Seq<Seq<char>> {
    runs(s, CharClass::NonSlash)
}

pub open spec fn is_absolute_seq(s: Seq<char>) -> bool {
    s.len() > 0 && s[0] == '/'
}

/// One component applied to a normalized stack of parts.
pub open spec fn step(stack: Seq<Seq<char>>, c: Seq<char>) -> Seq<Seq<char>> {
    if c == seq!['.'] {
        stack
    } else if c == seq!['.', '.'] {
        if stack.len() > 0 {
            stack.drop_last()
        } else {
            stack
        }
    } else {
        stack.push(c)
    }
}

/// The components `cs` applied, left to right, to `init`.
pub open spec fn fold_parts(init: Seq<Seq<char>>, cs: Seq<Seq<char>>) -> Seq<Seq<char>>
    decreases cs.len(),
{
    if cs.len() == 0 {
        init
    } else {
        step(fold_parts(init, cs.drop_last()), cs.last())
    }
}

pub proof fn lemma_fold_concat(init: Seq<Seq<char>>, a: Seq<Seq<char>>, b: Seq<Seq<char>>)
    ensures
        fold_parts(fold_parts(init, a), b) == fold_parts(init, a + b),
    decreases b.len(),
{
    if b.len() > 0 {
        lemma_fold_concat(init, a, b.drop_last());
        assert((a + b).drop_last() =~= a + b.drop_last());
        assert((a + b).last() == b.last());
    } else {
        assert(a + b =~= a);
    }
}

/// The normalized form of `raw`; a relative `raw` is taken relative to `cwd`.
/// `Err` carries the error text when the working directory could not be read.
pub open spec fn normalized_path(raw: Seq<char>, cwd: Result<Seq<char>, Seq<char>>) -> Result<
    (bool, Seq<Seq<char>>),
    Seq<char>,
> {
    if is_absolute_seq(raw) {
        Ok((true, fold_parts(Seq::empty(), path_parts(raw))))
    } else {
        match cwd {
            Ok(c) => Ok(
                (is_absolute_seq(c), fold_parts(Seq::empty(), path_parts(c) + path_parts(raw))),
            ),
            Err(e) => Err("读取当前目录失败: "@ + e),
        }
    }
}

/// How the path displays: a leading `/` when rooted, then the parts joined by `/`.
pub open spec fn path_text(p: (bool, Seq<Seq<char>>)) -> Seq<char> {
    (if p.0 {
        seq!['/']
    } else {
        Seq::empty()
    }) + join_seq(p.1, seq!['/'])
}

/// `Path::starts_with`: the components of `root` are a prefix of those of `p`.
pub open spec fn path_starts_with(p: (bool, Seq<Seq<char>>), root: (bool, Seq<Seq<char>>)) -> bool {
    if root.0 {
        p.0 && root.1.len() <= p.1.len() && p.1.take(root.1.len() as int) == root.1
    } else if root.1.len() == 0 {
        true
    } else {
        !p.0 && root.1.len() <= p.1.len() && p.1.take(root.1.len() as int) == root.1
    }
}

impl PathModel {
    pub open spec fn model(&self) -> (bool, Seq<Seq<char>>) {
        (self.rooted, seqs_of(self.parts@))
    }
}

fn copy_chars(v: &Vec<char>) -> (r: Vec<char>)
    ensures
        r@ == v@,
{
    let mut out: Vec<char> = Vec::new();
    let mut i: usize = 0;
    while i < v.len()
        invariant
            i <= v@.len(),
            out@ == v@.take(i as int),
        decreases v@.len() - i,
    {
        out.push(v[i]);
        i = i + 1;
        assert(out@ =~= v@.take(i as int));
    }
    assert(v@.take(v@.len() as int) =~= v@);
    out
}

/// Applies the components `cs` to `stack`.
fn apply_parts(stack: &mut Vec<Vec<char>>, cs: &Vec<Vec<char>>)
    ensures
        seqs_of(final(stack)@) == fold_parts(seqs_of(old(stack)@), seqs_of(cs@)),
{
    let ghost init = seqs_of(stack@);
    let dot = lit(".");
    let dotdot = lit("..");
    assert(dot@ =~= seq!['.']) by {
        reveal_strlit(".");
    }
    assert(dotdot@ =~= seq!['.', '.']) by {
        reveal_strlit("..");
    }
    let mut i: usize = 0;
    while i < cs.len()
        invariant
            i <= cs@.len(),
            dot@ == seq!['.'],
            dotdot@ == seq!['.', '.'],
            seqs_of(stack@) == fold_parts(init, seqs_of(cs@).take(i as int)),
        decreases cs@.len() - i,
    {
        let ghost before = seqs_of(stack@);
        let c = &cs[i];
        if chars_eq(c, &dot) {
        } else if chars_eq(c, &dotdot) {
            if stack.len() > 0 {
                stack.pop();
                assert(seqs_of(stack@) =~= before.drop_last());
            }
        } else {
            let copy = copy_chars(c);
            stack.push(copy);
            assert(seqs_of(stack@) =~= before.push(c@));
        }
        proof {
            let t = seqs_of(cs@).take(i + 1);
            assert(t.drop_last() =~= seqs_of(cs@).take(i as int));
            assert(t.last() == c@);
        }
        i = i + 1;
    }
    assert(seqs_of(cs@).take(cs@.len() as int) =~= seqs_of(cs@));
}

/// The normalized form of `raw`; a relative `raw` is joined to the working
/// directory `cwd` (or `Err` with the text of the error that reading it gave).
pub fn normalize_path(raw: &str, cwd: Result<&str, &str>) -> (r: Result<PathModel, String>)
    ensures
        match normalized_path(
            raw@,
            match cwd {
                Ok(c) => Ok(c@),
                Err(e) => Err(e@),
            },
        ) {
            Ok(p) => r matches Ok(m) && m.model() == p,
            Err(t) => r matches Err(s) && s@ == t,
        },
{
    let rv = chars_of(raw);
    let raw_parts = split_runs(&rv, CharClass::NonSlash);
    if rv.len() > 0 && rv[0] == '/' {
        let mut stack: Vec<Vec<char>> = Vec::new();
        assert(seqs_of(stack@) =~= Seq::<Seq<char>>::empty());
        apply_parts(&mut stack, &raw_parts);
        return Ok(PathModel { rooted: true, parts: stack });
    }
    match cwd {
        Ok(c) => {
            let cv = chars_of(c);
            let cwd_parts = split_runs(&cv, CharClass::NonSlash);
            let mut stack: Vec<Vec<char>> = Vec::new();
            let ghost e = seqs_of(stack@);
            assert(e =~= Seq::<Seq<char>>::empty());
            apply_parts(&mut stack, &cwd_parts);
            apply_parts(&mut stack, &raw_parts);
            proof {
                lemma_fold_concat(e, seqs_of(cwd_parts@), seqs_of(raw_parts@));
            }
            let rooted = cv.len() > 0 && cv[0] == '/';
            Ok(PathModel { rooted, parts: stack })
        },
        Err(e) => {
            let mut msg = crate::text::owned("读取当前目录失败: ");
            msg.append(e);
            Err(msg)
        },
    }
}

impl PathModel {
    /// The path as text.
    pub fn display(&self) -> (r: String)
        ensures
            r@ == path_text(self.model()),
    {
        let joined = join_chars(&self.parts, '/');
        let mut s = String::new();
        if self.rooted {
            push_char(&mut s, '/');
        }
        let mut i: usize = 0;
        let ghost head = s@;
        while i < joined.len()
            invariant
                i <= joined@.len(),
                s@ == head + joined@.take(i as int),
            decreases joined@.len() - i,
        {
            push_char(&mut s, joined[i]);
            i = i + 1;
            assert(s@ =~= head + joined@.take(i as int));
        }
        assert(joined@.take(joined@.len() as int) =~= joined@);
        proof {
            if self.rooted {
                assert(head =~= seq!['/']);
            } else {
                assert(head =~= Seq::<char>::empty());
            }
        }
        s
    }

    /// `Path::starts_with`.
    pub fn starts_with(&self, root: &PathModel) -> (r: bool)
        ensures
            r == path_starts_with(self.model(), root.model()),
    {
        if !root.rooted && root.parts.len() == 0 {
            return true;
        }
        if root.rooted != self.rooted {
            return false;
        }
        if root.parts.len() > self.parts.len() {
            return false;
        }
        let mut i: usize = 0;
        while i < root.parts.len()
            invariant
                root.parts@.len() <= self.parts@.len(),
                i <= root.parts@.len(),
                forall|k: int| 0 <= k < i ==> #[trigger] self.parts@[k]@ == root.parts@[k]@,
            decreases root.parts@.len() - i,
        {
            if !chars_eq(&self.parts[i], &root.parts[i]) {
                assert(seqs_of(self.parts@).take(root.parts@.len() as int)[i as int]
                    != seqs_of(root.parts@)[i as int]);
                return false;
            }
            i = i + 1;
        }
        assert(seqs_of(self.parts@).take(root.parts@.len() as int) =~= seqs_of(root.parts@));
        true
    }
}


/// The lexical normal form of a path on its own: `.` parts vanish and `..`
/// removes the part before it (at the root it removes nothing).
pub fn lexical_normalize(path: &str) -> (r: PathModel)
    ensures
        r.model() == (is_absolute_seq(path@), fold_parts(Seq::empty(), path_parts(path@))),
{
    let v = chars_of(path);
    let parts = split_runs(&v, CharClass::NonSlash);
    let mut stack: Vec<Vec<char>> = Vec::new();
    assert(seqs_of(stack@) =~= Seq::<Seq<char>>::empty());
    apply_parts(&mut stack, &parts);
    PathModel { rooted: v.len() > 0 && v[0] == '/', parts: stack }
}

/// No part is `.` or `..`.
pub open spec fn no_dot_parts(parts: Seq<Seq<char>>) -> bool {
    forall|i: int| 0 <= i < parts.len() ==> #[trigger] parts[i] != seq!['.'] && parts[i] != seq!['.', '.']
}

/// A normalized path never keeps a `.` or `..` part, so it cannot climb out of
/// a directory that is a prefix of it.
pub proof fn law_normalized_parts_are_plain(init: Seq<Seq<char>>, cs: Seq<Seq<char>>)
    requires
        no_dot_parts(init),
    ensures
        no_dot_parts(fold_parts(init, cs)),
    decreases cs.len(),
{
    if cs.len() > 0 {
        law_normalized_parts_are_plain(init, cs.drop_last());
        let before = fold_parts(init, cs.drop_last());
        let after = fold_parts(init, cs);
        assert forall|i: int| 0 <= i < after.len() implies #[trigger] after[i] != seq!['.'] && after[i] != seq![
            '.',
            '.',
        ] by {
            if i < before.len() {
                assert(after[i] == before[i]);
            }
        }
    }
}

/// Every part is non-empty and holds no `/`.
pub open spec fn plain_parts(parts: Seq<Seq<char>>) -> bool {
    forall|i: int|
        0 <= i < parts.len() ==> #[trigger] parts[i].len() > 0 && forall|j: int|
            0 <= j < parts[i].len() ==> parts[i][j] != '/'
}

proof fn lemma_runs_last(s: Seq<char>, k: CharClass)
    requires
        s.len() > 0,
        in_class(k, s.last()),
    ensures
        runs(s, k).len() > 0,
    decreases s.len(),
{
    if s.len() > 1 && in_class(k, s[s.len() - 2]) {
        assert(s.drop_last().last() == s[s.len() - 2]);
        lemma_runs_last(s.drop_last(), k);
    }
}

/// Runs do not reach across a character outside the class.
proof fn lemma_runs_concat(s1: Seq<char>, s2: Seq<char>, k: CharClass)
    requires
        s1.len() == 0 || !in_class(k, s1.last()),
    ensures
        runs(s1 + s2, k) == runs(s1, k) + runs(s2, k),
    decreases s2.len(),
{
    if s2.len() == 0 {
        assert(s1 + s2 =~= s1);
        assert(runs(s1, k) + runs(s2, k) =~= runs(s1, k));
    } else {
        let t = s1 + s2;
        let s2p = s2.drop_last();
        assert(t.drop_last() =~= s1 + s2p);
        lemma_runs_concat(s1, s2p, k);
        let c = s2.last();
        assert(t.last() == c);
        if t.len() >= 2 {
            if s2.len() >= 2 {
                assert(t[t.len() - 2] == s2[s2.len() - 2]);
            } else {
                assert(t[t.len() - 2] == s1.last());
            }
        }
        if in_class(k, c) && !(t.len() == 1 || !in_class(k, t[t.len() - 2])) {
            assert(s2.len() >= 2);
            assert(s2p.last() == s2[s2.len() - 2]);
            lemma_runs_last(s2p, k);
            let w1 = runs(s1, k);
            let w2 = runs(s2p, k);
            assert((w1 + w2).update((w1 + w2).len() - 1, (w1 + w2).last().push(c)) =~= w1 + w2.update(
                w2.len() - 1,
                w2.last().push(c),
            ));
        } else if in_class(k, c) {
            assert((runs(s1, k) + runs(s2p, k)).push(seq![c]) =~= runs(s1, k) + runs(s2p, k).push(
                seq![c],
            ));
        }
    }
}

/// A trailing `/` adds no part.
proof fn lemma_runs_slash(x: Seq<char>)
    ensures
        path_parts(x + seq!['/']) == path_parts(x),
{
    let t = x + seq!['/'];
    assert(t.drop_last() =~= x);
    assert(t.last() == '/');
}

/// A non-empty string all in the class is one run.
proof fn lemma_runs_single(s: Seq<char>, k: CharClass)
    requires
        s.len() > 0,
        forall|j: int| 0 <= j < s.len() ==> in_class(k, #[trigger] s[j]),
    ensures
        runs(s, k) == seq![s],
    decreases s.len(),
{
    if s.len() == 1 {
        assert(s =~= seq![s.last()]);
        assert(runs(s.drop_last(), k) =~= Seq::<Seq<char>>::empty());
    } else {
        let p = s.drop_last();
        assert(in_class(k, s[s.len() - 2]));
        lemma_runs_single(p, k);
        assert(p.push(s.last()) =~= s);
    }
}

/// Splitting the joined parts at `/` gives the parts back.
proof fn lemma_runs_of_join(parts: Seq<Seq<char>>)
    requires
        plain_parts(parts),
    ensures
        path_parts(join_seq(parts, seq!['/'])) == parts,
    decreases parts.len(),
{
    if parts.len() == 0 {
        assert(path_parts(Seq::empty()) =~= parts);
    } else if parts.len() == 1 {
        assert(parts[0].len() > 0);
        lemma_runs_single(parts[0], CharClass::NonSlash);
        assert(parts =~= seq![parts[0]]);
    } else {
        let ps = parts.drop_last();
        let last = parts.last();
        assert(plain_parts(ps)) by {
            assert forall|i: int| 0 <= i < ps.len() implies #[trigger] ps[i].len() > 0 && forall|j: int|
                0 <= j < ps[i].len() ==> ps[i][j] != '/' by {
                assert(ps[i] == parts[i]);
            }
        }
        lemma_runs_of_join(ps);
        assert(parts[parts.len() - 1].len() > 0);
        let head = join_seq(ps, seq!['/']) + seq!['/'];
        assert(join_seq(parts, seq!['/']) == head + last);
        lemma_runs_concat(head, last, CharClass::NonSlash);
        lemma_runs_slash(join_seq(ps, seq!['/']));
        lemma_runs_single(last, CharClass::NonSlash);
        assert(ps + seq![last] =~= parts);
    }
}

/// The joined text of plain parts does not end with `/`, and it begins with one
/// only when it is empty.
proof fn lemma_runs_tail_free(joined: Seq<char>, parts: Seq<Seq<char>>)
    requires
        plain_parts(parts),
        joined == join_seq(parts, seq!['/']),
    ensures
        joined.len() == 0 <==> parts.len() == 0,
        joined.len() > 0 ==> joined.last() != '/' && joined[0] != '/',
    decreases parts.len(),
{
    if parts.len() == 1 {
        assert(parts[0].len() > 0);
        assert(parts[0][parts[0].len() - 1] != '/');
        assert(parts[0][0] != '/');
    } else if parts.len() > 1 {
        let ps = parts.drop_last();
        assert(plain_parts(ps)) by {
            assert forall|i: int| 0 <= i < ps.len() implies #[trigger] ps[i].len() > 0 && forall|j: int|
                0 <= j < ps[i].len() ==> ps[i][j] != '/' by {
                assert(ps[i] == parts[i]);
            }
        }
        lemma_runs_tail_free(join_seq(ps, seq!['/']), ps);
        let last = parts[parts.len() - 1];
        assert(last.len() > 0);
        assert(last[last.len() - 1] != '/');
    }
}

/// Parts split from a text are plain.
proof fn lemma_runs_plain(s: Seq<char>)
    ensures
        plain_parts(path_parts(s)),
    decreases s.len(),
{
    if s.len() > 0 {
        lemma_runs_plain(s.drop_last());
        let w = path_parts(s.drop_last());
        let c = s.last();
        let r = path_parts(s);
        if c != '/' && !(s.len() == 1 || s[s.len() - 2] == '/') {
            assert(s.drop_last().last() == s[s.len() - 2]);
            lemma_runs_last(s.drop_last(), CharClass::NonSlash);
            assert forall|i: int| 0 <= i < r.len() implies #[trigger] r[i].len() > 0 && forall|j: int|
                0 <= j < r[i].len() ==> r[i][j] != '/' by {
                if i < r.len() - 1 {
                    assert(r[i] == w[i]);
                } else {
                    assert(r[i] == w.last().push(c));
                    assert(w[w.len() - 1] == w.last());
                    assert forall|j: int| 0 <= j < r[i].len() implies r[i][j] != '/' by {
                        if j < w.last().len() {
                            assert(r[i][j] == w[w.len() - 1][j]);
                        }
                    }
                }
            }
        } else if c != '/' {
            assert forall|i: int| 0 <= i < r.len() implies #[trigger] r[i].len() > 0 && forall|j: int|
                0 <= j < r[i].len() ==> r[i][j] != '/' by {
                if i < r.len() - 1 {
                    assert(r[i] == w[i]);
                } else {
                    assert(r[i] == seq![c]);
                }
            }
        }
    }
}

/// Normalizing keeps plain parts plain.
proof fn lemma_fold_plain(init: Seq<Seq<char>>, cs: Seq<Seq<char>>)
    requires
        plain_parts(init),
        plain_parts(cs),
    ensures
        plain_parts(fold_parts(init, cs)),
    decreases cs.len(),
{
    if cs.len() > 0 {
        let csp = cs.drop_last();
        assert(plain_parts(csp)) by {
            assert forall|i: int| 0 <= i < csp.len() implies #[trigger] csp[i].len() > 0 && forall|j: int|
                0 <= j < csp[i].len() ==> csp[i][j] != '/' by {
                assert(csp[i] == cs[i]);
            }
        }
        lemma_fold_plain(init, csp);
        let before = fold_parts(init, csp);
        let after = fold_parts(init, cs);
        assert(cs[cs.len() - 1] == cs.last());
        assert forall|i: int| 0 <= i < after.len() implies #[trigger] after[i].len() > 0 && forall|j: int|
            0 <= j < after[i].len() ==> after[i][j] != '/' by {
            if i < before.len() {
                assert(after[i] == before[i]);
            } else {
                assert(after[i] == cs.last());
            }
        }
    }
}

/// Parts without `.` or `..` are already normal.
proof fn lemma_fold_plain_identity(parts: Seq<Seq<char>>)
    requires
        no_dot_parts(parts),
    ensures
        fold_parts(Seq::empty(), parts) == parts,
    decreases parts.len(),
{
    if parts.len() > 0 {
        let ps = parts.drop_last();
        assert(no_dot_parts(ps)) by {
            assert forall|i: int| 0 <= i < ps.len() implies #[trigger] ps[i] != seq!['.'] && ps[i] != seq![
                '.',
                '.',
            ] by {
                assert(ps[i] == parts[i]);
            }
        }
        lemma_fold_plain_identity(ps);
        assert(parts[parts.len() - 1] == parts.last());
        assert(ps.push(parts.last()) =~= parts);
    }
}

/// Lexical normalization is idempotent: the displayed text of a normalized
/// path normalizes to the same path, which has no `.` or `..` part and keeps
/// whether it starts at the root.
pub proof fn law_lexical_normalize_is_idempotent(path: Seq<char>)
    ensures
        ({
            let m = (is_absolute_seq(path), fold_parts(Seq::empty(), path_parts(path)));
            &&& no_dot_parts(m.1)
            &&& (is_absolute_seq(path_text(m)), fold_parts(Seq::empty(), path_parts(path_text(m)))) == m
        }),
{
    let parts = fold_parts(Seq::empty(), path_parts(path));
    let m = (is_absolute_seq(path), parts);
    law_normalized_parts_are_plain(Seq::empty(), path_parts(path));
    lemma_runs_plain(path);
    lemma_fold_plain(Seq::empty(), path_parts(path));
    let joined = join_seq(parts, seq!['/']);
    lemma_runs_tail_free(joined, parts);
    lemma_runs_of_join(parts);
    lemma_fold_plain_identity(parts);
    if m.0 {
        assert(path_text(m) == seq!['/'] + joined);
        lemma_runs_concat(seq!['/'], joined, CharClass::NonSlash);
        lemma_runs_slash(Seq::empty());
        assert(Seq::<char>::empty() + seq!['/'] =~= seq!['/']);
        assert(path_parts(Seq::<char>::empty()) =~= Seq::<Seq<char>>::empty());
        assert(Seq::<Seq<char>>::empty() + parts =~= parts);
    } else {
        assert(path_text(m) =~= joined);
    }
}

} // verus!
