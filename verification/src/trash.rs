//! Trash rules: SQL identifier quoting for snapshot statements, where a
//! trashed file is kept, the cleanup batch size, and the cleanup report.
use crate::text::{push_char, str_eq};
use vstd::prelude::*;

verus! {

/// At most this many expired entries are cleaned up per run.
pub const TRASH_CLEANUP_BATCH_SIZE: u32 = 100;

/// The directory, next to a trashed file, that holds it.
pub const TRASH_DIR_NAME: &'static str = ".otamoryx-trash";

// ---------------------------------------------------------------------------
// Identifier quoting
// ---------------------------------------------------------------------------
/// One character of an identifier inside double quotes: `"` is doubled.
pub open spec fn escaped_char(c: char) -> Seq<char> {
    if c == '"' {
        seq!['"', '"']
    } else {
        seq![c]
    }
}

pub open spec fn escaped(s: Seq<char>) -> Seq<char>
    decreases s.len(),
{
    if s.len() == 0 {
        Seq::empty()
    } else {
        escaped_char(s[0]) + escaped(s.drop_first())
    }
}

/// The identifier as an SQL quoted identifier.
pub open spec fn quoted_identifier(s: Seq<char>) -> Seq<char> {
    seq!['"'] + escaped(s) + seq!['"']
}

/// Reads an escaped identifier body back: `""` stands for `"`.
pub open spec fn unescaped(t: Seq<char>) -> Seq<char>
    decreases t.len(),
{
    if t.len() >= 2 && t[0] == '"' && t[1] == '"' {
        seq!['"'] + unescaped(t.skip(2))
    } else if t.len() == 0 {
        Seq::empty()
    } else {
        seq![t[0]] + unescaped(t.drop_first())
    }
}

proof fn lemma_escaped_concat(a: Seq<char>, b: Seq<char>)
    ensures
        escaped(a + b) == escaped(a) + escaped(b),
    decreases a.len(),
{
    if a.len() == 0 {
        assert(a + b =~= b);
    } else {
        lemma_escaped_concat(a.drop_first(), b);
        assert((a + b).drop_first() =~= a.drop_first() + b);
        assert((a + b)[0] == a[0]);
    }
}

/// `identifier` in double quotes with its double quotes doubled, so that
/// SQLite reads it back as the same name.
pub fn quote_identifier(identifier: &str) -> (r: String)
    ensures
        r@ == quoted_identifier(identifier@),
{
    let chars = crate::text::chars_of(identifier);
    let mut out = String::new();
    push_char(&mut out, '"');
    let mut i: usize = 0;
    while i < chars.len()
        invariant
            i <= chars@.len(),
            out@ == seq!['"'] + escaped(chars@.take(i as int)),
        decreases chars@.len() - i,
    {
        let c = chars[i];
        if c == '"' {
            push_char(&mut out, '"');
            push_char(&mut out, '"');
        } else {
            push_char(&mut out, c);
        }
        proof {
            lemma_escaped_concat(chars@.take(i as int), seq![c]);
            assert(chars@.take(i + 1) =~= chars@.take(i as int) + seq![c]);
            assert(escaped(seq![c]) =~= escaped_char(c)) by {
                assert(seq![c].drop_first() =~= Seq::<char>::empty());
                assert(escaped(Seq::<char>::empty()) == Seq::<char>::empty());
                assert(seq![c][0] == c);
            }
        }
        i = i + 1;
    }
    push_char(&mut out, '"');
    assert(chars@.take(chars@.len() as int) =~= chars@);
    out
}

// ---------------------------------------------------------------------------
// Trash paths
// ---------------------------------------------------------------------------
/// What `Path::parent` gives for a path, as text.
pub uninterp spec fn path_parent(path: Seq<char>) -> Option<Seq<char>>;

/// What `Path::file_name` gives for a path, as text.
pub uninterp spec fn path_file_name(path: Seq<char>) -> Option<Seq<char>>;

/// What `Path::join` gives for a base path and a relative part, as text.
pub uninterp spec fn path_join(base: Seq<char>, part: Seq<char>) -> Seq<char>;

pub open spec fn opt_string_view(v: Option<String>) -> Option<Seq<char>> {
    match v {
        Some(s) => Some(s@),
        None => None,
    }
}

/// Calls `std::path::Path::parent`; the contract names its result.
#[verifier::external_body]
fn parent_of(path: &str) -> (r: Option<String>)
    ensures
        opt_string_view(r) == path_parent(path@),
{
    std::path::Path::new(path).parent().map(|p| p.to_string_lossy().into_owned())
}

/// Calls `std::path::Path::file_name`; the contract names its result.
#[verifier::external_body]
pub(crate) fn file_name_of(path: &str) -> (r: Option<String>)
    ensures
        opt_string_view(r) == path_file_name(path@),
{
    std::path::Path::new(path).file_name().map(|n| n.to_string_lossy().into_owned())
}

/// Calls `std::path::Path::join`; the contract names its result.
#[verifier::external_body]
fn joined_path(base: &str, part: &str) -> (r: String)
    ensures
        r@ == path_join(base@, part@),
{
    std::path::Path::new(base).join(part).to_string_lossy().into_owned()
}

/// Why a trash path cannot be formed.
#[derive(Debug, Clone, Copy, PartialEq, Eq, Structural)]
pub enum TrashPathError {
    NoParentDirectory,
    NoFileName,
}

impl TrashPathError {
    pub fn message(&self) -> (r: &'static str)
        ensures
            r@ == match self {
                TrashPathError::NoParentDirectory => "archive path has no parent directory"@,
                TrashPathError::NoFileName => "archive path has no file name"@,
            },
    {
        match self {
            TrashPathError::NoParentDirectory => "archive path has no parent directory",
            TrashPathError::NoFileName => "archive path has no file name",
        }
    }
}

/// Where a trashed file is kept: `<parent>/.otamoryx-trash/<entry id>-<file name>`.
pub open spec fn trash_location(original_path: Seq<char>, entry_id: Seq<char>) -> Result<Seq<char>, TrashPathError> {
    match path_parent(original_path) {
        None => Err(TrashPathError::NoParentDirectory),
        Some(parent) => match path_file_name(original_path) {
            None => Err(TrashPathError::NoFileName),
            Some(name) => Ok(
                path_join(path_join(parent, TRASH_DIR_NAME@), entry_id + seq!['-'] + name),
            ),
        },
    }
}

pub fn trash_path_for(original_path: &str, entry_id: &str) -> (r: Result<String, TrashPathError>)
    ensures
        match r {
            Ok(p) => trash_location(original_path@, entry_id@) == Ok::<Seq<char>, TrashPathError>(p@),
            Err(e) => trash_location(original_path@, entry_id@) == Err::<Seq<char>, TrashPathError>(e),
        },
{
    let parent = match parent_of(original_path) {
        Some(p) => p,
        None => return Err(TrashPathError::NoParentDirectory),
    };
    let file_name = match file_name_of(original_path) {
        Some(n) => n,
        None => return Err(TrashPathError::NoFileName),
    };
    let dir = joined_path(parent.as_str(), TRASH_DIR_NAME);
    let mut leaf = String::from_str(entry_id);
    push_char(&mut leaf, '-');
    leaf.append(file_name.as_str());
    assert(leaf@ =~= entry_id@ + seq!['-'] + file_name@);
    let r = joined_path(dir.as_str(), leaf.as_str());
    assert(path_parent(original_path@) == Some(parent@));
    assert(path_file_name(original_path@) == Some(file_name@));
    Ok(r)
}

// ---------------------------------------------------------------------------
// Cleanup
// ---------------------------------------------------------------------------
/// The number of entries one cleanup run looks at: the request, kept within 1
/// and the batch size.
pub fn cleanup_batch_limit(limit: u32) -> (r: u32)
    ensures
        r == if limit < 1 {
            1
        } else if limit > TRASH_CLEANUP_BATCH_SIZE {
            TRASH_CLEANUP_BATCH_SIZE
        } else {
            limit
        },
{
    if limit < 1 {
        1
    } else if limit > TRASH_CLEANUP_BATCH_SIZE {
        TRASH_CLEANUP_BATCH_SIZE
    } else {
        limit
    }
}

/// What became of a claimed entry's file.
#[derive(Debug, Clone, Copy, PartialEq, Eq, Structural)]
pub enum TrashFileCleanupResult {
    Deleted,
    Missing,
}

#[derive(Debug, Clone, Copy, PartialEq, Eq, Structural)]
pub struct TrashCleanupReport {
    pub claimed: u32,
    pub deleted_files: u32,
    pub missing_files: u32,
    pub failed: u32,
}

impl Default for TrashCleanupReport {
    fn default() -> (r: Self)
        ensures
            r == (TrashCleanupReport { claimed: 0, deleted_files: 0, missing_files: 0, failed: 0 }),
    {
        TrashCleanupReport { claimed: 0, deleted_files: 0, missing_files: 0, failed: 0 }
    }
}

/// The report after one more claimed entry: its file was deleted, was
/// missing, or could not be removed (`Err`); a removed or missing file whose
/// entry could not be finalized also counts as a failure.
pub open spec fn report_after(
    r: TrashCleanupReport,
    file: Result<TrashFileCleanupResult, ()>,
    finalized: bool,
) -> TrashCleanupReport {
    let claimed = TrashCleanupReport { claimed: (r.claimed + 1) as u32, ..r };
    match file {
        Ok(TrashFileCleanupResult::Deleted) => TrashCleanupReport {
            deleted_files: (r.deleted_files + 1) as u32,
            failed: if finalized {
                r.failed
            } else {
                (r.failed + 1) as u32
            },
            ..claimed
        },
        Ok(TrashFileCleanupResult::Missing) => TrashCleanupReport {
            missing_files: (r.missing_files + 1) as u32,
            failed: if finalized {
                r.failed
            } else {
                (r.failed + 1) as u32
            },
            ..claimed
        },
        Err(()) => TrashCleanupReport { failed: (r.failed + 1) as u32, ..claimed },
    }
}

impl TrashCleanupReport {
    /// Counts one claimed entry (see `report_after`).
    pub fn record(&mut self, file: Result<TrashFileCleanupResult, ()>, finalized: bool)
        requires
            old(self).claimed < u32::MAX,
            old(self).deleted_files < u32::MAX,
            old(self).missing_files < u32::MAX,
            old(self).failed < u32::MAX,
        ensures
            *final(self) == report_after(*old(self), file, finalized),
    {
        self.claimed = self.claimed + 1;
        match file {
            Ok(TrashFileCleanupResult::Deleted) => {
                self.deleted_files = self.deleted_files + 1;
                if !finalized {
                    self.failed = self.failed + 1;
                }
            },
            Ok(TrashFileCleanupResult::Missing) => {
                self.missing_files = self.missing_files + 1;
                if !finalized {
                    self.failed = self.failed + 1;
                }
            },
            Err(()) => {
                self.failed = self.failed + 1;
            },
        }
    }
}

// ---------------------------------------------------------------------------
// Laws
// ---------------------------------------------------------------------------
/// Quoting can be undone: the quoted identifier is the original between double
/// quotes, and reading its body back gives the original.
pub proof fn law_quoting_round_trips(s: Seq<char>)
    ensures
        unescaped(escaped(s)) == s,
        quoted_identifier(s).len() >= 2,
        quoted_identifier(s)[0] == '"',
        quoted_identifier(s).last() == '"',
    decreases s.len(),
{
    if s.len() > 0 {
        law_quoting_round_trips(s.drop_first());
        let t = escaped(s);
        assert(t == escaped_char(s[0]) + escaped(s.drop_first()));
        if s[0] == '"' {
            assert(t.skip(2) =~= escaped(s.drop_first()));
        } else {
            assert(t.drop_first() =~= escaped(s.drop_first()));
        }
        assert(s =~= seq![s[0]] + s.drop_first());
    }
}

/// Every claimed entry is counted once as deleted, missing or failed, and
/// failures after a removal come on top: the file outcomes never exceed the
/// claims.
pub proof fn law_report_accounts_for_claims(
    r: TrashCleanupReport,
    file: Result<TrashFileCleanupResult, ()>,
    finalized: bool,
)
    requires
        r.claimed < u32::MAX,
        r.deleted_files < u32::MAX,
        r.missing_files < u32::MAX,
        r.failed < u32::MAX,
    ensures
        report_after(r, file, finalized).claimed == r.claimed + 1,
        report_after(r, file, finalized).deleted_files + report_after(r, file, finalized).missing_files
            + (if file is Err { report_after(r, file, finalized).failed - r.failed } else { 0 })
            == r.deleted_files + r.missing_files + 1,
{
}

} // verus!
