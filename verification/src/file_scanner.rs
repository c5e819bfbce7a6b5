//! The file scanner's decisions: which directory entries it takes for comic
//! archives, the title and content hash of a file, and whether a file
//! duplicates an archive already in the library.
use crate::semantic_edges::{format_hash, hex_of, sha256, sha256_digest};
use crate::text::{contains_str, lowercase, owned, strings_of, to_lowercase};
use crate::trash::{file_name_of, path_file_name};
use vstd::prelude::*;

verus! {

/// What the scanner looks for: whether it descends into directories, whether
/// it skips hidden ones, and the (lower-case) extensions of comic archives.
#[derive(Debug)]
pub struct ScanConfig {
    pub recursive: bool,
    pub ignore_hidden: bool,
    pub file_extensions: Vec<String>,
}

/// A scanned file: where it is, its title, size and content hash, and whether
/// it duplicates an archive already in the library.
#[derive(Debug)]
pub struct ScanResult {
    pub path: String,
    pub title: String,
    pub file_size: u64,
    pub hash: String,
    pub is_duplicate: bool,
    pub duplicate_reason: Option<String>,
}

/// The index of the last `.` in a file name.
pub open spec fn last_dot(name: Seq<char>) -> Option<int>
    decreases name.len(),
{
    if name.len() == 0 {
        None
    } else if name.last() == '.' {
        Some(name.len() - 1)
    } else {
        last_dot(name.drop_last())
    }
}

/// `Path::extension` of a file name: what follows its last `.`, unless there
/// is no `.` or the only one starts the name.
pub open spec fn name_extension(name: Seq<char>) -> Option<Seq<char>> {
    match last_dot(name) {
        Some(i) => if i > 0 {
            Some(name.subrange(i + 1, name.len() as int))
        } else {
            None
        },
        None => None,
    }
}

/// `Path::file_stem` of a file name: what precedes its last `.`, or the whole
/// name when there is no `.` or the only one starts the name.
pub open spec fn name_stem(name: Seq<char>) -> Seq<char> {
    match last_dot(name) {
        Some(i) => if i > 0 {
            name.subrange(0, i)
        } else {
            name
        },
        None => name,
    }
}

proof fn lemma_last_dot(name: Seq<char>)
    ensures
        match last_dot(name) {
            Some(i) => 0 <= i < name.len() && name[i] == '.' && forall|k: int| i < k < name.len() ==> name[k] != '.',
            None => forall|k: int| 0 <= k < name.len() ==> name[k] != '.',
        },
    decreases name.len(),
{
    if name.len() > 0 && name.last() != '.' {
        let d = name.drop_last();
        lemma_last_dot(d);
        assert forall|k: int| 0 <= k < d.len() implies d[k] == name[k] by {}
    }
}

fn find_last_dot(name: &Vec<char>) -> (r: Option<usize>)
    ensures
        match r {
            Some(i) => last_dot(name@) == Some(i as int),
            None => last_dot(name@) is None,
        },
{
    let mut j: usize = name.len();
    while j > 0
        invariant
            j <= name@.len(),
            forall|k: int| j <= k < name@.len() ==> name@[k] != '.',
        decreases j,
    {
        if name[j - 1] == '.' {
            proof {
                lemma_last_dot(name@);
                match last_dot(name@) {
                    Some(i) => {
                        if i < j - 1 {
                            assert(name@[j - 1] != '.');
                        }
                    },
                    None => {
                        assert(name@[j - 1] != '.');
                    },
                }
            }
            return Some(j - 1);
        }
        j = j - 1;
    }
    proof {
        lemma_last_dot(name@);
        if let Some(i) = last_dot(name@) {
            assert(name@[i] != '.');
        }
    }
    None
}

/// The file name of a path (`Path::file_name`), then its extension.
pub open spec fn path_extension(path: Seq<char>) -> Option<Seq<char>> {
    match path_file_name(path) {
        Some(name) => name_extension(name),
        None => None,
    }
}

/// Whether the scanner takes a file for a comic archive: its extension, lower
/// cased, is one of the configured ones.
pub open spec fn supported_format(extensions: Seq<Seq<char>>, path: Seq<char>) -> bool {
    match path_extension(path) {
        Some(e) => extensions.contains(lowercase(e)),
        None => false,
    }
}

pub fn is_supported_format(config: &ScanConfig, path: &str) -> (r: bool)
    ensures
        r == supported_format(strings_of(config.file_extensions@), path@),
{
    match file_name_of(path) {
        Some(name) => {
            let chars = crate::text::chars_of(name.as_str());
            match find_last_dot(&chars) {
                Some(i) => {
                    proof {
                        lemma_last_dot(chars@);
                        assert(last_dot(chars@) == Some(i as int));
                        assert(i < chars@.len());
                    }
                    if i > 0 {
                        let ext = crate::text::string_from_range(&chars, i + 1, chars.len());
                        let lowered = to_lowercase(ext.as_str());
                        contains_str(&config.file_extensions, lowered.as_str())
                    } else {
                        false
                    }
                },
                None => false,
            }
        },
        None => false,
    }
}

/// The title of an archive file: the stem of its file name, `Unknown` for a
/// path without file name.
pub open spec fn title_of_path(path: Seq<char>) -> Seq<char> {
    match path_file_name(path) {
        Some(name) => name_stem(name),
        None => "Unknown"@,
    }
}

pub fn extract_title_from_path(path: &str) -> (r: String)
    ensures
        r@ == title_of_path(path@),
{
    match file_name_of(path) {
        Some(name) => {
            let chars = crate::text::chars_of(name.as_str());
            match find_last_dot(&chars) {
                Some(i) => {
                    proof {
                        lemma_last_dot(chars@);
                    }
                    if i > 0 {
                        crate::text::string_from_range(&chars, 0, i)
                    } else {
                        name
                    }
                },
                None => name,
            }
        },
        None => owned("Unknown"),
    }
}

/// The content hash of a file: its SHA-256 digest in lowercase hexadecimal.
pub fn content_hash(content: &[u8]) -> (r: String)
    ensures
        r@ == hex_of(sha256(content@)),
{
    let digest = sha256_digest(content);
    format_hash(digest.as_slice())
}

/// What the scanner does with an entry of a directory it lists.
#[derive(Debug, Clone, Copy, PartialEq, Eq, Structural)]
pub enum ScanEntryAction {
    Descend,
    Include,
    Skip,
}

/// A name that starts with `.`.
pub open spec fn hidden_name(path: Seq<char>) -> bool {
    match path_file_name(path) {
        Some(name) => name.len() > 0 && name[0] == '.',
        None => false,
    }
}

/// A recursive scan descends into directories (but hidden ones when those
/// are ignored) and takes every other entry in a supported format; a flat
/// scan takes the files in a supported format.
pub open spec fn entry_action(
    recursive: bool,
    ignore_hidden: bool,
    extensions: Seq<Seq<char>>,
    path: Seq<char>,
    is_dir: bool,
    is_file: bool,
) -> ScanEntryAction {
    if recursive {
        if is_dir {
            if ignore_hidden && hidden_name(path) {
                ScanEntryAction::Skip
            } else {
                ScanEntryAction::Descend
            }
        } else if supported_format(extensions, path) {
            ScanEntryAction::Include
        } else {
            ScanEntryAction::Skip
        }
    } else if is_file && supported_format(extensions, path) {
        ScanEntryAction::Include
    } else {
        ScanEntryAction::Skip
    }
}

pub fn scan_entry_action(config: &ScanConfig, path: &str, is_dir: bool, is_file: bool) -> (r: ScanEntryAction)
    ensures
        r == entry_action(
            config.recursive,
            config.ignore_hidden,
            strings_of(config.file_extensions@),
            path@,
            is_dir,
            is_file,
        ),
{
    if config.recursive {
        if is_dir {
            let hidden = match file_name_of(path) {
                Some(name) => {
                    let chars = crate::text::chars_of(name.as_str());
                    chars.len() > 0 && chars[0] == '.'
                },
                None => false,
            };
            if config.ignore_hidden && hidden {
                ScanEntryAction::Skip
            } else {
                ScanEntryAction::Descend
            }
        } else if is_supported_format(config, path) {
            ScanEntryAction::Include
        } else {
            ScanEntryAction::Skip
        }
    } else if is_file && is_supported_format(config, path) {
        ScanEntryAction::Include
    } else {
        ScanEntryAction::Skip
    }
}

/// In a recursive scan every directory is descended into, hidden or not,
/// unless hidden entries are ignored; then exactly the directories whose name
/// starts with `.` are skipped. A flat scan never descends.
pub proof fn law_recursive_scans_descend_into_directories(
    ignore_hidden: bool,
    extensions: Seq<Seq<char>>,
    path: Seq<char>,
    is_file: bool,
)
    ensures
        entry_action(true, false, extensions, path, true, is_file) == ScanEntryAction::Descend,
        (path_file_name(path) matches Some(name) && name.len() > 0 && name[0] == '.') ==> entry_action(
            true,
            true,
            extensions,
            path,
            true,
            is_file,
        ) == ScanEntryAction::Skip,
        !(path_file_name(path) matches Some(name) && name.len() > 0 && name[0] == '.') ==> entry_action(
            true,
            ignore_hidden,
            extensions,
            path,
            true,
            is_file,
        ) == ScanEntryAction::Descend,
        entry_action(false, ignore_hidden, extensions, path, true, is_file) != ScanEntryAction::Descend,
        supported_format(extensions, path) ==> entry_action(true, ignore_hidden, extensions, path, false, is_file)
            == ScanEntryAction::Include && entry_action(false, ignore_hidden, extensions, path, false, true)
            == ScanEntryAction::Include,
        !supported_format(extensions, path) ==> entry_action(true, ignore_hidden, extensions, path, false, is_file)
            == ScanEntryAction::Skip && entry_action(false, ignore_hidden, extensions, path, is_file, is_file)
            == ScanEntryAction::Skip,
        entry_action(false, ignore_hidden, extensions, path, true, false) == ScanEntryAction::Skip,
{
}

/// The pattern by which a title counts as seen before: any title containing it.
pub fn duplicate_title_pattern(title: &str) -> (r: String)
    ensures
        r@ == "%"@ + title@ + "%"@,
{
    let mut s = owned("%");
    s.append(title);
    s.append("%");
    s
}

impl ScanResult {
    /// The result of scanning a file, given whether an archive with the same
    /// content hash or a like title exists; a duplicate says why.
    pub fn new(path: &str, title: String, file_size: u64, hash: String, is_duplicate: bool) -> (r: Self)
        ensures
            r.path@ == path@,
            r.title == title,
            r.file_size == file_size,
            r.hash == hash,
            r.is_duplicate == is_duplicate,
            match r.duplicate_reason {
                Some(reason) => is_duplicate && reason@ == "Content hash match"@,
                None => !is_duplicate,
            },
    {
        let duplicate_reason = if is_duplicate {
            Some(owned("Content hash match"))
        } else {
            None
        };
        ScanResult { path: owned(path), title, file_size, hash, is_duplicate, duplicate_reason }
    }
}

} // verus!
