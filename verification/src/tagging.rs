//! Rules of the AI tag suggestion workflow: what a tagging run needs, how a
//! suggested tag is normalized, which evidence is traceable enough for
//! automatic application, what a review applies, and how undoing a run is
//! counted.
use crate::json::{json_get, json_i64, json_str, JsonValue};
use crate::text::{
    collapse_whitespace, collapse_ws_seq, is_blank, is_blank_seq, lowercase, str_eq, to_lowercase,
    trim_seq,
};
use vstd::prelude::*;

verus! {

pub const DEFAULT_NAMESPACE: &'static str = "general";

pub const MAX_TAG_NAME_CHARS: usize = 255;

pub const MAX_NAMESPACE_CHARS: usize = 128;

#[derive(Debug)]
pub struct CreateTaggingRun {
    pub archive_id: String,
    pub analysis_id: Option<String>,
    pub job_id: Option<String>,
    pub content_fingerprint: String,
    pub provider: Option<String>,
    pub model: Option<String>,
}

#[derive(Debug)]
pub struct TaggingRun {
    pub id: String,
    pub archive_id: String,
    pub analysis_id: Option<String>,
    pub job_id: Option<String>,
    pub content_fingerprint: String,
    pub provider: Option<String>,
    pub model: Option<String>,
    pub status: String,
    pub created_at: String,
    pub completed_at: Option<String>,
}

#[derive(Debug, Clone, Copy, PartialEq, Eq, Structural)]
pub enum TagSuggestionReviewAction {
    Approve,
    Reject,
    Edit,
}

#[derive(Debug)]
pub struct ReviewTagSuggestion {
    pub action: TagSuggestionReviewAction,
    pub reviewed_by: Option<String>,
    /// Required for `Edit`; ignored for `Approve` and `Reject`.
    pub edited_name: Option<String>,
    /// Falls back to the suggested namespace for `Edit`.
    pub edited_namespace: Option<String>,
}

#[derive(Debug)]
pub struct AppliedTag {
    pub application_id: String,
    pub tag_id: String,
    pub name: String,
    pub namespace: String,
    pub created_archive_tag: bool,
}

#[derive(Debug)]
pub struct UndoTaggingRunResult {
    pub run_id: String,
    pub applications_undone: usize,
    pub archive_tags_removed: usize,
    pub archive_tags_preserved: usize,
}

#[derive(Debug)]
pub struct AutoApplyTaggingRunResult {
    pub run_id: String,
    pub suggestions_applied: usize,
    pub archive_tags_created: usize,
    pub archive_tags_already_present: usize,
}

impl Default for UndoTaggingRunResult {
    fn default() -> (r: Self)
        ensures
            r.run_id@.len() == 0,
            r.applications_undone == 0,
            r.archive_tags_removed == 0,
            r.archive_tags_preserved == 0,
    {
        UndoTaggingRunResult {
            run_id: String::new(),
            applications_undone: 0,
            archive_tags_removed: 0,
            archive_tags_preserved: 0,
        }
    }
}

impl Default for AutoApplyTaggingRunResult {
    fn default() -> (r: Self)
        ensures
            r.run_id@.len() == 0,
            r.suggestions_applied == 0,
            r.archive_tags_created == 0,
            r.archive_tags_already_present == 0,
    {
        AutoApplyTaggingRunResult {
            run_id: String::new(),
            suggestions_applied: 0,
            archive_tags_created: 0,
            archive_tags_already_present: 0,
        }
    }
}

/// Why a tagging request was refused.
#[derive(Debug, Clone, Copy, PartialEq, Eq, Structural)]
pub enum TaggingError {
    MissingArchiveId,
    MissingContentFingerprint,
    InvalidName,
    InvalidNamespace,
    MissingEditedName,
    RunNotFound,
    SuggestionNotFound,
    AlreadyReviewed,
}

pub open spec fn tagging_error_text(e: TaggingError) -> Seq<char> {
    match e {
        TaggingError::MissingArchiveId => "AI tagging run requires an archive id"@,
        TaggingError::MissingContentFingerprint => "AI tagging run requires a content fingerprint"@,
        TaggingError::InvalidName => "AI tag suggestion has an invalid name"@,
        TaggingError::InvalidNamespace => "AI tag suggestion has an invalid namespace"@,
        TaggingError::MissingEditedName => "an edited tag name is required"@,
        TaggingError::RunNotFound => "AI tagging run not found"@,
        TaggingError::SuggestionNotFound => "AI tag suggestion not found"@,
        TaggingError::AlreadyReviewed => "AI tag suggestion has already been reviewed"@,
    }
}

impl TaggingError {
    pub fn message(&self) -> (r: &'static str)
        ensures
            r@ == tagging_error_text(*self),
    {
        match self {
            TaggingError::MissingArchiveId => "AI tagging run requires an archive id",
            TaggingError::MissingContentFingerprint => "AI tagging run requires a content fingerprint",
            TaggingError::InvalidName => "AI tag suggestion has an invalid name",
            TaggingError::InvalidNamespace => "AI tag suggestion has an invalid namespace",
            TaggingError::MissingEditedName => "an edited tag name is required",
            TaggingError::RunNotFound => "AI tagging run not found",
            TaggingError::SuggestionNotFound => "AI tag suggestion not found",
            TaggingError::AlreadyReviewed => "AI tag suggestion has already been reviewed",
        }
    }
}

/// The namespace of a suggestion that names none.
pub fn default_namespace() -> (r: String)
    ensures
        r@ == DEFAULT_NAMESPACE@,
{
    String::from_str(DEFAULT_NAMESPACE)
}

/// A run needs an archive id and a content fingerprint (not blank).
pub fn validate_run(input: &CreateTaggingRun) -> (r: Result<(), TaggingError>)
    ensures
        r == if is_blank_seq(input.archive_id@) {
            Err(TaggingError::MissingArchiveId)
        } else if is_blank_seq(input.content_fingerprint@) {
            Err(TaggingError::MissingContentFingerprint)
        } else {
            Ok(())
        },
{
    if is_blank(input.archive_id.as_str()) {
        return Err(TaggingError::MissingArchiveId);
    }
    if is_blank(input.content_fingerprint.as_str()) {
        return Err(TaggingError::MissingContentFingerprint);
    }
    Ok(())
}

/// An optional text with its whitespace collapsed; `None` when nothing is left.
pub open spec fn cleaned(value: Option<String>) -> Option<Seq<char>> {
    match value {
        Some(v) => if collapse_ws_seq(v@).len() > 0 {
            Some(collapse_ws_seq(v@))
        } else {
            None
        },
        None => None,
    }
}

pub fn clean_optional(value: Option<String>) -> (r: Option<String>)
    ensures
        match r {
            Some(s) => cleaned(value) == Some(s@),
            None => cleaned(value) is None,
        },
{
    match value {
        Some(v) => {
            let c = collapse_whitespace(v.as_str());
            if c.as_str().unicode_len() > 0 {
                Some(c)
            } else {
                None
            }
        },
        None => None,
    }
}

/// A tag's identity: the display name (whitespace collapsed), the name
/// compared in lowercase, and the lowercase namespace.
#[derive(Debug)]
pub struct NormalizedTagIdentity {
    pub display_name: String,
    pub normalized_name: String,
    pub namespace: String,
}

/// The outcome of normalizing a suggested name and namespace.
pub open spec fn tag_identity(name: Seq<char>, namespace: Seq<char>) -> Result<
    (Seq<char>, Seq<char>, Seq<char>),
    TaggingError,
> {
    let display = collapse_ws_seq(name);
    let ns = collapse_ws_seq(namespace);
    if display.len() == 0 || display.len() > MAX_TAG_NAME_CHARS {
        Err(TaggingError::InvalidName)
    } else if ns.len() == 0 || ns.len() > MAX_NAMESPACE_CHARS {
        Err(TaggingError::InvalidNamespace)
    } else {
        Ok((display, lowercase(display), lowercase(ns)))
    }
}

pub fn normalize_tag_identity(name: &str, namespace: &str) -> (r: Result<NormalizedTagIdentity, TaggingError>)
    ensures
        match r {
            Ok(t) => tag_identity(name@, namespace@) == Ok::<_, TaggingError>(
                (t.display_name@, t.normalized_name@, t.namespace@),
            ),
            Err(e) => tag_identity(name@, namespace@) == Err::<(Seq<char>, Seq<char>, Seq<char>), _>(e),
        },
{
    let display_name = collapse_whitespace(name);
    let ns = collapse_whitespace(namespace);
    let name_len = display_name.as_str().unicode_len();
    if name_len == 0 || name_len > MAX_TAG_NAME_CHARS {
        return Err(TaggingError::InvalidName);
    }
    let ns_len = ns.as_str().unicode_len();
    if ns_len == 0 || ns_len > MAX_NAMESPACE_CHARS {
        return Err(TaggingError::InvalidNamespace);
    }
    let normalized_name = to_lowercase(display_name.as_str());
    let namespace = to_lowercase(ns.as_str());
    Ok(NormalizedTagIdentity { display_name, normalized_name, namespace })
}

// ---------------------------------------------------------------------------
// Evidence
// ---------------------------------------------------------------------------
pub open spec fn text_present(v: Option<JsonValue>) -> bool {
    match v {
        Some(x) => match json_str(x) {
            Some(s) => !is_blank_seq(s),
            None => false,
        },
        None => false,
    }
}

/// An evidence item can be traced back: a non-blank string, or an object with
/// a non-blank reason, excerpt, text or summary and a positive page or a
/// non-blank source.
pub open spec fn item_traceable(item: JsonValue) -> bool {
    match item {
        JsonValue::String(s) => !is_blank_seq(s@),
        JsonValue::Object(_) => {
            let detail = text_present(json_get(item, "reason"@)) || text_present(json_get(item, "excerpt"@))
                || text_present(json_get(item, "text"@)) || text_present(json_get(item, "summary"@));
            let page = match json_get(item, "page"@) {
                Some(p) => match json_i64(p) {
                    Some(n) => n > 0,
                    None => false,
                },
                None => false,
            };
            let source = text_present(json_get(item, "source"@));
            detail && (page || source)
        },
        _ => false,
    }
}

/// Evidence supports automatic application when it is a non-blank string, an
/// array with a traceable item, or a traceable object.
pub open spec fn evidence_supports(evidence: JsonValue) -> bool {
    match evidence {
        JsonValue::String(s) => !is_blank_seq(s@),
        JsonValue::Array(items) => exists|i: int| 0 <= i < items@.len() && item_traceable(#[trigger] items@[i]),
        JsonValue::Object(_) => item_traceable(evidence),
        _ => false,
    }
}

fn text_present_exec(v: Option<&JsonValue>) -> (r: bool)
    ensures
        r == text_present(match v {
            Some(x) => Some(*x),
            None => None,
        }),
{
    match v {
        Some(x) => match x.as_str() {
            Some(s) => !is_blank(s),
            None => false,
        },
        None => false,
    }
}

pub fn evidence_item_is_traceable(item: &JsonValue) -> (r: bool)
    ensures
        r == item_traceable(*item),
{
    proof {
        reveal_strlit("reason");
        reveal_strlit("excerpt");
        reveal_strlit("text");
        reveal_strlit("summary");
        reveal_strlit("page");
        reveal_strlit("source");
    }
    match item {
        JsonValue::String(s) => !is_blank(s.as_str()),
        JsonValue::Object(_) => {
            let detail = text_present_exec(item.get("reason")) || text_present_exec(item.get("excerpt"))
                || text_present_exec(item.get("text")) || text_present_exec(item.get("summary"));
            let page = match item.get("page") {
                Some(p) => match p.as_i64() {
                    Some(n) => n > 0,
                    None => false,
                },
                None => false,
            };
            let source = text_present_exec(item.get("source"));
            detail && (page || source)
        },
        _ => false,
    }
}

#[verifier::loop_isolation(false)]
pub fn evidence_supports_automatic_application(evidence: &JsonValue) -> (r: bool)
    ensures
        r == evidence_supports(*evidence),
{
    match evidence {
        JsonValue::String(s) => !is_blank(s.as_str()),
        JsonValue::Array(items) => {
            let mut i: usize = 0;
            while i < items.len()
                invariant
                    i <= items@.len(),
                    forall|k: int| 0 <= k < i ==> !item_traceable(#[trigger] items@[k]),
                decreases items@.len() - i,
            {
                if evidence_item_is_traceable(&items[i]) {
                    assert(item_traceable(items@[i as int]));
                    return true;
                }
                i = i + 1;
            }
            false
        },
        JsonValue::Object(_) => evidence_item_is_traceable(evidence),
        _ => false,
    }
}

// ---------------------------------------------------------------------------
// Run and suggestion states
// ---------------------------------------------------------------------------
/// A step on a tagging run that needs the run in one state.
#[derive(Debug, Clone, Copy, PartialEq, Eq, Structural)]
pub enum RunStep {
    /// Storing the model's suggestions: the run must be running.
    PersistSuggestions,
    /// Applying reliable suggestions: the run must be completed.
    AutoApply,
}

pub open spec fn required_status(step: RunStep) -> Seq<char> {
    match step {
        RunStep::PersistSuggestions => "running"@,
        RunStep::AutoApply => "completed"@,
    }
}

pub open spec fn run_state_refusal(step: RunStep, status: Seq<char>) -> Seq<char> {
    "cannot "@ + match step {
        RunStep::PersistSuggestions => "persist"@,
        RunStep::AutoApply => "auto-apply"@,
    } + " suggestions for AI tagging run in "@ + status + " state"@
}

/// Refuses a step on a run in another state than the step needs, saying
/// which state the run is in.
pub fn check_run_state(step: RunStep, status: &str) -> (r: Result<(), String>)
    ensures
        status@ == required_status(step) ==> r is Ok,
        status@ != required_status(step) ==> (r matches Err(m) && m@ == run_state_refusal(step, status@)),
{
    let (required, verb) = match step {
        RunStep::PersistSuggestions => ("running", "persist"),
        RunStep::AutoApply => ("completed", "auto-apply"),
    };
    if str_eq(status, required) {
        return Ok(());
    }
    let mut m = String::from_str("cannot ");
    m.append(verb);
    m.append(" suggestions for AI tagging run in ");
    m.append(status);
    m.append(" state");
    Err(m)
}

/// A suggestion is reviewed once: only a pending one can be.
pub fn check_reviewable(status: &str) -> (r: Result<(), TaggingError>)
    ensures
        r == if status@ == "pending"@ {
            Ok::<(), TaggingError>(())
        } else {
            Err(TaggingError::AlreadyReviewed)
        },
{
    if str_eq(status, "pending") {
        Ok(())
    } else {
        Err(TaggingError::AlreadyReviewed)
    }
}

// ---------------------------------------------------------------------------
// Reviews
// ---------------------------------------------------------------------------
/// The tag a review applies, before normalization: none for a rejection, the
/// suggested tag for an approval, and for an edit the edited name (required)
/// in the edited namespace or else the suggested one.
pub open spec fn review_choice(
    action: TagSuggestionReviewAction,
    suggested_name: Seq<char>,
    suggested_namespace: Seq<char>,
    edited_name: Option<Seq<char>>,
    edited_namespace: Option<Seq<char>>,
) -> Result<Option<(Seq<char>, Seq<char>)>, TaggingError> {
    match action {
        TagSuggestionReviewAction::Reject => Ok(None),
        TagSuggestionReviewAction::Approve => Ok(Some((suggested_name, suggested_namespace))),
        TagSuggestionReviewAction::Edit => match edited_name {
            None => Err(TaggingError::MissingEditedName),
            Some(n) => Ok(Some((n, match edited_namespace {
                Some(ns) => ns,
                None => suggested_namespace,
            }))),
        },
    }
}

pub open spec fn opt_view(v: Option<String>) -> Option<Seq<char>> {
    match v {
        Some(s) => Some(s@),
        None => None,
    }
}

/// The name and namespace that a review applies (see `review_choice`).
pub fn review_tag_choice(
    input: ReviewTagSuggestion,
    suggested_name: &str,
    suggested_namespace: &str,
) -> (r: Result<Option<(String, String)>, TaggingError>)
    ensures
        match r {
            Ok(None) => review_choice(
                input.action,
                suggested_name@,
                suggested_namespace@,
                opt_view(input.edited_name),
                opt_view(input.edited_namespace),
            ) == Ok::<Option<(Seq<char>, Seq<char>)>, TaggingError>(None),
            Ok(Some((n, ns))) => review_choice(
                input.action,
                suggested_name@,
                suggested_namespace@,
                opt_view(input.edited_name),
                opt_view(input.edited_namespace),
            ) == Ok::<Option<(Seq<char>, Seq<char>)>, TaggingError>(Some((n@, ns@))),
            Err(e) => review_choice(
                input.action,
                suggested_name@,
                suggested_namespace@,
                opt_view(input.edited_name),
                opt_view(input.edited_namespace),
            ) == Err::<Option<(Seq<char>, Seq<char>)>, TaggingError>(e),
        },
{
    match input.action {
        TagSuggestionReviewAction::Reject => Ok(None),
        TagSuggestionReviewAction::Approve => Ok(
            Some((String::from_str(suggested_name), String::from_str(suggested_namespace))),
        ),
        TagSuggestionReviewAction::Edit => match input.edited_name {
            None => Err(TaggingError::MissingEditedName),
            Some(n) => {
                let ns = match input.edited_namespace {
                    Some(ns) => ns,
                    None => String::from_str(suggested_namespace),
                };
                Ok(Some((n, ns)))
            },
        },
    }
}

// ---------------------------------------------------------------------------
// Counting applications
// ---------------------------------------------------------------------------
/// What undoing one still-active application did to its archive tag.
#[derive(Debug, Clone, Copy, PartialEq, Eq, Structural)]
pub enum UndoEffect {
    /// The archive had the tag before the run: it stays.
    PreExisting,
    /// Another active application still holds the tag: it stays.
    RetainedElsewhere,
    /// The tag was deleted from the archive.
    Removed,
    /// The tag was already gone or kept by the database.
    NotRemoved,
}

/// The effect of undoing an application: tags that existed before the run are
/// never removed, and a created tag is removed only when no other active
/// application holds it and the delete removed a row.
pub open spec fn undo_effect_of(created_archive_tag: bool, retained_elsewhere: bool, deleted_rows: u64) -> UndoEffect {
    if !created_archive_tag {
        UndoEffect::PreExisting
    } else if retained_elsewhere {
        UndoEffect::RetainedElsewhere
    } else if deleted_rows == 1 {
        UndoEffect::Removed
    } else {
        UndoEffect::NotRemoved
    }
}

pub fn undo_effect(created_archive_tag: bool, retained_elsewhere: bool, deleted_rows: u64) -> (r: UndoEffect)
    ensures
        r == undo_effect_of(created_archive_tag, retained_elsewhere, deleted_rows),
{
    if !created_archive_tag {
        UndoEffect::PreExisting
    } else if retained_elsewhere {
        UndoEffect::RetainedElsewhere
    } else if deleted_rows == 1 {
        UndoEffect::Removed
    } else {
        UndoEffect::NotRemoved
    }
}

impl UndoTaggingRunResult {
    /// Counts one undone application with its effect.
    pub fn record(&mut self, effect: UndoEffect)
        requires
            old(self).applications_undone < usize::MAX,
            old(self).archive_tags_removed < usize::MAX,
            old(self).archive_tags_preserved < usize::MAX,
        ensures
            final(self).run_id == old(self).run_id,
            final(self).applications_undone == old(self).applications_undone + 1,
            final(self).archive_tags_removed == old(self).archive_tags_removed + if effect
                == UndoEffect::Removed {
                1int
            } else {
                0int
            },
            final(self).archive_tags_preserved == old(self).archive_tags_preserved + if effect
                == UndoEffect::Removed {
                0int
            } else {
                1int
            },
    {
        self.applications_undone = self.applications_undone + 1;
        if effect == UndoEffect::Removed {
            self.archive_tags_removed = self.archive_tags_removed + 1;
        } else {
            self.archive_tags_preserved = self.archive_tags_preserved + 1;
        }
    }
}

impl AutoApplyTaggingRunResult {
    /// Counts one automatically applied suggestion.
    pub fn record(&mut self, created_archive_tag: bool)
        requires
            old(self).suggestions_applied < usize::MAX,
            old(self).archive_tags_created < usize::MAX,
            old(self).archive_tags_already_present < usize::MAX,
        ensures
            final(self).run_id == old(self).run_id,
            final(self).suggestions_applied == old(self).suggestions_applied + 1,
            final(self).archive_tags_created == old(self).archive_tags_created + if created_archive_tag {
                1int
            } else {
                0int
            },
            final(self).archive_tags_already_present == old(self).archive_tags_already_present + if created_archive_tag {
                0int
            } else {
                1int
            },
    {
        if created_archive_tag {
            self.archive_tags_created = self.archive_tags_created + 1;
        } else {
            self.archive_tags_already_present = self.archive_tags_already_present + 1;
        }
        self.suggestions_applied = self.suggestions_applied + 1;
    }
}

/// Evidence given as text is traceable when it is not blank; null, booleans
/// and numbers never are; an array supports automatic application when one
/// of its items is traceable, and no empty array does.
pub proof fn law_traceable_evidence_shapes(item: JsonValue, text: String, items: Vec<JsonValue>, k: int)
    ensures
        item_traceable(JsonValue::String(text)) <==> !is_blank_seq(text@),
        evidence_supports(JsonValue::String(text)) <==> !is_blank_seq(text@),
        (item is Null || item is Bool || item is Number) ==> !item_traceable(item) && !evidence_supports(item),
        0 <= k < items@.len() && item_traceable(items@[k]) ==> evidence_supports(JsonValue::Array(items)),
        items@.len() == 0 ==> !evidence_supports(JsonValue::Array(items)),
        item is Object ==> (evidence_supports(item) <==> item_traceable(item)),
{
    if 0 <= k < items@.len() && item_traceable(items@[k]) {
        let a = JsonValue::Array(items);
        assert(a matches JsonValue::Array(v) && v@[k] == items@[k]);
    }
}

/// The field `key` of an object holds text that is not blank.
pub open spec fn has_text(item: JsonValue, key: Seq<char>) -> bool {
    exists|v: JsonValue, t: Seq<char>|
        json_get(item, key) == Some(v) && json_str(v) == Some(t) && !is_blank_seq(t)
}

/// The field `page` of an object holds a positive integer.
pub open spec fn has_positive_page(item: JsonValue) -> bool {
    exists|v: JsonValue, n: i64| json_get(item, "page"@) == Some(v) && json_i64(v) == Some(n) && n > 0
}

/// An evidence object is traceable exactly when one of its reason, excerpt,
/// text or summary is non-blank text and it names a positive page or a
/// non-blank source; each of those four fields counts as the detail on its own.
pub proof fn law_traceable_evidence_objects(item: JsonValue)
    requires
        item is Object,
    ensures
        item_traceable(item) <==> ((has_text(item, "reason"@) || has_text(item, "excerpt"@) || has_text(
            item,
            "text"@,
        ) || has_text(item, "summary"@)) && (has_positive_page(item) || has_text(item, "source"@))),
        has_text(item, "summary"@) && has_positive_page(item) ==> item_traceable(item),
        has_text(item, "reason"@) && has_positive_page(item) ==> item_traceable(item),
        has_text(item, "excerpt"@) && has_positive_page(item) ==> item_traceable(item),
        has_text(item, "text"@) && has_positive_page(item) ==> item_traceable(item),
{
    assert forall|key: Seq<char>| #![auto] text_present(json_get(item, key)) <==> has_text(item, key) by {
        if text_present(json_get(item, key)) {
            let v = json_get(item, key).unwrap();
            let t = json_str(v).unwrap();
            assert(json_get(item, key) == Some(v) && json_str(v) == Some(t) && !is_blank_seq(t));
        }
    }
    let pg = match json_get(item, "page"@) {
        Some(p) => match json_i64(p) {
            Some(n) => n > 0,
            None => false,
        },
        None => false,
    };
    if pg {
        let v = json_get(item, "page"@).unwrap();
        let n = json_i64(v).unwrap();
        assert(json_get(item, "page"@) == Some(v) && json_i64(v) == Some(n) && n > 0);
    }
    assert(pg <==> has_positive_page(item));
}


// ---------------------------------------------------------------------------
// Laws
// ---------------------------------------------------------------------------
/// Undoing never removes a tag that the archive had before the run, nor one
/// that another active application still holds.
pub proof fn law_undo_preserves_foreign_tags(created_archive_tag: bool, retained_elsewhere: bool, deleted_rows: u64)
    ensures
        !created_archive_tag ==> undo_effect_of(created_archive_tag, retained_elsewhere, deleted_rows)
            != UndoEffect::Removed,
        retained_elsewhere ==> undo_effect_of(created_archive_tag, retained_elsewhere, deleted_rows)
            != UndoEffect::Removed,
{
}

/// An accepted identity has a non-blank display name and namespace within the
/// length limits, and its normalized name is the lowercase display name.
pub proof fn law_identity_is_bounded(name: Seq<char>, namespace: Seq<char>)
    ensures
        tag_identity(name, namespace) matches Ok((display, normalized, _)) ==> 0 < display.len()
            <= MAX_TAG_NAME_CHARS && 0 < collapse_ws_seq(namespace).len() <= MAX_NAMESPACE_CHARS
            && normalized == lowercase(display),
{
}

} // verus!
