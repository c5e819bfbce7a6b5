use otamoryx::json::{JsonNumber, JsonValue};
use otamoryx::tagging::{
    check_reviewable, check_run_state, clean_optional, default_namespace, evidence_item_is_traceable, RunStep,
    evidence_supports_automatic_application, normalize_tag_identity, review_tag_choice,
    undo_effect, validate_run, AutoApplyTaggingRunResult, CreateTaggingRun, ReviewTagSuggestion,
    TagSuggestionReviewAction, TaggingError, UndoEffect, UndoTaggingRunResult,
};

fn text(s: &str) -> JsonValue {
    JsonValue::String(s.to_string())
}

fn object(entries: Vec<(&str, JsonValue)>) -> JsonValue {
    JsonValue::Object(entries.into_iter().map(|(k, v)| (k.to_string(), v)).collect())
}

fn run(archive_id: &str, fingerprint: &str) -> CreateTaggingRun {
    CreateTaggingRun {
        archive_id: archive_id.to_string(),
        analysis_id: None,
        job_id: None,
        content_fingerprint: fingerprint.to_string(),
        provider: None,
        model: None,
    }
}

#[test]
fn runs_need_an_archive_and_a_fingerprint() {
    assert_eq!(validate_run(&run("archive-1", "fingerprint")), Ok(()));
    assert_eq!(validate_run(&run("  ", "fingerprint")), Err(TaggingError::MissingArchiveId));
    assert_eq!(
        validate_run(&run("archive-1", "")),
        Err(TaggingError::MissingContentFingerprint)
    );
    assert_eq!(
        TaggingError::MissingArchiveId.message(),
        "AI tagging run requires an archive id"
    );
}

#[test]
fn tag_identities_collapse_whitespace_and_lowercase() {
    let identity = normalize_tag_identity("  Big   Sword ", " General ").unwrap();
    assert_eq!(identity.display_name, "Big Sword");
    assert_eq!(identity.normalized_name, "big sword");
    assert_eq!(identity.namespace, "general");
    assert_eq!(
        normalize_tag_identity("   ", "general").unwrap_err(),
        TaggingError::InvalidName
    );
    assert_eq!(
        normalize_tag_identity("ok", " ").unwrap_err(),
        TaggingError::InvalidNamespace
    );
    assert_eq!(
        normalize_tag_identity(&"x".repeat(256), "general").unwrap_err(),
        TaggingError::InvalidName
    );
    assert!(normalize_tag_identity(&"x".repeat(255), "general").is_ok());
    assert_eq!(
        normalize_tag_identity("ok", &"n".repeat(129)).unwrap_err(),
        TaggingError::InvalidNamespace
    );
    assert_eq!(default_namespace(), "general");
}

#[test]
fn optional_texts_are_cleaned() {
    assert_eq!(clean_optional(Some("  gpt   4 ".to_string())), Some("gpt 4".to_string()));
    assert_eq!(clean_optional(Some(" \t ".to_string())), None);
    assert_eq!(clean_optional(None), None);
}

#[test]
fn evidence_must_be_traceable() {
    let page = |n: u64| JsonValue::Number(JsonNumber::PosInt(n));
    assert!(evidence_item_is_traceable(&text("seen on the cover")));
    assert!(!evidence_item_is_traceable(&text("  ")));
    assert!(evidence_item_is_traceable(&object(vec![
        ("excerpt", text("a sword")),
        ("page", page(3))
    ])));
    assert!(evidence_item_is_traceable(&object(vec![
        ("reason", text("metadata")),
        ("source", text("ComicInfo.xml"))
    ])));
    assert!(!evidence_item_is_traceable(&object(vec![
        ("excerpt", text("a sword")),
        ("page", page(0))
    ])));
    assert!(!evidence_item_is_traceable(&object(vec![("page", page(3))])));
    assert!(evidence_supports_automatic_application(&JsonValue::Array(vec![
        text(" "),
        object(vec![("source", text("metadata")), ("excerpt", text("verified metadata"))]),
    ])));
    assert!(!evidence_supports_automatic_application(&JsonValue::Array(vec![])));
    assert!(!evidence_supports_automatic_application(&JsonValue::Null));
    assert!(evidence_supports_automatic_application(&text("why")));
}

fn review(action: TagSuggestionReviewAction, name: Option<&str>, ns: Option<&str>) -> ReviewTagSuggestion {
    ReviewTagSuggestion {
        action,
        reviewed_by: None,
        edited_name: name.map(str::to_string),
        edited_namespace: ns.map(str::to_string),
    }
}

#[test]
fn reviews_choose_the_applied_tag() {
    assert_eq!(
        review_tag_choice(review(TagSuggestionReviewAction::Reject, None, None), "n", "ns"),
        Ok(None)
    );
    assert_eq!(
        review_tag_choice(review(TagSuggestionReviewAction::Approve, Some("x"), None), "n", "ns"),
        Ok(Some(("n".to_string(), "ns".to_string())))
    );
    assert_eq!(
        review_tag_choice(review(TagSuggestionReviewAction::Edit, Some("e"), None), "n", "ns"),
        Ok(Some(("e".to_string(), "ns".to_string())))
    );
    assert_eq!(
        review_tag_choice(review(TagSuggestionReviewAction::Edit, Some("e"), Some("f")), "n", "ns"),
        Ok(Some(("e".to_string(), "f".to_string())))
    );
    assert_eq!(
        review_tag_choice(review(TagSuggestionReviewAction::Edit, None, Some("f")), "n", "ns"),
        Err(TaggingError::MissingEditedName)
    );
}

#[test]
fn undoing_never_removes_foreign_tags() {
    assert_eq!(undo_effect(false, false, 1), UndoEffect::PreExisting);
    assert_eq!(undo_effect(true, true, 1), UndoEffect::RetainedElsewhere);
    assert_eq!(undo_effect(true, false, 1), UndoEffect::Removed);
    assert_eq!(undo_effect(true, false, 0), UndoEffect::NotRemoved);

    let mut outcome = UndoTaggingRunResult::default();
    for effect in [UndoEffect::Removed, UndoEffect::PreExisting, UndoEffect::NotRemoved] {
        outcome.record(effect);
    }
    assert_eq!(
        (outcome.applications_undone, outcome.archive_tags_removed, outcome.archive_tags_preserved),
        (3, 1, 2)
    );

    let mut applied = AutoApplyTaggingRunResult::default();
    applied.record(true);
    applied.record(false);
    assert_eq!(
        (applied.suggestions_applied, applied.archive_tags_created, applied.archive_tags_already_present),
        (2, 1, 1)
    );
}

#[test]
fn run_steps_need_their_run_state() {
    assert_eq!(check_run_state(RunStep::PersistSuggestions, "running"), Ok(()));
    assert_eq!(
        check_run_state(RunStep::PersistSuggestions, "completed"),
        Err("cannot persist suggestions for AI tagging run in completed state".to_string())
    );
    assert_eq!(check_run_state(RunStep::AutoApply, "completed"), Ok(()));
    assert_eq!(
        check_run_state(RunStep::AutoApply, "failed"),
        Err("cannot auto-apply suggestions for AI tagging run in failed state".to_string())
    );
    assert_eq!(check_reviewable("pending"), Ok(()));
    assert_eq!(check_reviewable("approved"), Err(TaggingError::AlreadyReviewed));
    assert_eq!(TaggingError::AlreadyReviewed.message(), "AI tag suggestion has already been reviewed");
    assert_eq!(TaggingError::RunNotFound.message(), "AI tagging run not found");
    assert_eq!(TaggingError::SuggestionNotFound.message(), "AI tag suggestion not found");
}
