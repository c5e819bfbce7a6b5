use otamoryx::content::ContentAnalysisResult;
use otamoryx::json::{JsonValue, json_equal};
use otamoryx::preference_rules::{
    auto_delete_status, decision_key, evaluate_condition, evaluate_rule, is_rule_active, PreferenceConditionError,
    PreferenceRule,
};

fn s(v: &str) -> JsonValue {
    JsonValue::String(v.to_string())
}

fn obj(entries: Vec<(&str, JsonValue)>) -> JsonValue {
    JsonValue::Object(entries.into_iter().map(|(k, v)| (k.to_string(), v)).collect())
}

fn arr(items: Vec<JsonValue>) -> JsonValue {
    JsonValue::Array(items)
}

fn analysis(themes: &[&str]) -> ContentAnalysisResult {
    ContentAnalysisResult { themes: themes.iter().map(|t| t.to_string()).collect(), concepts: vec![] }
}

fn rule(conditions: JsonValue, exceptions: JsonValue, action: &str, threshold: u32) -> PreferenceRule {
    PreferenceRule {
        id: "rule-1".to_string(),
        user_id: "user-1".to_string(),
        name: "Dramas".to_string(),
        rule_version: "v2".to_string(),
        conditions,
        exceptions,
        action: action.to_string(),
        confidence_threshold: threshold,
        enabled: true,
        owner_role: "user".to_string(),
        false_positive_count: 0,
        auto_paused: false,
    }
}

#[test]
fn evaluates_combinations() {
    let r = analysis(&["drama", "betrayal"]);
    let e = evaluate_condition(
        &obj(vec![("all", arr(vec![obj(vec![("theme", s("drama"))]), obj(vec![("theme", s("betrayal"))])]))]),
        &r,
    )
    .unwrap();
    assert!(e.matched);
    assert!(e.evidence_pages.is_empty());
    assert_eq!(e.confidence, 10000);
}

#[test]
fn theme_matching_ignores_ascii_case() {
    let r = analysis(&["Drama"]);
    let e = evaluate_condition(&obj(vec![("theme", s("dRAMA"))]), &r).unwrap();
    assert!(e.matched);
    let expected = obj(vec![("matched", JsonValue::Bool(true)), ("theme", s("dRAMA"))]);
    assert!(json_equal(&e.details, &expected));
    let miss = evaluate_condition(&obj(vec![("concept", s("comedy"))]), &r).unwrap();
    assert!(!miss.matched);
    assert_eq!(miss.confidence, 0);
    let expected = obj(vec![("matched", JsonValue::Bool(false)), ("theme", s("comedy"))]);
    assert!(json_equal(&miss.details, &expected));
}

#[test]
fn all_stops_at_the_first_failing_child() {
    let r = analysis(&["drama"]);
    let cond = obj(vec![(
        "all",
        arr(vec![obj(vec![("theme", s("drama"))]), obj(vec![("theme", s("horror"))]), obj(vec![("bogus", s("x"))])]),
    )]);
    let e = evaluate_condition(&cond, &r).unwrap();
    assert!(!e.matched);
    assert_eq!(e.confidence, 0);
    let expected = obj(vec![(
        "all",
        arr(vec![obj(vec![("matched", JsonValue::Bool(true)), ("theme", s("drama"))])]),
    )]);
    assert!(json_equal(&e.details, &expected));
}

#[test]
fn any_and_not_combine_children() {
    let r = analysis(&["drama"]);
    let any = obj(vec![("any", arr(vec![obj(vec![("theme", s("horror"))]), obj(vec![("theme", s("drama"))])]))]);
    let e = evaluate_condition(&any, &r).unwrap();
    assert!(e.matched);
    let expected = obj(vec![(
        "any",
        arr(vec![obj(vec![("matched", JsonValue::Bool(true)), ("theme", s("drama"))])]),
    )]);
    assert!(json_equal(&e.details, &expected));

    let none = evaluate_condition(&obj(vec![("any", arr(vec![]))]), &r).unwrap();
    assert!(!none.matched);
    assert!(json_equal(&none.details, &obj(vec![("any", arr(vec![]))])));

    let not = evaluate_condition(&obj(vec![("not", obj(vec![("theme", s("drama"))]))]), &r).unwrap();
    assert!(!not.matched);
    assert_eq!(not.confidence, 10000);
    assert!(json_equal(&not.details, &obj(vec![("not", JsonValue::Bool(false))])));
}

#[test]
fn themes_lists_need_every_theme() {
    let r = analysis(&["drama", "romance"]);
    let both = arr(vec![s("ROMANCE"), s("drama")]);
    let e = evaluate_condition(&obj(vec![("themes", arr(vec![s("ROMANCE"), s("drama")]))]), &r).unwrap();
    assert!(e.matched);
    assert!(json_equal(&e.details, &obj(vec![("matched", JsonValue::Bool(true)), ("themes", both)])));
    let e = evaluate_condition(&obj(vec![("themes", arr(vec![s("drama"), JsonValue::Bool(true)]))]), &r).unwrap();
    assert!(!e.matched);
}

#[test]
fn unknown_conditions_are_rejected() {
    let r = analysis(&["drama"]);
    let e = evaluate_condition(&obj(vec![("feature", s("pages"))]), &r);
    assert_eq!(e.err(), Some(PreferenceConditionError::Unsupported));
    let nested = obj(vec![("all", arr(vec![obj(vec![("theme", s("drama"))]), JsonValue::Null]))]);
    assert!(evaluate_condition(&nested, &r).is_err());
    assert!(evaluate_condition(&JsonValue::Null, &r).is_err());
    assert_eq!(PreferenceConditionError::Unsupported.message(), "unsupported preference condition");
}

#[test]
fn rules_apply_when_matched_above_threshold_and_not_excepted() {
    let r = analysis(&["drama", "gore"]);
    let keep = rule(obj(vec![("theme", s("drama"))]), JsonValue::Null, "keep", 7000);
    let d = evaluate_rule(&keep, &r).unwrap();
    assert!(d.matched);
    assert_eq!(d.decision, "keep");
    assert_eq!(d.execution_status, "recorded");

    let excepted = rule(obj(vec![("theme", s("drama"))]), obj(vec![("theme", s("gore"))]), "downrank", 0);
    let d = evaluate_rule(&excepted, &r).unwrap();
    assert!(!d.matched);
    assert_eq!(d.decision, "no_match");

    let empty_exceptions = rule(obj(vec![("theme", s("drama"))]), obj(vec![]), "downrank", 0);
    assert!(evaluate_rule(&empty_exceptions, &r).unwrap().matched);

    let bad_exceptions = rule(obj(vec![("theme", s("drama"))]), s("x"), "downrank", 0);
    assert!(evaluate_rule(&bad_exceptions, &r).is_err());
}

#[test]
fn automatic_deletion_needs_page_evidence() {
    let r = analysis(&["drama"]);
    let delete = rule(obj(vec![("theme", s("drama"))]), JsonValue::Null, "auto_delete", 5000);
    let d = evaluate_rule(&delete, &r).unwrap();
    assert!(!d.matched);
    assert_eq!(d.decision, "no_match");
    assert_eq!(d.execution_status, "recorded");
}

#[test]
fn decision_keys_and_statuses() {
    let keep = rule(JsonValue::Null, JsonValue::Null, "keep", 0);
    assert_eq!(decision_key("analysis-9", &keep), "analysis:analysis-9:rule:rule-1:v2");
    assert!(is_rule_active(&keep));
    let mut paused = rule(JsonValue::Null, JsonValue::Null, "keep", 0);
    paused.auto_paused = true;
    assert!(!is_rule_active(&paused));
    assert_eq!(auto_delete_status(true, true), "skipped_correction");
    assert_eq!(auto_delete_status(false, true), "completed");
    assert_eq!(auto_delete_status(false, false), "retryable");
}
