use otamoryx::content::{ContentAnalysisResult, ContentConcept};
use otamoryx::json::{JsonNumber, JsonValue};
use otamoryx::preference_learning::{combinations, concept_keys, signal_for_event};
use otamoryx::preference_rules::{validate_input, PreferenceRuleError, PreferenceRuleInput};

fn object(entries: Vec<(&str, i64)>) -> JsonValue {
    JsonValue::Object(
        entries
            .into_iter()
            .map(|(key, value)| {
                let number = if value >= 0 {
                    JsonNumber::PosInt(value as u64)
                } else {
                    JsonNumber::NegInt(value)
                };
                (key.to_string(), JsonValue::Number(number))
            })
            .collect(),
    )
}

fn signal(event_type: &str, metadata: &JsonValue) -> f64 {
    f64::from(signal_for_event(event_type, metadata)) / 2.0
}

#[test]
fn derives_signals() {
    assert_eq!(signal("manual_delete", &object(vec![])), -5.0);
    assert_eq!(
        signal(
            "exit",
            &object(vec![
                ("startPage", 1),
                ("endPage", 2),
                ("totalPages", 100),
                ("durationMs", 1000)
            ])
        ),
        -0.5
    );
}

#[test]
fn combinations_are_stable() {
    assert_eq!(
        combinations(&vec!["a".into(), "b".into(), "c".into()], 2).len(),
        3
    );
}

#[test]
fn combinations_are_listed_in_position_order() {
    let values: Vec<String> = vec!["a".into(), "b".into(), "c".into(), "d".into()];
    let pairs = combinations(&values, 2);
    let joined: Vec<String> = pairs.iter().map(|c| c.join("+")).collect();
    assert_eq!(joined, vec!["a+b", "a+c", "a+d", "b+c", "b+d", "c+d"]);
    assert_eq!(combinations(&values, 3).len(), 4);
    assert_eq!(combinations(&values, 0), vec![Vec::<String>::new()]);
    assert!(combinations(&values, 5).is_empty());
}

#[test]
fn every_event_kind_has_its_signal() {
    let empty = object(vec![]);
    assert_eq!(signal("restore", &empty), 6.0);
    assert_eq!(signal("rule_correction", &empty), 6.0);
    assert_eq!(signal("continue_reading", &empty), 3.0);
    assert_eq!(signal("repeat_open", &empty), 3.0);
    assert_eq!(signal("open", &empty), 0.0);
    // An exit after reading three quarters of the pages is positive.
    assert_eq!(
        signal("exit", &object(vec![("start_page", 1), ("end_page", 75), ("total_pages", 100)])),
        3.0
    );
    // Ten pages further is positive too.
    assert_eq!(
        signal("exit", &object(vec![("startPage", 5), ("endPage", 15), ("totalPages", 100)])),
        3.0
    );
    // A longer stay on the first pages is neutral.
    assert_eq!(
        signal(
            "exit",
            &object(vec![("startPage", 1), ("endPage", 2), ("totalPages", 100), ("durationMs", 20_000)])
        ),
        0.0
    );
}

#[test]
fn concept_keys_are_trimmed_lowercase_and_sorted() {
    let result = ContentAnalysisResult {
        themes: vec!["  Drama ".to_string(), "betrayal".to_string(), "   ".to_string()],
        concepts: vec![
            ContentConcept {
                name: " Found Family".to_string(),
                confidence: 7500,
                evidence_pages: vec![3],
            },
            ContentConcept {
                name: "Weak".to_string(),
                confidence: 7499,
                evidence_pages: vec![1],
            },
            ContentConcept {
                name: "Unsupported".to_string(),
                confidence: 9000,
                evidence_pages: vec![],
            },
            ContentConcept {
                name: "drama".to_string(),
                confidence: 9000,
                evidence_pages: vec![2],
            },
        ],
    };
    assert_eq!(concept_keys(&result), vec!["betrayal", "drama", "found family"]);
}

fn rule(action: &str, threshold: u32) -> PreferenceRuleInput {
    PreferenceRuleInput {
        name: "rule".to_string(),
        rule_version: "v1".to_string(),
        action: action.to_string(),
        confidence_threshold: threshold,
    }
}

#[test]
fn rule_inputs_are_validated() {
    assert_eq!(validate_input(&rule("keep", 8000), "user"), Ok(()));
    assert_eq!(validate_input(&rule("auto_delete", 10000), "admin"), Ok(()));
    assert_eq!(
        validate_input(&rule("auto_delete", 8000), "user"),
        Err(PreferenceRuleError::AutoDeleteRequiresAdmin)
    );
    assert_eq!(
        validate_input(&rule("boost", 8000), "admin"),
        Err(PreferenceRuleError::InvalidRule)
    );
    assert_eq!(
        validate_input(&rule("keep", 10001), "admin"),
        Err(PreferenceRuleError::ThresholdOutOfRange)
    );
    let mut blank = rule("keep", 1);
    blank.name = " ".to_string();
    assert_eq!(validate_input(&blank, "admin"), Err(PreferenceRuleError::InvalidRule));
    assert_eq!(
        PreferenceRuleError::AutoDeleteRequiresAdmin.message(),
        "only administrators may create automatic deletion rules"
    );
}
