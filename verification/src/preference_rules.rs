//! Validation of user-defined preference rules, and the evaluation of their
//! condition trees against the themes found in an archive.
use crate::content::ContentAnalysisResult;
use crate::json::{
    json_clone, json_get, json_str, json_view, items_view, lemma_items_view, lemma_member_decreases,
    JsonValue, JsonView,
};
use crate::text::{ascii_lower_seq, eq_ignore_ascii_case, is_blank, is_blank_seq, owned, str_eq, strings_of};
use vstd::prelude::*;

verus! {

/// A preference rule as a user submits it. `confidence_threshold` is in basis
/// points: 0 to 10000 stand for 0.0 to 1.0.
#[derive(Debug)]
pub struct PreferenceRuleInput {
    pub name: String,
    pub rule_version: String,
    pub action: String,
    pub confidence_threshold: u32,
}

#[derive(Debug, Clone, Copy, PartialEq, Eq, Structural)]
pub enum PreferenceRuleError {
    InvalidRule,
    ThresholdOutOfRange,
    AutoDeleteRequiresAdmin,
}

pub open spec fn rule_error_text(e: PreferenceRuleError) -> Seq<char> {
    match e {
        PreferenceRuleError::InvalidRule => "invalid preference rule"@,
        PreferenceRuleError::ThresholdOutOfRange => "rule confidence threshold must be between 0 and 1"@,
        PreferenceRuleError::AutoDeleteRequiresAdmin => "only administrators may create automatic deletion rules"@,
    }
}

impl PreferenceRuleError {
    pub fn message(&self) -> (r: &'static str)
        ensures
            r@ == rule_error_text(*self),
    {
        match self {
            PreferenceRuleError::InvalidRule => "invalid preference rule",
            PreferenceRuleError::ThresholdOutOfRange => "rule confidence threshold must be between 0 and 1",
            PreferenceRuleError::AutoDeleteRequiresAdmin => "only administrators may create automatic deletion rules",
        }
    }
}

pub open spec fn known_action(action: Seq<char>) -> bool {
    action == "keep"@ || action == "downrank"@ || action == "auto_delete"@
}

/// The verdict on a rule submitted by a user of `role`: a name, a version and
/// a known action are required, the threshold lies within 0 and 1, and only
/// administrators may create automatic deletion rules.
pub open spec fn rule_verdict(input: PreferenceRuleInput, role: Seq<char>) -> Result<(), PreferenceRuleError> {
    if is_blank_seq(input.name@) || is_blank_seq(input.rule_version@) || !known_action(input.action@) {
        Err(PreferenceRuleError::InvalidRule)
    } else if input.confidence_threshold > 10000 {
        Err(PreferenceRuleError::ThresholdOutOfRange)
    } else if input.action@ == "auto_delete"@ && role != "admin"@ {
        Err(PreferenceRuleError::AutoDeleteRequiresAdmin)
    } else {
        Ok(())
    }
}

pub fn validate_input(input: &PreferenceRuleInput, role: &str) -> (r: Result<(), PreferenceRuleError>)
    ensures
        r == rule_verdict(*input, role@),
{
    proof {
        reveal_strlit("keep");
        reveal_strlit("downrank");
        reveal_strlit("auto_delete");
        reveal_strlit("admin");
    }
    let action = input.action.as_str();
    let known = str_eq(action, "keep") || str_eq(action, "downrank") || str_eq(action, "auto_delete");
    if is_blank(input.name.as_str()) || is_blank(input.rule_version.as_str()) || !known {
        return Err(PreferenceRuleError::InvalidRule);
    }
    if input.confidence_threshold > 10000 {
        return Err(PreferenceRuleError::ThresholdOutOfRange);
    }
    if str_eq(action, "auto_delete") && !str_eq(role, "admin") {
        return Err(PreferenceRuleError::AutoDeleteRequiresAdmin);
    }
    Ok(())
}

/// Automatic deletion rules come only from administrators.
pub proof fn law_auto_delete_needs_admin(input: PreferenceRuleInput, role: Seq<char>)
    ensures
        rule_verdict(input, role) is Ok && input.action@ == "auto_delete"@ ==> role == "admin"@,
{
}

// ---------------------------------------------------------------------------
// Condition trees
// ---------------------------------------------------------------------------
/// A condition tree that no evaluation rule covers.
#[derive(Debug, Clone, Copy, PartialEq, Eq, Structural)]
pub enum PreferenceConditionError {
    Unsupported,
}

impl PreferenceConditionError {
    pub fn message(&self) -> (r: &'static str)
        ensures
            r@ == "unsupported preference condition"@,
    {
        "unsupported preference condition"
    }
}

/// What a condition tree says of an archive: whether it matched, the pages
/// that support it, an explanation, and a confidence in basis points.
#[derive(Debug)]
pub struct ConditionEvaluation {
    pub matched: bool,
    pub evidence_pages: Vec<i32>,
    pub details: JsonValue,
    pub confidence: u32,
}

/// One of `themes` equals `name` once ASCII letters are folded to lower case.
pub open spec fn has_theme(themes: Seq<Seq<char>>, name: Seq<char>) -> bool {
    exists|j: int| 0 <= j < themes.len() && ascii_lower_seq(#[trigger] themes[j]) == ascii_lower_seq(name)
}

/// Every item of a list is a string that names one of `themes`.
pub open spec fn names_only_themes(items: Seq<JsonValue>, themes: Seq<Seq<char>>) -> bool {
    forall|k: int| 0 <= k < items.len() ==> match json_str(#[trigger] items[k]) {
        Some(x) => has_theme(themes, x),
        None => false,
    }
}

/// Full confidence for a match, none otherwise.
pub open spec fn leaf_confidence(ok: bool) -> u32 {
    if ok {
        10000
    } else {
        0
    }
}

/// The explanation of a leaf condition: whether it matched, and what it asked for.
pub open spec fn leaf_details(key: Seq<char>, asked: JsonView, ok: bool) -> JsonView {
    JsonView::Object(seq![("matched"@, JsonView::Bool(ok)), (key, asked)])
}

pub open spec fn min_confidence(a: u32, b: u32) -> u32 {
    if a <= b {
        a
    } else {
        b
    }
}

/// The outcome of a condition tree on an archive with `themes`: whether it
/// matched, its confidence and its explanation; `None` for a tree that no
/// rule covers. An object is read by the first of these members it has:
/// `all` (an array: every child matches), `any` (an array: some child
/// matches), `not`, `theme` (a string), `themes` (an array of strings, all
/// present), `concept` (a string, looked up among the themes).
pub open spec fn condition_outcome(c: JsonValue, themes: Seq<Seq<char>>) -> Option<(bool, u32, JsonView)>
    decreases c, 0int,
{
    if let Some(JsonValue::Array(items)) = json_get(c, "all"@) {
        proof {
            lemma_member_decreases(c, "all"@);
            let m = json_get(c, "all"@)->0;
            assert(decreases_to!(m => items));
            assert(decreases_to!(items => items@));
        }
        match all_outcome(items@, 0, themes) {
            None => None,
            Some((ok, conf, ds)) => Some((ok, conf, JsonView::Object(seq![("all"@, JsonView::Array(ds))]))),
        }
    } else if let Some(JsonValue::Array(items)) = json_get(c, "any"@) {
        proof {
            lemma_member_decreases(c, "any"@);
            let m = json_get(c, "any"@)->0;
            assert(decreases_to!(m => items));
            assert(decreases_to!(items => items@));
        }
        any_outcome(items@, 0, themes)
    } else if let Some(n) = json_get(c, "not"@) {
        proof {
            lemma_member_decreases(c, "not"@);
        }
        match condition_outcome(n, themes) {
            None => None,
            Some((ok, _, _)) => Some((!ok, 10000, JsonView::Object(seq![("not"@, JsonView::Bool(!ok))]))),
        }
    } else if let Some(JsonValue::String(t)) = json_get(c, "theme"@) {
        let ok = has_theme(themes, t@);
        Some((ok, leaf_confidence(ok), leaf_details("theme"@, JsonView::Str(t@), ok)))
    } else if let Some(JsonValue::Array(items)) = json_get(c, "themes"@) {
        let ok = names_only_themes(items@, themes);
        Some((ok, leaf_confidence(ok), leaf_details("themes"@, JsonView::Array(items_view(items@)), ok)))
    } else if let Some(JsonValue::String(t)) = json_get(c, "concept"@) {
        let ok = has_theme(themes, t@);
        Some((ok, leaf_confidence(ok), leaf_details("theme"@, JsonView::Str(t@), ok)))
    } else {
        None
    }
}

/// The children of an `all` from index `i` on, evaluated in order up to the
/// first that does not match: whether all matched, the confidence (the least
/// of all, or that of the child that failed) and the explanations of the
/// children that matched.
pub open spec fn all_outcome(items: Seq<JsonValue>, i: int, themes: Seq<Seq<char>>) -> Option<(bool, u32, Seq<JsonView>)>
    decreases items, items.len() - i,
{
    if i < 0 || i >= items.len() {
        Some((true, 10000, Seq::empty()))
    } else {
        match condition_outcome(items[i], themes) {
            None => None,
            Some((false, conf, _)) => Some((false, conf, Seq::empty())),
            Some((true, conf, d)) => match all_outcome(items, i + 1, themes) {
                None => None,
                Some((ok, rest, ds)) => Some((ok, if ok { min_confidence(conf, rest) } else { rest }, seq![d] + ds)),
            },
        }
    }
}

/// The children of an `any` from index `i` on, evaluated in order up to the
/// first that matches.
pub open spec fn any_outcome(items: Seq<JsonValue>, i: int, themes: Seq<Seq<char>>) -> Option<(bool, u32, JsonView)>
    decreases items, items.len() - i,
{
    if i < 0 || i >= items.len() {
        Some((false, 0, JsonView::Object(seq![("any"@, JsonView::Array(Seq::empty()))])))
    } else {
        match condition_outcome(items[i], themes) {
            None => None,
            Some((true, conf, d)) => Some((true, conf, JsonView::Object(seq![("any"@, JsonView::Array(seq![d]))]))),
            Some((false, _, _)) => any_outcome(items, i + 1, themes),
        }
    }
}

fn find_theme(themes: &Vec<String>, name: &str) -> (r: bool)
    ensures
        r == has_theme(strings_of(themes@), name@),
{
    let ghost ts = strings_of(themes@);
    let mut j: usize = 0;
    while j < themes.len()
        invariant
            j <= themes@.len(),
            ts == strings_of(themes@),
            forall|k: int| 0 <= k < j ==> ascii_lower_seq(#[trigger] ts[k]) != ascii_lower_seq(name@),
        decreases themes@.len() - j,
    {
        if eq_ignore_ascii_case(themes[j].as_str(), name) {
            assert(ts[j as int] == themes@[j as int]@);
            return true;
        }
        assert(ts[j as int] == themes@[j as int]@);
        j = j + 1;
    }
    false
}

fn leaf(key: &str, asked: JsonValue, ok: bool) -> (r: ConditionEvaluation)
    ensures
        r.matched == ok,
        r.confidence == leaf_confidence(ok),
        json_view(r.details) == leaf_details(key@, json_view(asked), ok),
        r.evidence_pages@.len() == 0,
{
    let mut entries: Vec<(String, JsonValue)> = Vec::new();
    entries.push((owned("matched"), JsonValue::Bool(ok)));
    entries.push((owned(key), asked));
    let details = JsonValue::Object(entries);
    proof {
        reveal_strlit("matched");
        crate::json::lemma_entries_view(entries@);
        assert(crate::json::entries_view(entries@) =~= seq![("matched"@, JsonView::Bool(ok)), (key@, json_view(asked))]);
    }
    ConditionEvaluation { matched: ok, evidence_pages: Vec::new(), details, confidence: if ok { 10000 } else { 0 } }
}

fn single_member(key: &str, value: JsonValue) -> (r: JsonValue)
    ensures
        json_view(r) == JsonView::Object(seq![(key@, json_view(value))]),
{
    let mut entries: Vec<(String, JsonValue)> = Vec::new();
    entries.push((owned(key), value));
    proof {
        crate::json::lemma_entries_view(entries@);
        assert(crate::json::entries_view(entries@) =~= seq![(key@, json_view(value))]);
    }
    JsonValue::Object(entries)
}

/// Evaluates a preference condition tree against the themes of an analysed
/// archive (see `condition_outcome`). No page evidence is collected.
pub fn evaluate_condition(condition: &JsonValue, result: &ContentAnalysisResult) -> (r: Result<ConditionEvaluation, PreferenceConditionError>)
    ensures
        match r {
            Ok(e) => condition_outcome(*condition, strings_of(result.themes@)) == Some((e.matched, e.confidence, json_view(e.details)))
                && e.evidence_pages@.len() == 0,
            Err(_) => condition_outcome(*condition, strings_of(result.themes@)) is None,
        },
    decreases *condition, 0int,
{
    let ghost themes = strings_of(result.themes@);
    proof {
        reveal_strlit("all");
        reveal_strlit("any");
        reveal_strlit("not");
        reveal_strlit("theme");
        reveal_strlit("themes");
        reveal_strlit("concept");
    }
    if let Some(JsonValue::Array(items)) = condition.get("all") {
        proof {
            lemma_member_decreases(*condition, "all"@);
            let m = json_get(*condition, "all"@)->0;
            assert(decreases_to!(m => m->Array_0));
            assert(decreases_to!(m->Array_0 => items@));
        }
        let (ok, conf, ds) = evaluate_all(items, 0, result)?;
        let details = single_member("all", JsonValue::Array(ds));
        return Ok(ConditionEvaluation { matched: ok, evidence_pages: Vec::new(), details, confidence: conf });
    }
    if let Some(JsonValue::Array(items)) = condition.get("any") {
        proof {
            lemma_member_decreases(*condition, "any"@);
            let m = json_get(*condition, "any"@)->0;
            assert(decreases_to!(m => m->Array_0));
            assert(decreases_to!(m->Array_0 => items@));
        }
        return evaluate_any(items, 0, result);
    }
    if let Some(n) = condition.get("not") {
        proof {
            lemma_member_decreases(*condition, "not"@);
        }
        let inner = evaluate_condition(n, result)?;
        let details = single_member("not", JsonValue::Bool(!inner.matched));
        return Ok(ConditionEvaluation { matched: !inner.matched, evidence_pages: Vec::new(), details, confidence: 10000 });
    }
    if let Some(JsonValue::String(t)) = condition.get("theme") {
        let ok = find_theme(&result.themes, t.as_str());
        return Ok(leaf("theme", JsonValue::String(owned(t.as_str())), ok));
    }
    if let Some(themes_value) = condition.get("themes") {
        if let JsonValue::Array(items) = themes_value {
            let mut ok = true;
            let mut k: usize = 0;
            while k < items.len()
                invariant
                    k <= items@.len(),
                    themes == strings_of(result.themes@),
                    ok == (forall|m: int| 0 <= m < k ==> match json_str(#[trigger] items@[m]) {
                        Some(x) => has_theme(themes, x),
                        None => false,
                    }),
                decreases items@.len() - k,
            {
                let present = match items[k].as_str() {
                    Some(x) => find_theme(&result.themes, x),
                    None => false,
                };
                ok = ok && present;
                k = k + 1;
            }
            let asked = json_clone(themes_value);
            return Ok(leaf("themes", asked, ok));
        }
    }
    if let Some(JsonValue::String(t)) = condition.get("concept") {
        let ok = find_theme(&result.themes, t.as_str());
        return Ok(leaf("theme", JsonValue::String(owned(t.as_str())), ok));
    }
    Err(PreferenceConditionError::Unsupported)
}

fn evaluate_all(items: &Vec<JsonValue>, i: usize, result: &ContentAnalysisResult) -> (r: Result<(bool, u32, Vec<JsonValue>), PreferenceConditionError>)
    requires
        i <= items@.len(),
    ensures
        match r {
            Ok((ok, conf, ds)) => all_outcome(items@, i as int, strings_of(result.themes@)) == Some((ok, conf, items_view(ds@))),
            Err(_) => all_outcome(items@, i as int, strings_of(result.themes@)) is None,
        },
    decreases items@, items@.len() - i,
{
    if i >= items.len() {
        proof {
            lemma_items_view(Seq::<JsonValue>::empty());
        }
        return Ok((true, 10000, Vec::new()));
    }
    proof {
        assert(decreases_to!(items@ => items@[i as int]));
    }
    let child = evaluate_condition(&items[i], result)?;
    if !child.matched {
        proof {
            lemma_items_view(Seq::<JsonValue>::empty());
            assert(items_view(Seq::<JsonValue>::empty()) =~= Seq::<JsonView>::empty());
        }
        return Ok((false, child.confidence, Vec::new()));
    }
    let (ok, rest, mut ds) = evaluate_all(items, i + 1, result)?;
    let conf = if ok {
        if child.confidence <= rest { child.confidence } else { rest }
    } else {
        rest
    };
    let ghost tail = ds@;
    let mut out: Vec<JsonValue> = Vec::new();
    out.push(child.details);
    out.append(&mut ds);
    proof {
        lemma_items_view(out@);
        lemma_items_view(tail);
        assert(items_view(out@) =~= seq![json_view(child.details)] + items_view(tail));
    }
    Ok((ok, conf, out))
}

fn evaluate_any(items: &Vec<JsonValue>, i: usize, result: &ContentAnalysisResult) -> (r: Result<ConditionEvaluation, PreferenceConditionError>)
    requires
        i <= items@.len(),
    ensures
        match r {
            Ok(e) => any_outcome(items@, i as int, strings_of(result.themes@)) == Some((e.matched, e.confidence, json_view(e.details)))
                && e.evidence_pages@.len() == 0,
            Err(_) => any_outcome(items@, i as int, strings_of(result.themes@)) is None,
        },
    decreases items@, items@.len() - i,
{
    proof {
        reveal_strlit("any");
    }
    if i >= items.len() {
        let empty: Vec<JsonValue> = Vec::new();
        proof {
            lemma_items_view(empty@);
            assert(items_view(empty@) =~= Seq::<JsonView>::empty());
        }
        let details = single_member("any", JsonValue::Array(empty));
        return Ok(ConditionEvaluation { matched: false, evidence_pages: Vec::new(), details, confidence: 0 });
    }
    proof {
        assert(decreases_to!(items@ => items@[i as int]));
    }
    let child = evaluate_condition(&items[i], result)?;
    if child.matched {
        let ghost d = child.details;
        let mut one: Vec<JsonValue> = Vec::new();
        one.push(child.details);
        proof {
            lemma_items_view(one@);
            assert(items_view(one@) =~= seq![json_view(d)]);
        }
        let details = single_member("any", JsonValue::Array(one));
        return Ok(ConditionEvaluation { matched: true, evidence_pages: Vec::new(), details, confidence: child.confidence });
    }
    evaluate_any(items, i + 1, result)
}

// ---------------------------------------------------------------------------
// The decision of one rule on one analysed archive
// ---------------------------------------------------------------------------
/// A stored preference rule. `confidence_threshold` is in basis points.
#[derive(Debug)]
pub struct PreferenceRule {
    pub id: String,
    pub user_id: String,
    pub name: String,
    pub rule_version: String,
    pub conditions: JsonValue,
    pub exceptions: JsonValue,
    pub action: String,
    pub confidence_threshold: u32,
    pub enabled: bool,
    pub owner_role: String,
    pub false_positive_count: i64,
    pub auto_paused: bool,
}

/// Only enabled rules that were not paused automatically are evaluated.
pub open spec fn rule_active(rule: PreferenceRule) -> bool {
    rule.enabled && !rule.auto_paused
}

pub fn is_rule_active(rule: &PreferenceRule) -> (r: bool)
    ensures
        r == rule_active(*rule),
{
    rule.enabled && !rule.auto_paused
}

/// Exceptions are given unless they are `null` or the empty object.
pub open spec fn exceptions_given(e: JsonValue) -> bool {
    !(e is Null) && !(e matches JsonValue::Object(entries) && entries@.len() == 0)
}

/// What a rule decides on an archive with `themes`: whether it applies, its
/// conditions' confidence and explanation; `None` when its conditions, or its
/// given exceptions, are not covered by the evaluation rules. A rule applies
/// when its conditions match, its exceptions (if given) do not, the
/// confidence reaches its threshold, and an automatic deletion has page
/// evidence (which condition trees never collect).
pub open spec fn rule_outcome(rule: PreferenceRule, themes: Seq<Seq<char>>) -> Option<(bool, u32, JsonView)> {
    match condition_outcome(rule.conditions, themes) {
        None => None,
        Some((matched, conf, details)) => {
            if exceptions_given(rule.exceptions) && condition_outcome(rule.exceptions, themes) is None {
                None
            } else {
                let excepted = exceptions_given(rule.exceptions) && match condition_outcome(rule.exceptions, themes) {
                    Some((hit, _, _)) => hit,
                    None => false,
                };
                let eligible = matched && !excepted && conf >= rule.confidence_threshold && rule.action@
                    != "auto_delete"@;
                Some((eligible, conf, details))
            }
        },
    }
}

/// The decision recorded for a rule: its action when it applies, `no_match` otherwise.
pub open spec fn decision_text(rule: PreferenceRule, eligible: bool) -> Seq<char> {
    if eligible {
        rule.action@
    } else {
        "no_match"@
    }
}

/// An automatic deletion waits to be carried out; any other decision is only recorded.
pub open spec fn initial_status(decision: Seq<char>) -> Seq<char> {
    if decision == "auto_delete"@ {
        "pending"@
    } else {
        "recorded"@
    }
}

/// The evaluation of one rule on one analysed archive.
#[derive(Debug)]
pub struct RuleDecision {
    pub matched: bool,
    pub matched_conditions: JsonValue,
    pub evidence_pages: Vec<i32>,
    pub confidence: u32,
    pub decision: String,
    pub execution_status: String,
}

/// Evaluates a rule's conditions and exceptions on an analysed archive and
/// decides what it does (see `rule_outcome`).
pub fn evaluate_rule(rule: &PreferenceRule, result: &ContentAnalysisResult) -> (r: Result<RuleDecision, PreferenceConditionError>)
    ensures
        match r {
            Ok(d) => rule_outcome(*rule, strings_of(result.themes@)) == Some((d.matched, d.confidence, json_view(d.matched_conditions)))
                && d.evidence_pages@.len() == 0
                && d.decision@ == decision_text(*rule, d.matched)
                && d.execution_status@ == initial_status(d.decision@),
            Err(_) => rule_outcome(*rule, strings_of(result.themes@)) is None,
        },
{
    proof {
        reveal_strlit("auto_delete");
        reveal_strlit("no_match");
        reveal_strlit("pending");
        reveal_strlit("recorded");
    }
    let eval = evaluate_condition(&rule.conditions, result)?;
    let given = match &rule.exceptions {
        JsonValue::Null => false,
        JsonValue::Object(entries) => entries.len() > 0,
        _ => true,
    };
    let excepted = if given {
        let ex = evaluate_condition(&rule.exceptions, result)?;
        ex.matched
    } else {
        false
    };
    let eligible = eval.matched && !excepted && eval.confidence >= rule.confidence_threshold && (!str_eq(
        rule.action.as_str(),
        "auto_delete",
    ) || eval.evidence_pages.len() > 0);
    let decision = if eligible {
        owned(rule.action.as_str())
    } else {
        owned("no_match")
    };
    let status = if str_eq(decision.as_str(), "auto_delete") {
        owned("pending")
    } else {
        owned("recorded")
    };
    Ok(RuleDecision {
        matched: eligible,
        matched_conditions: eval.details,
        evidence_pages: eval.evidence_pages,
        confidence: eval.confidence,
        decision,
        execution_status: status,
    })
}

/// The key that makes a rule's decision on an analysis happen once:
/// `analysis:<analysis id>:rule:<rule id>:<rule version>`.
pub fn decision_key(analysis_id: &str, rule: &PreferenceRule) -> (r: String)
    ensures
        r@ == "analysis:"@ + analysis_id@ + ":rule:"@ + rule.id@ + ":"@ + rule.rule_version@,
{
    let mut s = owned("analysis:");
    s.append(analysis_id);
    s.append(":rule:");
    s.append(rule.id.as_str());
    s.append(":");
    s.append(rule.rule_version.as_str());
    s
}

/// The status of an automatic deletion once tried: skipped when an earlier
/// deletion by the same rule version was undone by a restore, completed when
/// it was carried out (now or before), to be retried otherwise.
pub fn auto_delete_status(restored_before: bool, carried_out: bool) -> (r: &'static str)
    ensures
        r@ == (if restored_before {
            "skipped_correction"@
        } else if carried_out {
            "completed"@
        } else {
            "retryable"@
        }),
{
    if restored_before {
        "skipped_correction"
    } else if carried_out {
        "completed"
    } else {
        "retryable"
    }
}

// ---------------------------------------------------------------------------
// Laws of condition trees and rules
// ---------------------------------------------------------------------------
/// A condition tree that matches does so with full confidence: only a tree
/// that fails can report less.
pub proof fn law_matched_conditions_have_full_confidence(c: JsonValue, themes: Seq<Seq<char>>)
    ensures
        condition_outcome(c, themes) matches Some((matched, conf, _)) ==> (matched ==> conf == 10000),
    decreases c, 0int,
{
    if let Some(JsonValue::Array(items)) = json_get(c, "all"@) {
        lemma_member_decreases(c, "all"@);
        let m = json_get(c, "all"@)->0;
        assert(decreases_to!(m => items));
        assert(decreases_to!(items => items@));
        lemma_all_full(items@, 0, themes);
    } else if let Some(JsonValue::Array(items)) = json_get(c, "any"@) {
        lemma_member_decreases(c, "any"@);
        let m = json_get(c, "any"@)->0;
        assert(decreases_to!(m => items));
        assert(decreases_to!(items => items@));
        lemma_any_full(items@, 0, themes);
    }
}

proof fn lemma_all_full(items: Seq<JsonValue>, i: int, themes: Seq<Seq<char>>)
    ensures
        all_outcome(items, i, themes) matches Some((matched, conf, _)) ==> (matched ==> conf == 10000),
    decreases items, items.len() - i,
{
    if 0 <= i < items.len() {
        assert(decreases_to!(items => items[i]));
        law_matched_conditions_have_full_confidence(items[i], themes);
        lemma_all_full(items, i + 1, themes);
    }
}

proof fn lemma_any_full(items: Seq<JsonValue>, i: int, themes: Seq<Seq<char>>)
    ensures
        any_outcome(items, i, themes) matches Some((matched, conf, _)) ==> (matched ==> conf == 10000),
    decreases items, items.len() - i,
{
    if 0 <= i < items.len() {
        assert(decreases_to!(items => items[i]));
        law_matched_conditions_have_full_confidence(items[i], themes);
        lemma_any_full(items, i + 1, themes);
    }
}

/// No rule deletes an archive automatically: condition trees collect no page
/// evidence, and an automatic deletion needs some.
pub proof fn law_rules_never_delete_automatically(rule: PreferenceRule, themes: Seq<Seq<char>>)
    ensures
        rule_outcome(rule, themes) matches Some((eligible, _, _)) ==> decision_text(rule, eligible) != "auto_delete"@
            && initial_status(decision_text(rule, eligible)) == "recorded"@,
{
    reveal_strlit("no_match");
    reveal_strlit("auto_delete");
    assert("no_match"@[0] != "auto_delete"@[0]);
}

} // verus!
