use otamoryx::cold_start::{
    candidate_status, delete_stage_for, evidence_state, feedback_outcome, merge_algorithm_variant,
    negative_score_halves, sustained_session, CandidateStatus, DeleteStage, EvidenceState, FeedbackFlags,
    FeedbackOutcome,
};

fn flags() -> FeedbackFlags {
    FeedbackFlags {
        open_count: 0,
        continue_count: 0,
        repeat_open_count: 0,
        manual_delete: 0,
        max_duration_ms: 0,
        effective_read: false,
        deep_read: false,
        quick_exit: false,
    }
}

fn scores(f: &FeedbackFlags) -> (bool, f64) {
    let outcome = feedback_outcome(f);
    (outcome == FeedbackOutcome::Positive, negative_score_halves(outcome) as f64 / 2.0)
}

#[test]
fn manual_delete_is_always_negative_even_after_deep_read() {
    let aggregate = FeedbackFlags {
        manual_delete: 1,
        effective_read: true,
        deep_read: true,
        ..flags()
    };
    let (positive, negative) = scores(&aggregate);
    assert!(!positive);
    assert!(negative >= 3.0);
    assert_eq!(feedback_outcome(&aggregate), FeedbackOutcome::StrongNegative);
}

#[test]
fn only_meaningful_reading_or_quick_exit_is_informative() {
    let neutral = flags();
    assert_eq!(scores(&neutral), (false, 0.0));
    let quick = FeedbackFlags { quick_exit: true, ..flags() };
    assert_eq!(scores(&quick).1, 0.5);
    assert_eq!(feedback_outcome(&quick), FeedbackOutcome::QuickExitNegative);
}

#[test]
fn sustained_sessions_and_rereads_are_positive() {
    let sustained = FeedbackFlags { open_count: 1, max_duration_ms: 30_000, ..flags() };
    assert!(sustained_session(&sustained));
    assert_eq!(feedback_outcome(&sustained), FeedbackOutcome::Positive);
    let left_at_once = FeedbackFlags { quick_exit: true, ..sustained };
    assert!(!sustained_session(&left_at_once));
    assert_eq!(feedback_outcome(&left_at_once), FeedbackOutcome::QuickExitNegative);
    let short = FeedbackFlags { open_count: 1, max_duration_ms: 29_999, ..flags() };
    assert_eq!(feedback_outcome(&short), FeedbackOutcome::Neutral);
    let again = FeedbackFlags { repeat_open_count: 1, ..flags() };
    assert_eq!(feedback_outcome(&again), FeedbackOutcome::Positive);
}

#[test]
fn the_first_manual_delete_records_its_stage() {
    assert_eq!(delete_stage_for("manual_delete", false, false, false, 0), Some(DeleteStage::BeforeOpen));
    assert_eq!(delete_stage_for("manual_delete", false, false, false, 2), Some(DeleteStage::AfterOpen));
    assert_eq!(delete_stage_for("manual_delete", false, true, false, 2), Some(DeleteStage::AfterEffectiveRead));
    assert_eq!(delete_stage_for("manual_delete", false, false, true, 0), Some(DeleteStage::AfterEffectiveRead));
    assert_eq!(delete_stage_for("manual_delete", true, false, false, 0), None);
    assert_eq!(delete_stage_for("exit", false, false, false, 0), None);
    assert_eq!(DeleteStage::AfterEffectiveRead.as_str(), "after_effective_read");
    assert_eq!(DeleteStage::BeforeOpen.as_str(), "before_open");
}

#[test]
fn variants_are_recorded_once_in_first_seen_order() {
    let mut variants = vec!["weighted-v1".to_string()];
    merge_algorithm_variant(&mut variants, Some("baseline"));
    merge_algorithm_variant(&mut variants, Some("weighted-v1"));
    merge_algorithm_variant(&mut variants, None);
    assert_eq!(variants, vec!["weighted-v1".to_string(), "baseline".to_string()]);
}

#[test]
fn candidates_are_promoted_only_with_formal_evidence() {
    assert_eq!(evidence_state(false, 2, 50, true), EvidenceState::InsufficientEvidence);
    assert_eq!(evidence_state(false, 3, 0, false), EvidenceState::Observing);
    assert_eq!(evidence_state(false, 8, 12, true), EvidenceState::Eligible);
    assert_eq!(evidence_state(false, 8, 11, true), EvidenceState::Observing);
    assert_eq!(evidence_state(false, 8, 12, false), EvidenceState::Observing);
    assert_eq!(candidate_status(EvidenceState::Eligible, false), CandidateStatus::Promoted);
    assert_eq!(candidate_status(EvidenceState::Observing, false), CandidateStatus::Observing);
    assert_eq!(EvidenceState::InsufficientEvidence.as_str(), "insufficient_evidence");
    assert_eq!(CandidateStatus::Promoted.as_str(), "promoted");
}

#[test]
fn observation_only_candidates_stay_observing_past_thresholds() {
    let state = evidence_state(true, 100, 100, true);
    assert_eq!(state, EvidenceState::Observing);
    assert_eq!(candidate_status(state, true), CandidateStatus::Observing);
    assert_eq!(candidate_status(EvidenceState::Eligible, true), CandidateStatus::Observing);
}

use otamoryx::cold_start::{queue_update, QueueStatus, QueuedEventResult};

#[test]
fn failed_queue_events_back_off_and_fail_on_the_fifth_attempt() {
    assert_eq!(queue_update(QueuedEventResult::Processed, 3), (QueueStatus::Completed, None));
    assert_eq!(queue_update(QueuedEventResult::ProfilePending, 0), (QueueStatus::WaitingAnalysis, None));
    assert_eq!(queue_update(QueuedEventResult::Failed, 0), (QueueStatus::Retryable, Some(1)));
    assert_eq!(queue_update(QueuedEventResult::Failed, 3), (QueueStatus::Retryable, Some(8)));
    assert_eq!(queue_update(QueuedEventResult::Failed, 4), (QueueStatus::Failed, Some(16)));
    assert_eq!(queue_update(QueuedEventResult::Failed, 9), (QueueStatus::Failed, Some(32)));
    assert_eq!(QueueStatus::WaitingAnalysis.as_str(), "waiting_analysis");
}
