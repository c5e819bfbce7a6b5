//! Decisions of the cold-start preference learner: what a reading history
//! says about an archive, at which stage a manual deletion happened, which
//! recommendation variants an archive was shown under, and when a learned
//! rule candidate has enough evidence to be promoted.
use crate::text::{str_eq, strings_of};
use vstd::prelude::*;

verus! {

/// Fewer distinct archives than this are not evidence at all.
pub const MIN_OBSERVING_ARCHIVES: usize = 3;

/// A candidate needs this many distinct archives to be promoted...
pub const MIN_FORMAL_ARCHIVES: usize = 8;

/// ...and this many informative results.
pub const MIN_FORMAL_RESULTS: i64 = 12;

/// A session with at least this much reading time counts as sustained.
pub const SUSTAINED_SESSION_MS: i64 = 30_000;

// ---------------------------------------------------------------------------
// What a reading history says
// ---------------------------------------------------------------------------
/// The counts and flags of one user's history with one archive that decide
/// whether it speaks for or against the archive.
#[derive(Clone, Copy, Debug, PartialEq, Eq, Structural)]
pub struct FeedbackFlags {
    pub open_count: i64,
    pub continue_count: i64,
    pub repeat_open_count: i64,
    pub manual_delete: i64,
    pub max_duration_ms: i64,
    pub effective_read: bool,
    pub deep_read: bool,
    pub quick_exit: bool,
}

/// Which way a history points.
#[derive(Clone, Copy, Debug, PartialEq, Eq, Structural)]
pub enum FeedbackOutcome {
    /// A manual deletion: strongly negative.
    StrongNegative,
    /// Meaningful reading: positive.
    Positive,
    /// A quick exit and nothing else: weakly negative.
    QuickExitNegative,
    /// Nothing that says either way.
    Neutral,
}

/// Opened, read for a while, and not left at once.
pub open spec fn is_sustained(f: FeedbackFlags) -> bool {
    f.open_count > 0 && f.max_duration_ms >= SUSTAINED_SESSION_MS && !f.quick_exit
}

pub open spec fn outcome_of(f: FeedbackFlags) -> FeedbackOutcome {
    if f.manual_delete > 0 {
        FeedbackOutcome::StrongNegative
    } else if f.effective_read || f.deep_read || f.continue_count > 0 || f.repeat_open_count > 0 || is_sustained(f) {
        FeedbackOutcome::Positive
    } else if f.quick_exit {
        FeedbackOutcome::QuickExitNegative
    } else {
        FeedbackOutcome::Neutral
    }
}

pub fn sustained_session(f: &FeedbackFlags) -> (r: bool)
    ensures
        r == is_sustained(*f),
{
    f.open_count > 0 && f.max_duration_ms >= SUSTAINED_SESSION_MS && !f.quick_exit
}

/// The direction of a history: a manual deletion always counts against the
/// archive, whatever was read before it.
pub fn feedback_outcome(f: &FeedbackFlags) -> (r: FeedbackOutcome)
    ensures
        r == outcome_of(*f),
{
    if f.manual_delete > 0 {
        FeedbackOutcome::StrongNegative
    } else if f.effective_read || f.deep_read || f.continue_count > 0 || f.repeat_open_count > 0 || sustained_session(f) {
        FeedbackOutcome::Positive
    } else if f.quick_exit {
        FeedbackOutcome::QuickExitNegative
    } else {
        FeedbackOutcome::Neutral
    }
}

/// The negative score of an outcome in half points: 3.0 for a deletion, 0.5
/// for a quick exit.
pub fn negative_score_halves(o: FeedbackOutcome) -> (r: u32)
    ensures
        r == (match o {
            FeedbackOutcome::StrongNegative => 6u32,
            FeedbackOutcome::QuickExitNegative => 1u32,
            _ => 0u32,
        }),
{
    match o {
        FeedbackOutcome::StrongNegative => 6,
        FeedbackOutcome::QuickExitNegative => 1,
        _ => 0,
    }
}

/// A manual deletion is always negative feedback, even after a deep read.
pub proof fn law_manual_delete_is_always_negative(f: FeedbackFlags)
    requires
        f.manual_delete > 0,
    ensures
        outcome_of(f) == FeedbackOutcome::StrongNegative,
{
}

/// Only meaningful reading or a quick exit is informative: a history with
/// neither says nothing.
pub proof fn law_only_reading_or_quick_exit_is_informative(f: FeedbackFlags)
    requires
        f.manual_delete <= 0,
        !f.effective_read,
        !f.deep_read,
        f.continue_count <= 0,
        f.repeat_open_count <= 0,
        !is_sustained(f),
    ensures
        outcome_of(f) == (if f.quick_exit {
            FeedbackOutcome::QuickExitNegative
        } else {
            FeedbackOutcome::Neutral
        }),
{
}

// ---------------------------------------------------------------------------
// Deletion stage
// ---------------------------------------------------------------------------
/// When, in a user's history with an archive, a manual deletion came.
#[derive(Clone, Copy, Debug, PartialEq, Eq, Structural)]
pub enum DeleteStage {
    BeforeOpen,
    AfterOpen,
    AfterEffectiveRead,
}

impl DeleteStage {
    pub fn as_str(&self) -> (r: &'static str)
        ensures
            r@ == match *self {
                DeleteStage::BeforeOpen => "before_open"@,
                DeleteStage::AfterOpen => "after_open"@,
                DeleteStage::AfterEffectiveRead => "after_effective_read"@,
            },
    {
        match self {
            DeleteStage::BeforeOpen => "before_open",
            DeleteStage::AfterOpen => "after_open",
            DeleteStage::AfterEffectiveRead => "after_effective_read",
        }
    }
}

/// The stage recorded for an event: only the first manual deletion of an
/// archive gets one; it comes after an effective read if this event or an
/// earlier one was one, else after an open if the archive was opened.
pub open spec fn delete_stage_of(
    event_type: Seq<char>,
    stage_recorded: bool,
    previous_effective: bool,
    event_effective: bool,
    previous_open_count: i64,
) -> Option<DeleteStage> {
    if event_type == "manual_delete"@ && !stage_recorded {
        Some(
            if previous_effective || event_effective {
                DeleteStage::AfterEffectiveRead
            } else if previous_open_count > 0 {
                DeleteStage::AfterOpen
            } else {
                DeleteStage::BeforeOpen
            },
        )
    } else {
        None
    }
}

pub fn delete_stage_for(
    event_type: &str,
    stage_recorded: bool,
    previous_effective: bool,
    event_effective: bool,
    previous_open_count: i64,
) -> (r: Option<DeleteStage>)
    ensures
        r == delete_stage_of(event_type@, stage_recorded, previous_effective, event_effective, previous_open_count),
{
    if str_eq(event_type, "manual_delete") && !stage_recorded {
        Some(
            if previous_effective || event_effective {
                DeleteStage::AfterEffectiveRead
            } else if previous_open_count > 0 {
                DeleteStage::AfterOpen
            } else {
                DeleteStage::BeforeOpen
            },
        )
    } else {
        None
    }
}

// ---------------------------------------------------------------------------
// Recommendation variants
// ---------------------------------------------------------------------------
/// The variants an archive was recommended under, in first-seen order: an
/// event's variant is added when it is new.
pub fn merge_algorithm_variant(variants: &mut Vec<String>, variant: Option<&str>)
    ensures
        match variant {
            Some(v) => if strings_of(old(variants)@).contains(v@) {
                strings_of(final(variants)@) == strings_of(old(variants)@)
            } else {
                strings_of(final(variants)@) == strings_of(old(variants)@).push(v@)
            },
            None => strings_of(final(variants)@) == strings_of(old(variants)@),
        },
{
    match variant {
        Some(v) => {
            if !crate::text::contains_str(variants, v) {
                let ghost before = variants@;
                variants.push(crate::text::owned(v));
                proof {
                    assert(strings_of(variants@) =~= strings_of(before).push(v@));
                }
            }
        },
        None => {},
    }
}

// ---------------------------------------------------------------------------
// Candidate evidence
// ---------------------------------------------------------------------------
/// How far the evidence for a rule candidate goes.
#[derive(Clone, Copy, Debug, PartialEq, Eq, Structural)]
pub enum EvidenceState {
    InsufficientEvidence,
    Observing,
    Eligible,
}

impl EvidenceState {
    pub fn as_str(&self) -> (r: &'static str)
        ensures
            r@ == match *self {
                EvidenceState::InsufficientEvidence => "insufficient_evidence"@,
                EvidenceState::Observing => "observing"@,
                EvidenceState::Eligible => "eligible"@,
            },
    {
        match self {
            EvidenceState::InsufficientEvidence => "insufficient_evidence",
            EvidenceState::Observing => "observing",
            EvidenceState::Eligible => "eligible",
        }
    }
}

/// A candidate's standing: promoted to a rule, or only observed.
#[derive(Clone, Copy, Debug, PartialEq, Eq, Structural)]
pub enum CandidateStatus {
    Promoted,
    Observing,
}

impl CandidateStatus {
    pub fn as_str(&self) -> (r: &'static str)
        ensures
            r@ == match *self {
                CandidateStatus::Promoted => "promoted"@,
                CandidateStatus::Observing => "observing"@,
            },
    {
        match self {
            CandidateStatus::Promoted => "promoted",
            CandidateStatus::Observing => "observing",
        }
    }
}

/// The evidence for a candidate. Observation-only features (canonical
/// themes) are always observed; below the observing floor there is no
/// evidence; a candidate is eligible with enough archives and results and a
/// decisive direction (`decisive`: a direction probability of at least 0.95
/// and a lift of at least 0.10 either way).
pub open spec fn evidence_state_of(observing_only: bool, unique_archive_count: usize, informative_result_count: i64, decisive: bool) -> EvidenceState {
    if observing_only {
        EvidenceState::Observing
    } else if unique_archive_count < MIN_OBSERVING_ARCHIVES {
        EvidenceState::InsufficientEvidence
    } else if unique_archive_count >= MIN_FORMAL_ARCHIVES && informative_result_count >= MIN_FORMAL_RESULTS && decisive {
        EvidenceState::Eligible
    } else {
        EvidenceState::Observing
    }
}

pub open spec fn status_of(state: EvidenceState, observing_only: bool) -> CandidateStatus {
    if state == EvidenceState::Eligible && !observing_only {
        CandidateStatus::Promoted
    } else {
        CandidateStatus::Observing
    }
}

pub fn evidence_state(observing_only: bool, unique_archive_count: usize, informative_result_count: i64, decisive: bool) -> (r: EvidenceState)
    ensures
        r == evidence_state_of(observing_only, unique_archive_count, informative_result_count, decisive),
{
    if observing_only {
        EvidenceState::Observing
    } else if unique_archive_count < MIN_OBSERVING_ARCHIVES {
        EvidenceState::InsufficientEvidence
    } else if unique_archive_count >= MIN_FORMAL_ARCHIVES && informative_result_count >= MIN_FORMAL_RESULTS && decisive {
        EvidenceState::Eligible
    } else {
        EvidenceState::Observing
    }
}

/// Promoted exactly when eligible (the caller then enables the learned rule;
/// otherwise it disables it).
pub fn candidate_status(state: EvidenceState, observing_only: bool) -> (r: CandidateStatus)
    ensures
        r == status_of(state, observing_only),
{
    if state == EvidenceState::Eligible && !observing_only {
        CandidateStatus::Promoted
    } else {
        CandidateStatus::Observing
    }
}

/// Observation-only candidates stay observed, even past every promotion
/// threshold.
pub proof fn law_observing_only_candidates_are_never_promoted(unique_archive_count: usize, informative_result_count: i64, decisive: bool)
    ensures
        evidence_state_of(true, unique_archive_count, informative_result_count, decisive) == EvidenceState::Observing,
        status_of(evidence_state_of(true, unique_archive_count, informative_result_count, decisive), true)
            == CandidateStatus::Observing,
{
}

/// A promoted candidate always had enough evidence: at least the formal
/// number of archives and results, and a decisive direction.
pub proof fn law_promotion_needs_formal_evidence(
    observing_only: bool,
    unique_archive_count: usize,
    informative_result_count: i64,
    decisive: bool,
)
    ensures
        status_of(evidence_state_of(observing_only, unique_archive_count, informative_result_count, decisive), observing_only)
            == CandidateStatus::Promoted ==> unique_archive_count >= MIN_FORMAL_ARCHIVES && informative_result_count
            >= MIN_FORMAL_RESULTS && decisive && !observing_only,
{
}

// ---------------------------------------------------------------------------
// The learning queue
// ---------------------------------------------------------------------------
/// A queued event fails for good on this attempt.
pub const MAX_RETRIES: i64 = 5;

/// How processing a queued event went.
#[derive(Clone, Copy, Debug, PartialEq, Eq, Structural)]
pub enum QueuedEventResult {
    Processed,
    /// The archive's content profile is not ready yet.
    ProfilePending,
    Failed,
}

/// The state a queued event moves to.
#[derive(Clone, Copy, Debug, PartialEq, Eq, Structural)]
pub enum QueueStatus {
    Completed,
    WaitingAnalysis,
    Retryable,
    Failed,
}

impl QueueStatus {
    pub fn as_str(&self) -> (r: &'static str)
        ensures
            r@ == match *self {
                QueueStatus::Completed => "completed"@,
                QueueStatus::WaitingAnalysis => "waiting_analysis"@,
                QueueStatus::Retryable => "retryable"@,
                QueueStatus::Failed => "failed"@,
            },
    {
        match self {
            QueueStatus::Completed => "completed",
            QueueStatus::WaitingAnalysis => "waiting_analysis",
            QueueStatus::Retryable => "retryable",
            QueueStatus::Failed => "failed",
        }
    }
}

/// The backoff before retrying a failed event that had `attempts` attempts
/// before this one: 2 to that power, at most 2^5 = 32 seconds (the attempts
/// taken as a `u32`, as the exponent of `i64::pow`).
pub open spec fn backoff_secs(attempts: i64) -> i64 {
    let a = attempts as u32;
    vstd::arithmetic::power2::pow2(if a < 5 {
        a as nat
    } else {
        5
    }) as i64
}

/// The new state of a queued event and, for a failure, the seconds until its
/// next attempt: a failure is final on the `MAX_RETRIES`-th attempt.
pub open spec fn queue_update_of(result: QueuedEventResult, attempts: i64) -> (QueueStatus, Option<i64>) {
    match result {
        QueuedEventResult::Processed => (QueueStatus::Completed, None),
        QueuedEventResult::ProfilePending => (QueueStatus::WaitingAnalysis, None),
        QueuedEventResult::Failed => (
            if attempts + 1 >= MAX_RETRIES {
                QueueStatus::Failed
            } else {
                QueueStatus::Retryable
            },
            Some(backoff_secs(attempts)),
        ),
    }
}

pub fn queue_update(result: QueuedEventResult, attempts: i64) -> (r: (QueueStatus, Option<i64>))
    requires
        attempts < i64::MAX,
    ensures
        r == queue_update_of(result, attempts),
{
    match result {
        QueuedEventResult::Processed => (QueueStatus::Completed, None),
        QueuedEventResult::ProfilePending => (QueueStatus::WaitingAnalysis, None),
        QueuedEventResult::Failed => {
            let status = if attempts + 1 >= MAX_RETRIES {
                QueueStatus::Failed
            } else {
                QueueStatus::Retryable
            };
            let exponent = attempts as u32;
            proof {
                vstd::arithmetic::power2::lemma2_to64();
            }
            let delay: i64 = if exponent == 0 {
                1
            } else if exponent == 1 {
                2
            } else if exponent == 2 {
                4
            } else if exponent == 3 {
                8
            } else if exponent == 4 {
                16
            } else {
                32
            };
            (status, Some(delay))
        },
    }
}

} // verus!
