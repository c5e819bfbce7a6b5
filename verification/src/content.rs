//! The result of a content analysis, as the recommendation and preference
//! rules read it.
use vstd::prelude::*;

verus! {

/// A concept found in an archive. `confidence` is in basis points: 0 to 10000
/// stand for 0.0 to 1.0.
#[derive(Debug)]
pub struct ContentConcept {
    pub name: String,
    pub confidence: u32,
    pub evidence_pages: Vec<i32>,
}

/// The themes and concepts found in an archive.
#[derive(Debug)]
pub struct ContentAnalysisResult {
    pub themes: Vec<String>,
    pub concepts: Vec<ContentConcept>,
}

} // verus!
