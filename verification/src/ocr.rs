//! OCR rules: the model catalog, the validation of OCR settings, the record of
//! model operations (downloads and activations, one at a time), and the
//! runtime state that decides when a built engine may be installed.
use crate::text::{owned, str_eq};
use vstd::prelude::*;

verus! {

// ---------------------------------------------------------------------------
// Model catalog
// ---------------------------------------------------------------------------
#[derive(Debug, Clone, Copy)]
pub struct OcrModelDefinition {
    pub id: &'static str,
    pub name: &'static str,
    pub language: &'static str,
    pub version: &'static str,
    pub detector: &'static str,
    pub recognizer: &'static str,
    pub dictionary: &'static str,
}

/// The ids of the models in the catalog, in catalog order.
pub open spec fn catalog_ids() -> Seq<Seq<char>> {
    seq!["ppocrv5-mobile-zh"@, "ppocrv3-mobile-ja"@, "ppocrv5-mobile-en"@]
}

/// The models OCR can use.
pub fn ocr_models() -> (r: Vec<OcrModelDefinition>)
    ensures
        r@.len() == 3,
        forall|k: int| 0 <= k < 3 ==> (#[trigger] r@[k]).id@ == catalog_ids()[k],
        r@[0].detector@ == "pp-ocrv5_mobile_det.onnx"@,
        r@[0].recognizer@ == "pp-ocrv5_mobile_rec.onnx"@,
        r@[0].dictionary@ == "ppocrv5_dict.txt"@,
        r@[1].detector@ == "pp-ocrv5_mobile_det.onnx"@,
        r@[1].recognizer@ == "japan_pp-ocrv3_mobile_rec.onnx"@,
        r@[1].dictionary@ == "ppocr_keys_v1.txt"@,
        r@[2].detector@ == "pp-ocrv5_mobile_det.onnx"@,
        r@[2].recognizer@ == "en_pp-ocrv5_mobile_rec.onnx"@,
        r@[2].dictionary@ == "ppocrv5_en_dict.txt"@,
{
    let mut r: Vec<OcrModelDefinition> = Vec::new();
    r.push(
        OcrModelDefinition {
            id: "ppocrv5-mobile-zh",
            name: "PP-OCRv5 Mobile 中文",
            language: "zh",
            version: "PP-OCRv5",
            detector: "pp-ocrv5_mobile_det.onnx",
            recognizer: "pp-ocrv5_mobile_rec.onnx",
            dictionary: "ppocrv5_dict.txt",
        },
    );
    r.push(
        OcrModelDefinition {
            id: "ppocrv3-mobile-ja",
            name: "PP-OCRv3 Mobile 日本語",
            language: "ja",
            version: "PP-OCRv3",
            detector: "pp-ocrv5_mobile_det.onnx",
            recognizer: "japan_pp-ocrv3_mobile_rec.onnx",
            dictionary: "ppocr_keys_v1.txt",
        },
    );
    r.push(
        OcrModelDefinition {
            id: "ppocrv5-mobile-en",
            name: "PP-OCRv5 Mobile English",
            language: "en",
            version: "PP-OCRv5",
            detector: "pp-ocrv5_mobile_det.onnx",
            recognizer: "en_pp-ocrv5_mobile_rec.onnx",
            dictionary: "ppocrv5_en_dict.txt",
        },
    );
    r
}

/// Why an OCR request was refused.
#[derive(Debug)]
pub enum OcrError {
    UnknownModel { model_id: String },
    InvalidLongEdge,
    InvalidJpegQuality,
    InvalidDecodeBudget,
    InvalidOutputBudget,
    InvalidFailurePolicy,
    OperationRunning,
    RuntimeOperationRunning,
    Switching,
    ModelChanged,
}

pub open spec fn ocr_error_text(e: OcrError) -> Seq<char> {
    match e {
        OcrError::UnknownModel { model_id } => "unknown OCR model `"@ + model_id@ + "`"@,
        OcrError::InvalidLongEdge => "OCR image long edge must be between 512 and 4096, with the large-image edge no smaller than the target edge"@,
        OcrError::InvalidJpegQuality => "OCR JPEG quality must be between 60 and 95"@,
        OcrError::InvalidDecodeBudget => "OCR decode budgets are outside the supported safe range"@,
        OcrError::InvalidOutputBudget => "OCR output budgets are outside the supported safe range"@,
        OcrError::InvalidFailurePolicy => "OCR failure policy is outside the supported safe range"@,
        OcrError::OperationRunning => "another OCR model operation is already running"@,
        OcrError::RuntimeOperationRunning => "another OCR runtime operation is already running"@,
        OcrError::Switching => "OCR model is switching; retry the analysis"@,
        OcrError::ModelChanged => "OCR model changed; retry the analysis"@,
    }
}

impl OcrError {
    pub fn message(&self) -> (r: String)
        ensures
            r@ == ocr_error_text(*self),
    {
        match self {
            OcrError::UnknownModel { model_id } => {
                let mut s = String::from_str("unknown OCR model `");
                s.append(model_id.as_str());
                s.append("`");
                s
            },
            OcrError::InvalidLongEdge => String::from_str(
                "OCR image long edge must be between 512 and 4096, with the large-image edge no smaller than the target edge",
            ),
            OcrError::InvalidJpegQuality => String::from_str("OCR JPEG quality must be between 60 and 95"),
            OcrError::InvalidDecodeBudget => String::from_str(
                "OCR decode budgets are outside the supported safe range",
            ),
            OcrError::InvalidOutputBudget => String::from_str(
                "OCR output budgets are outside the supported safe range",
            ),
            OcrError::InvalidFailurePolicy => String::from_str(
                "OCR failure policy is outside the supported safe range",
            ),
            OcrError::OperationRunning => String::from_str("another OCR model operation is already running"),
            OcrError::RuntimeOperationRunning => String::from_str(
                "another OCR runtime operation is already running",
            ),
            OcrError::Switching => String::from_str("OCR model is switching; retry the analysis"),
            OcrError::ModelChanged => String::from_str("OCR model changed; retry the analysis"),
        }
    }
}

/// The catalog entry of `model_id`.
pub fn model_definition(model_id: &str) -> (r: Result<OcrModelDefinition, OcrError>)
    ensures
        match r {
            Ok(m) => m.id@ == model_id@ && catalog_ids().contains(model_id@),
            Err(e) => !catalog_ids().contains(model_id@) && (e matches OcrError::UnknownModel { model_id: id }
                && id@ == model_id@),
        },
{
    let models = ocr_models();
    let mut i: usize = 0;
    while i < models.len()
        invariant
            i <= models@.len(),
            models@.len() == 3,
            forall|k: int| 0 <= k < 3 ==> (#[trigger] models@[k]).id@ == catalog_ids()[k],
            forall|k: int| 0 <= k < i ==> catalog_ids()[k] != model_id@,
        decreases models@.len() - i,
    {
        if str_eq(models[i].id, model_id) {
            assert(catalog_ids()[i as int] == model_id@);
            return Ok(models[i]);
        }
        i = i + 1;
    }
    Err(OcrError::UnknownModel { model_id: owned(model_id) })
}

// ---------------------------------------------------------------------------
// Settings
// ---------------------------------------------------------------------------
#[derive(Debug, Clone, Copy)]
pub struct OcrImageSettings {
    pub target_long_edge: u32,
    pub large_image_long_edge: u32,
    pub jpeg_quality: u32,
    pub large_image_jpeg_quality: u32,
    pub preferred_decode_bytes: u64,
    pub large_image_decode_bytes: u64,
    pub max_output_bytes: u64,
    pub large_image_max_output_bytes: u64,
}

#[derive(Debug, Clone, Copy)]
pub struct OcrFailurePolicy {
    pub max_page_retries: u32,
}

#[derive(Debug)]
pub struct OcrSettings {
    pub enabled: bool,
    pub active_model_id: String,
    pub image: OcrImageSettings,
    pub failure_policy: OcrFailurePolicy,
}

pub const MIB: u64 = 1024 * 1024;

/// The first rule that the settings break, if any: long edges within 512 to
/// 4096 with the large-image edge no smaller than the target edge; JPEG
/// qualities within 60 to 95; decode budgets within 32 to 256 MiB and 64 to 512
/// MiB, the large-image budget no smaller; output budgets within 256 KiB to 16
/// MiB and 512 KiB to 32 MiB, the large-image budget no smaller; at most three
/// retries per page.
pub open spec fn settings_issue(s: OcrSettings) -> Option<OcrError> {
    let i = s.image;
    if !(512 <= i.target_long_edge <= 4096) || !(512 <= i.large_image_long_edge <= 4096)
        || i.large_image_long_edge < i.target_long_edge {
        Some(OcrError::InvalidLongEdge)
    } else if !(60 <= i.jpeg_quality <= 95) || !(60 <= i.large_image_jpeg_quality <= 95) {
        Some(OcrError::InvalidJpegQuality)
    } else if !(32 * MIB <= i.preferred_decode_bytes <= 256 * MIB) || !(64 * MIB
        <= i.large_image_decode_bytes <= 512 * MIB) || i.large_image_decode_bytes
        < i.preferred_decode_bytes {
        Some(OcrError::InvalidDecodeBudget)
    } else if !(256 * 1024 <= i.max_output_bytes <= 16 * MIB) || !(512 * 1024
        <= i.large_image_max_output_bytes <= 32 * MIB) || i.large_image_max_output_bytes
        < i.max_output_bytes {
        Some(OcrError::InvalidOutputBudget)
    } else if i.large_image_long_edge == 0 || s.failure_policy.max_page_retries > 3 {
        Some(OcrError::InvalidFailurePolicy)
    } else {
        None
    }
}

pub fn validate_ocr_settings(settings: &OcrSettings) -> (r: Result<(), OcrError>)
    ensures
        match settings_issue(*settings) {
            None => r is Ok,
            Some(e) => r matches Err(f) && f == e,
        },
{
    let image = &settings.image;
    if !(512 <= image.target_long_edge && image.target_long_edge <= 4096) || !(512
        <= image.large_image_long_edge && image.large_image_long_edge <= 4096)
        || image.large_image_long_edge < image.target_long_edge {
        return Err(OcrError::InvalidLongEdge);
    }
    if !(60 <= image.jpeg_quality && image.jpeg_quality <= 95) || !(60 <= image.large_image_jpeg_quality
        && image.large_image_jpeg_quality <= 95) {
        return Err(OcrError::InvalidJpegQuality);
    }
    if !(32 * MIB <= image.preferred_decode_bytes && image.preferred_decode_bytes <= 256 * MIB) || !(64
        * MIB <= image.large_image_decode_bytes && image.large_image_decode_bytes <= 512 * MIB)
        || image.large_image_decode_bytes < image.preferred_decode_bytes {
        return Err(OcrError::InvalidDecodeBudget);
    }
    if !(256 * 1024 <= image.max_output_bytes && image.max_output_bytes <= 16 * MIB) || !(512 * 1024
        <= image.large_image_max_output_bytes && image.large_image_max_output_bytes <= 32 * MIB)
        || image.large_image_max_output_bytes < image.max_output_bytes {
        return Err(OcrError::InvalidOutputBudget);
    }
    if image.large_image_long_edge == 0 || settings.failure_policy.max_page_retries > 3 {
        return Err(OcrError::InvalidFailurePolicy);
    }
    Ok(())
}

// ---------------------------------------------------------------------------
// Model operations
// ---------------------------------------------------------------------------
pub open spec fn opt_view(v: Option<String>) -> Option<Seq<char>> {
    match v {
        Some(s) => Some(s@),
        None => None,
    }
}

/// The record as a map: model id to `None` while its operation runs, or the
/// error it ended with.
pub open spec fn ops_map(entries: Seq<(String, Option<String>)>) -> Map<Seq<char>, Option<Seq<char>>>
    decreases entries.len(),
{
    if entries.len() == 0 {
        Map::empty()
    } else {
        ops_map(entries.drop_last()).insert(entries.last().0@, opt_view(entries.last().1))
    }
}

pub open spec fn ops_keys_unique(entries: Seq<(String, Option<String>)>) -> bool {
    forall|a: int, b: int| 0 <= a < b < entries.len() ==> #[trigger] entries[a].0@ != #[trigger] entries[b].0@
}

proof fn lemma_ops_map_index(entries: Seq<(String, Option<String>)>)
    requires
        ops_keys_unique(entries),
    ensures
        forall|k: Seq<char>| #[trigger]
            ops_map(entries).dom().contains(k) <==> exists|i: int| 0 <= i < entries.len() && entries[i].0@ == k,
        forall|i: int| 0 <= i < entries.len() ==> #[trigger] ops_map(entries)[entries[i].0@] == opt_view(entries[i].1),
    decreases entries.len(),
{
    if entries.len() > 0 {
        let init = entries.drop_last();
        lemma_ops_map_index(init);
        let n = entries.len() - 1;
        assert forall|k: Seq<char>| #[trigger]
            ops_map(entries).dom().contains(k) <==> exists|i: int| 0 <= i < entries.len() && entries[i].0@ == k by {
            if ops_map(entries).dom().contains(k) && k != entries.last().0@ {
                let i = choose|i: int| 0 <= i < init.len() && init[i].0@ == k;
                assert(entries[i] == init[i]);
            }
            if exists|i: int| 0 <= i < entries.len() && entries[i].0@ == k {
                let i = choose|i: int| 0 <= i < entries.len() && entries[i].0@ == k;
                if i < n {
                    assert(init[i] == entries[i]);
                }
            }
        }
        assert forall|i: int| 0 <= i < entries.len() implies #[trigger] ops_map(entries)[entries[i].0@]
            == opt_view(entries[i].1) by {
            if i < n {
                assert(init[i] == entries[i]);
                assert(entries[i].0@ != entries[n].0@);
            }
        }
    }
}

proof fn lemma_ops_map_equal(a: Seq<(String, Option<String>)>, m: Map<Seq<char>, Option<Seq<char>>>)
    requires
        ops_keys_unique(a),
        forall|k: Seq<char>| #[trigger] m.dom().contains(k) <==> exists|i: int| 0 <= i < a.len() && a[i].0@ == k,
        forall|i: int| 0 <= i < a.len() ==> #[trigger] m[a[i].0@] == opt_view(a[i].1),
    ensures
        ops_map(a) == m,
{
    lemma_ops_map_index(a);
    assert forall|k: Seq<char>| #[trigger] ops_map(a).dom().contains(k) implies ops_map(a)[k] == m[k] by {
        let i = choose|i: int| 0 <= i < a.len() && a[i].0@ == k;
    }
    assert(ops_map(a) =~= m);
}

/// Which models have an operation running or a recorded error.
pub struct OcrOperations {
    entries: Vec<(String, Option<String>)>,
}

impl OcrOperations {
    pub closed spec fn view(&self) -> Map<Seq<char>, Option<Seq<char>>> {
        ops_map(self.entries@)
    }

    pub closed spec fn wf(&self) -> bool {
        ops_keys_unique(self.entries@)
    }

    pub fn new() -> (r: Self)
        ensures
            r.wf(),
            r.view() == Map::<Seq<char>, Option<Seq<char>>>::empty(),
    {
        OcrOperations { entries: Vec::new() }
    }

    fn find(&self, model_id: &str) -> (r: Option<usize>)
        requires
            self.wf(),
        ensures
            match r {
                Some(i) => i < self.entries@.len() && self.entries@[i as int].0@ == model_id@,
                None => forall|j: int| 0 <= j < self.entries@.len() ==> #[trigger] self.entries@[j].0@ != model_id@,
            },
    {
        let mut i: usize = 0;
        while i < self.entries.len()
            invariant
                i <= self.entries@.len(),
                forall|j: int| 0 <= j < i ==> #[trigger] self.entries@[j].0@ != model_id@,
            decreases self.entries@.len() - i,
        {
            if str_eq(self.entries[i].0.as_str(), model_id) {
                return Some(i);
            }
            i = i + 1;
        }
        None
    }

    /// Whether some model operation is still running.
    pub fn any_running(&self) -> (r: bool)
        requires
            self.wf(),
        ensures
            r == exists|k: Seq<char>| #[trigger] self.view().dom().contains(k) && self.view()[k] is None,
    {
        proof {
            lemma_ops_map_index(self.entries@);
        }
        let mut i: usize = 0;
        while i < self.entries.len()
            invariant
                i <= self.entries@.len(),
                ops_keys_unique(self.entries@),
                forall|j: int| 0 <= j < i ==> #[trigger] self.entries@[j].1 is Some,
            decreases self.entries@.len() - i,
        {
            if self.entries[i].1.is_none() {
                proof {
                    lemma_ops_map_index(self.entries@);
                }
                assert(self.view()[self.entries@[i as int].0@] is None);
                assert(self.view().dom().contains(self.entries@[i as int].0@));
                return true;
            }
            i = i + 1;
        }
        proof {
            if exists|k: Seq<char>| #[trigger] self.view().dom().contains(k) && self.view()[k] is None {
                let k = choose|k: Seq<char>| #[trigger] self.view().dom().contains(k) && self.view()[k] is None;
                let j = choose|j: int| 0 <= j < self.entries@.len() && self.entries@[j].0@ == k;
                assert(self.entries@[j].1 is Some);
            }
        }
        false
    }

    /// A model whose operation is running, if any.
    pub fn running_model(&self) -> (r: Option<String>)
        requires
            self.wf(),
        ensures
            match r {
                Some(id) => self.view().dom().contains(id@) && self.view()[id@] is None,
                None => forall|k: Seq<char>| #[trigger] self.view().dom().contains(k) ==> self.view()[k] is Some,
            },
    {
        proof {
            lemma_ops_map_index(self.entries@);
        }
        let mut i: usize = 0;
        while i < self.entries.len()
            invariant
                i <= self.entries@.len(),
                ops_keys_unique(self.entries@),
                forall|j: int| 0 <= j < i ==> #[trigger] self.entries@[j].1 is Some,
            decreases self.entries@.len() - i,
        {
            if self.entries[i].1.is_none() {
                proof {
                    lemma_ops_map_index(self.entries@);
                }
                return Some(owned(self.entries[i].0.as_str()));
            }
            i = i + 1;
        }
        proof {
            assert forall|k: Seq<char>| #[trigger] self.view().dom().contains(k) implies self.view()[k] is Some by {
                let j = choose|j: int| 0 <= j < self.entries@.len() && self.entries@[j].0@ == k;
                assert(self.entries@[j].1 is Some);
            }
        }
        None
    }

    /// The error recorded for a model: none while its operation runs, or
    /// when nothing is recorded.
    pub fn recorded_error(&self, model_id: &str) -> (r: Option<String>)
        requires
            self.wf(),
        ensures
            opt_view(r) == if self.view().dom().contains(model_id@) {
                self.view()[model_id@]
            } else {
                None
            },
    {
        proof {
            lemma_ops_map_index(self.entries@);
        }
        match self.find(model_id) {
            Some(i) => match &self.entries[i].1 {
                Some(e) => Some(owned(e.as_str())),
                None => None,
            },
            None => None,
        }
    }

    /// Records `error` for `model_id` (`None` marks a running operation).
    pub fn operation_error(&mut self, model_id: &str, error: Option<String>)
        requires
            old(self).wf(),
        ensures
            final(self).wf(),
            final(self).view() == old(self).view().insert(model_id@, opt_view(error)),
    {
        let ghost old_es = self.entries@;
        let ghost ev = opt_view(error);
        proof {
            lemma_ops_map_index(old_es);
        }
        match self.find(model_id) {
            Some(i) => {
                self.entries.set(i, (owned(model_id), error));
                proof {
                    let es = self.entries@;
                    assert forall|a: int, b: int| 0 <= a < b < es.len() implies #[trigger] es[a].0@
                        != #[trigger] es[b].0@ by {
                        if a != i && b != i {
                            assert(es[a] == old_es[a] && es[b] == old_es[b]);
                        } else if a == i {
                            assert(es[b] == old_es[b]);
                            assert(old_es[i as int].0@ != old_es[b].0@);
                        } else {
                            assert(es[a] == old_es[a]);
                            assert(old_es[a].0@ != old_es[i as int].0@);
                        }
                    }
                    let m = ops_map(old_es).insert(model_id@, ev);
                    assert forall|k: Seq<char>| #[trigger] m.dom().contains(k) <==> exists|j: int|
                        0 <= j < es.len() && es[j].0@ == k by {
                        if m.dom().contains(k) && k != model_id@ {
                            let j = choose|j: int| 0 <= j < old_es.len() && old_es[j].0@ == k;
                            assert(es[j] == old_es[j]);
                        }
                        if m.dom().contains(k) && k == model_id@ {
                            assert(es[i as int].0@ == k);
                        }
                        if exists|j: int| 0 <= j < es.len() && es[j].0@ == k {
                            let j = choose|j: int| 0 <= j < es.len() && es[j].0@ == k;
                            if j != i {
                                assert(old_es[j] == es[j]);
                            }
                        }
                    }
                    assert forall|j: int| 0 <= j < es.len() implies #[trigger] m[es[j].0@] == opt_view(es[j].1) by {
                        if j != i {
                            assert(old_es[j] == es[j]);
                            assert(old_es[j].0@ != old_es[i as int].0@);
                        }
                    }
                    lemma_ops_map_equal(es, m);
                }
            },
            None => {
                self.entries.push((owned(model_id), error));
                proof {
                    let es = self.entries@;
                    assert(es.drop_last() =~= old_es);
                    assert forall|a: int, b: int| 0 <= a < b < es.len() implies #[trigger] es[a].0@
                        != #[trigger] es[b].0@ by {
                        assert(es[a] == old_es[a]);
                        if b < old_es.len() {
                            assert(es[b] == old_es[b]);
                        }
                    }
                }
            },
        }
    }

    /// Forgets the record of `model_id`.
    pub fn remove(&mut self, model_id: &str)
        requires
            old(self).wf(),
        ensures
            final(self).wf(),
            final(self).view() == old(self).view().remove(model_id@),
    {
        let ghost old_es = self.entries@;
        proof {
            lemma_ops_map_index(old_es);
        }
        match self.find(model_id) {
            Some(i) => {
                self.entries.remove(i);
                proof {
                    let es = self.entries@;
                    assert(es =~= old_es.remove(i as int));
                    assert forall|a: int, b: int| 0 <= a < b < es.len() implies #[trigger] es[a].0@
                        != #[trigger] es[b].0@ by {
                        let a2 = if a < i { a } else { a + 1 };
                        let b2 = if b < i { b } else { b + 1 };
                        assert(es[a] == old_es[a2] && es[b] == old_es[b2]);
                    }
                    let m = ops_map(old_es).remove(model_id@);
                    assert forall|k: Seq<char>| #[trigger] m.dom().contains(k) <==> exists|j: int|
                        0 <= j < es.len() && es[j].0@ == k by {
                        if m.dom().contains(k) {
                            let j = choose|j: int| 0 <= j < old_es.len() && old_es[j].0@ == k;
                            assert(j != i);
                            if j < i {
                                assert(es[j] == old_es[j]);
                            } else {
                                assert(es[j - 1] == old_es[j]);
                            }
                        }
                        if exists|j: int| 0 <= j < es.len() && es[j].0@ == k {
                            let j = choose|j: int| 0 <= j < es.len() && es[j].0@ == k;
                            let j2 = if j < i { j } else { j + 1 };
                            assert(es[j] == old_es[j2]);
                            assert(old_es[j2].0@ != old_es[i as int].0@);
                        }
                    }
                    assert forall|j: int| 0 <= j < es.len() implies #[trigger] m[es[j].0@] == opt_view(es[j].1) by {
                        let j2 = if j < i { j } else { j + 1 };
                        assert(es[j] == old_es[j2]);
                        assert(old_es[j2].0@ != old_es[i as int].0@);
                    }
                    lemma_ops_map_equal(es, m);
                }
            },
            None => {
                proof {
                    assert(!ops_map(old_es).dom().contains(model_id@));
                    assert(ops_map(old_es).remove(model_id@) =~= ops_map(old_es));
                }
            },
        }
    }

    /// Starts an operation on `model_id`, unless one is already running.
    pub fn begin(&mut self, model_id: &str) -> (r: Result<(), OcrError>)
        requires
            old(self).wf(),
        ensures
            final(self).wf(),
            (exists|k: Seq<char>| #[trigger] old(self).view().dom().contains(k) && old(self).view()[k] is None)
                ==> (r matches Err(OcrError::OperationRunning)) && final(self).view() == old(self).view(),
            !(exists|k: Seq<char>| #[trigger] old(self).view().dom().contains(k) && old(self).view()[k] is None)
                ==> r is Ok && final(self).view() == old(self).view().insert(model_id@, None),
    {
        if self.any_running() {
            return Err(OcrError::OperationRunning);
        }
        self.operation_error(model_id, None);
        Ok(())
    }

    /// Ends a download: a failure is recorded with its message, a success (or
    /// a failure with an empty message) leaves no record.
    pub fn finish_download(&mut self, model_id: &str, result: Result<(), String>)
        requires
            old(self).wf(),
        ensures
            final(self).wf(),
            final(self).view() == match result {
                Err(e) => if e@.len() > 0 {
                    old(self).view().insert(model_id@, Some(e@))
                } else {
                    old(self).view().remove(model_id@)
                },
                Ok(_) => old(self).view().remove(model_id@),
            },
    {
        let ghost before = self.view();
        match result {
            Ok(()) => {
                self.operation_error(model_id, Some(String::new()));
                self.remove(model_id);
                assert(before.insert(model_id@, Some(Seq::<char>::empty())).remove(model_id@) =~= before.remove(
                    model_id@,
                ));
            },
            Err(e) => {
                let empty = e.as_str().unicode_len() == 0;
                let ghost ev = e@;
                self.operation_error(model_id, Some(e));
                if empty {
                    self.remove(model_id);
                    assert(before.insert(model_id@, Some(ev)).remove(model_id@) =~= before.remove(model_id@));
                }
            },
        }
    }
}

// ---------------------------------------------------------------------------
// Runtime state
// ---------------------------------------------------------------------------
/// The OCR runtime: the model whose engine is installed, whether one is, a
/// generation that every installation or reset advances, and whether an
/// engine is being built. An engine built under an older generation is stale.
pub struct OcrRuntimeState {
    pub active_model_id: Option<String>,
    pub engine_installed: bool,
    pub generation: u64,
    pub switching: bool,
}

/// What a recognition finds in the runtime.
#[derive(Debug, Clone, Copy, PartialEq, Eq, Structural)]
pub enum EngineLookup {
    /// An engine is being built: retry later.
    Switching,
    /// The engine of the requested model is installed, at this generation.
    Ready(u64),
    /// The requested model has no engine yet: build one.
    NeedsActivation,
}

impl OcrRuntimeState {
    /// An installed engine always belongs to a model.
    pub open spec fn wf(&self) -> bool {
        self.engine_installed ==> self.active_model_id is Some
    }

    pub fn new() -> (r: Self)
        ensures
            r.wf(),
            r.active_model_id is None,
            !r.engine_installed,
            r.generation == 0,
            !r.switching,
    {
        OcrRuntimeState { active_model_id: None, engine_installed: false, generation: 0, switching: false }
    }

    /// New settings drop the engine and invalidate every build in flight.
    pub fn reset(&mut self)
        ensures
            final(self).wf(),
            final(self).generation == vstd::wrapping::u64_specs::wrapping_add(old(self).generation, 1),
            final(self).active_model_id is None,
            !final(self).engine_installed,
            !final(self).switching,
    {
        self.generation = self.generation.wrapping_add(1);
        self.engine_installed = false;
        self.active_model_id = None;
        self.switching = false;
    }

    /// What a recognition with `model_id` finds.
    pub fn lookup(&self, model_id: &str) -> (r: EngineLookup)
        ensures
            r == if self.switching {
                EngineLookup::Switching
            } else if self.engine_installed && (self.active_model_id matches Some(m) && m@ == model_id@) {
                EngineLookup::Ready(self.generation)
            } else {
                EngineLookup::NeedsActivation
            },
    {
        if self.switching {
            return EngineLookup::Switching;
        }
        match &self.active_model_id {
            Some(m) => if self.engine_installed && str_eq(m.as_str(), model_id) {
                EngineLookup::Ready(self.generation)
            } else {
                EngineLookup::NeedsActivation
            },
            None => EngineLookup::NeedsActivation,
        }
    }

    /// Starts building an engine; the generation it is built under is
    /// returned. Refused while another build runs.
    pub fn begin_switch(&mut self) -> (r: Result<u64, OcrError>)
        requires
            old(self).wf(),
        ensures
            final(self).wf(),
            old(self).switching ==> (r matches Err(OcrError::Switching)) && *final(self) == *old(self),
            !old(self).switching ==> r == Ok::<u64, OcrError>(old(self).generation) && final(self).switching
                && final(self).generation == old(self).generation && final(self).active_model_id
                == old(self).active_model_id && final(self).engine_installed == old(self).engine_installed,
    {
        if self.switching {
            return Err(OcrError::Switching);
        }
        self.switching = true;
        Ok(self.generation)
    }

    /// A build under `generation` failed: the switch ends unless a newer
    /// generation owns the runtime.
    pub fn abort_switch(&mut self, generation: u64)
        requires
            old(self).wf(),
        ensures
            final(self).wf(),
            final(self).switching == (old(self).switching && old(self).generation != generation),
            final(self).generation == old(self).generation,
            final(self).active_model_id == old(self).active_model_id,
            final(self).engine_installed == old(self).engine_installed,
    {
        if self.generation == generation {
            self.switching = false;
        }
    }

    /// An engine for `model_id` was built under `generation` for a recognition:
    /// it is installed (and the new generation returned) unless the runtime
    /// changed meanwhile.
    pub fn install(&mut self, generation: u64, model_id: &str) -> (r: Option<u64>)
        requires
            old(self).wf(),
        ensures
            final(self).wf(),
            (old(self).generation != generation || !old(self).switching) ==> r is None && *final(self)
                == *old(self),
            (old(self).generation == generation && old(self).switching) ==> {
                &&& r == Some(vstd::wrapping::u64_specs::wrapping_add(generation, 1))
                &&& final(self).generation == vstd::wrapping::u64_specs::wrapping_add(generation, 1)
                &&& final(self).engine_installed
                &&& final(self).active_model_id matches Some(m) && m@ == model_id@
                &&& !final(self).switching
            },
    {
        if self.generation != generation || !self.switching {
            return None;
        }
        self.active_model_id = Some(owned(model_id));
        self.engine_installed = true;
        self.generation = self.generation.wrapping_add(1);
        self.switching = false;
        Some(self.generation)
    }

    /// An engine for `model_id` was built under `generation` by an explicit
    /// activation: it is installed when the runtime did not change meanwhile and
    /// OCR is enabled; otherwise nothing is installed, and a switch still owned
    /// by this generation is ended with the engine dropped.
    pub fn finish_activation(&mut self, generation: u64, model_id: &str, enabled: bool) -> (r: bool)
        requires
            old(self).wf(),
        ensures
            final(self).wf(),
            r == (old(self).generation == generation && old(self).switching && enabled),
            r ==> final(self).engine_installed && (final(self).active_model_id matches Some(m) && m@ == model_id@)
                && final(self).generation == vstd::wrapping::u64_specs::wrapping_add(generation, 1)
                && !final(self).switching,
            !r && old(self).generation == generation && old(self).switching ==> !final(self).switching
                && !final(self).engine_installed && final(self).active_model_id is None
                && final(self).generation == old(self).generation,
            !r && !(old(self).generation == generation && old(self).switching) ==> *final(self) == *old(self),
    {
        if self.generation != generation || !self.switching || !enabled {
            if self.generation == generation && self.switching {
                self.switching = false;
                self.engine_installed = false;
                self.active_model_id = None;
            }
            return false;
        }
        self.active_model_id = Some(owned(model_id));
        self.engine_installed = true;
        self.generation = self.generation.wrapping_add(1);
        self.switching = false;
        true
    }
}

// ---------------------------------------------------------------------------
// Laws
// ---------------------------------------------------------------------------
/// The catalog ids are distinct, so a model id names at most one model.
pub proof fn law_catalog_ids_distinct(a: int, b: int)
    requires
        0 <= a < 3,
        0 <= b < 3,
        catalog_ids()[a] == catalog_ids()[b],
    ensures
        a == b,
{
    reveal_strlit("ppocrv5-mobile-zh");
    reveal_strlit("ppocrv3-mobile-ja");
    reveal_strlit("ppocrv5-mobile-en");
    assert(catalog_ids()[0][6] != catalog_ids()[1][6]);
    assert(catalog_ids()[0][15] != catalog_ids()[2][15]);
    assert(catalog_ids()[1][6] != catalog_ids()[2][6]);
}

/// What the settings page shows of a catalog model.
#[derive(Debug)]
pub struct OcrModelStatus {
    pub id: String,
    pub name: String,
    pub language: String,
    pub version: String,
    pub downloaded: bool,
    pub active: bool,
    pub loading: bool,
    pub error: Option<String>,
}

pub open spec fn names_model(model_id: Option<&str>, id: Seq<char>) -> bool {
    match model_id {
        Some(m) => m@ == id,
        None => false,
    }
}

/// The status of each catalog model, given which are downloaded (in catalog
/// order), the model the settings select and the one the runtime has
/// loaded: the model with a running operation is loading (one of them, should
/// there be several), and a model shows its recorded error unless the runtime
/// has it loaded.
pub fn model_statuses(
    ops: &OcrOperations,
    models: &Vec<OcrModelDefinition>,
    downloaded: &Vec<bool>,
    active_model_id: &str,
    runtime_active: Option<&str>,
) -> (r: Vec<OcrModelStatus>)
    requires
        ops.wf(),
        downloaded@.len() == models@.len(),
    ensures
        r@.len() == models@.len(),
        forall|k: int|
            0 <= k < r@.len() ==> {
                let st = #[trigger] r@[k];
                let m = models@[k];
                &&& st.id@ == m.id@
                &&& st.name@ == m.name@
                &&& st.language@ == m.language@
                &&& st.version@ == m.version@
                &&& st.downloaded == downloaded@[k]
                &&& st.active == (m.id@ == active_model_id@)
                &&& opt_view(st.error) == if names_model(runtime_active, m.id@) {
                    None
                } else if ops.view().dom().contains(m.id@) {
                    ops.view()[m.id@]
                } else {
                    None
                }
            },
        (forall|k: int| 0 <= k < r@.len() ==> !(#[trigger] r@[k]).loading) || exists|l: Seq<char>|
            ops.view().dom().contains(l) && ops.view()[l] is None && forall|k: int|
                0 <= k < r@.len() ==> (#[trigger] r@[k]).loading == (models@[k].id@ == l),
{
    let loading_model = ops.running_model();
    let mut out: Vec<OcrModelStatus> = Vec::new();
    let mut k: usize = 0;
    while k < models.len()
        invariant
            k <= models@.len(),
            downloaded@.len() == models@.len(),
            ops.wf(),
            out@.len() == k,
            match loading_model {
                Some(id) => ops.view().dom().contains(id@) && ops.view()[id@] is None,
                None => forall|key: Seq<char>| #[trigger] ops.view().dom().contains(key) ==> ops.view()[key] is Some,
            },
            forall|q: int|
                0 <= q < k ==> {
                    let st = #[trigger] out@[q];
                    let m = models@[q];
                    &&& st.id@ == m.id@
                    &&& st.name@ == m.name@
                    &&& st.language@ == m.language@
                    &&& st.version@ == m.version@
                    &&& st.downloaded == downloaded@[q]
                    &&& st.active == (m.id@ == active_model_id@)
                    &&& opt_view(st.error) == if names_model(runtime_active, m.id@) {
                        None
                    } else if ops.view().dom().contains(m.id@) {
                        ops.view()[m.id@]
                    } else {
                        None
                    }
                    &&& st.loading == match loading_model {
                        Some(id) => m.id@ == id@,
                        None => false,
                    }
                },
        decreases models@.len() - k,
    {
        let m = models[k];
        let loading = match &loading_model {
            Some(id) => str_eq(id.as_str(), m.id),
            None => false,
        };
        let runtime_has_it = match runtime_active {
            Some(active) => str_eq(active, m.id),
            None => false,
        };
        let error = if runtime_has_it {
            None
        } else {
            ops.recorded_error(m.id)
        };
        out.push(
            OcrModelStatus {
                id: owned(m.id),
                name: owned(m.name),
                language: owned(m.language),
                version: owned(m.version),
                downloaded: downloaded[k],
                active: str_eq(active_model_id, m.id),
                loading,
                error,
            },
        );
        k = k + 1;
    }
    proof {
        if let Some(id) = loading_model {
            assert forall|q: int| 0 <= q < out@.len() implies (#[trigger] out@[q]).loading == (models@[q].id@ == id@) by {}
        }
    }
    out
}

} // verus!
