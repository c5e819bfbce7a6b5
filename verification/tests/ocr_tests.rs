use otamoryx::ocr::{
    model_definition, model_statuses, ocr_models, validate_ocr_settings, EngineLookup, OcrError, OcrFailurePolicy,
    OcrImageSettings, OcrOperations, OcrRuntimeState, OcrSettings,
};

const MIB: u64 = 1024 * 1024;

fn settings() -> OcrSettings {
    OcrSettings {
        enabled: true,
        active_model_id: "ppocrv5-mobile-zh".to_string(),
        image: OcrImageSettings {
            target_long_edge: 2048,
            large_image_long_edge: 4096,
            jpeg_quality: 85,
            large_image_jpeg_quality: 80,
            preferred_decode_bytes: 64 * MIB,
            large_image_decode_bytes: 128 * MIB,
            max_output_bytes: 4 * MIB,
            large_image_max_output_bytes: 8 * MIB,
        },
        failure_policy: OcrFailurePolicy { max_page_retries: 2 },
    }
}

#[test]
fn the_catalog_lists_three_models() {
    let ids: Vec<&str> = ocr_models().iter().map(|m| m.id).collect();
    assert_eq!(ids, vec!["ppocrv5-mobile-zh", "ppocrv3-mobile-ja", "ppocrv5-mobile-en"]);
    let ja = model_definition("ppocrv3-mobile-ja").unwrap();
    assert_eq!(ja.recognizer, "japan_pp-ocrv3_mobile_rec.onnx");
    let error = model_definition("tesseract").unwrap_err();
    assert_eq!(error.message(), "unknown OCR model `tesseract`");
}

#[test]
fn settings_are_validated_rule_by_rule() {
    assert!(validate_ocr_settings(&settings()).is_ok());

    let mut s = settings();
    s.image.large_image_long_edge = 1024;
    assert!(matches!(validate_ocr_settings(&s), Err(OcrError::InvalidLongEdge)));

    let mut s = settings();
    s.image.jpeg_quality = 96;
    assert!(matches!(validate_ocr_settings(&s), Err(OcrError::InvalidJpegQuality)));

    let mut s = settings();
    s.image.preferred_decode_bytes = 16 * MIB;
    assert!(matches!(validate_ocr_settings(&s), Err(OcrError::InvalidDecodeBudget)));

    let mut s = settings();
    s.image.large_image_max_output_bytes = 2 * MIB;
    assert!(matches!(validate_ocr_settings(&s), Err(OcrError::InvalidOutputBudget)));

    let mut s = settings();
    s.failure_policy.max_page_retries = 4;
    assert!(matches!(validate_ocr_settings(&s), Err(OcrError::InvalidFailurePolicy)));
    assert_eq!(
        OcrError::InvalidFailurePolicy.message(),
        "OCR failure policy is outside the supported safe range"
    );
}

#[test]
fn one_model_operation_runs_at_a_time() {
    let mut operations = OcrOperations::new();
    assert!(!operations.any_running());
    assert!(operations.begin("zh").is_ok());
    assert!(operations.any_running());
    assert!(matches!(operations.begin("ja"), Err(OcrError::OperationRunning)));
    operations.finish_download("zh", Err("network down".to_string()));
    assert!(!operations.any_running());
    assert!(operations.begin("ja").is_ok());
    operations.finish_download("ja", Ok(()));
    assert!(!operations.any_running());
    operations.operation_error("ja", None);
    assert!(operations.any_running());
    operations.remove("ja");
    assert!(!operations.any_running());
}

#[test]
fn stale_builds_never_install_an_engine() {
    let mut runtime = OcrRuntimeState::new();
    assert_eq!(runtime.lookup("zh"), EngineLookup::NeedsActivation);
    let generation = runtime.begin_switch().unwrap();
    assert_eq!(runtime.lookup("zh"), EngineLookup::Switching);
    assert!(matches!(runtime.begin_switch(), Err(OcrError::Switching)));
    assert_eq!(runtime.install(generation, "zh"), Some(generation + 1));
    assert_eq!(runtime.lookup("zh"), EngineLookup::Ready(generation + 1));
    assert_eq!(runtime.lookup("ja"), EngineLookup::NeedsActivation);

    let generation = runtime.begin_switch().unwrap();
    runtime.reset();
    assert_eq!(runtime.install(generation, "ja"), None);
    assert_eq!(runtime.lookup("ja"), EngineLookup::NeedsActivation);

    let generation = runtime.begin_switch().unwrap();
    assert!(!runtime.finish_activation(generation, "ja", false));
    assert!(!runtime.switching);
    assert!(runtime.active_model_id.is_none());

    let generation = runtime.begin_switch().unwrap();
    runtime.abort_switch(generation);
    assert!(!runtime.switching);
    let generation = runtime.begin_switch().unwrap();
    assert!(runtime.finish_activation(generation, "ja", true));
    assert_eq!(runtime.active_model_id.as_deref(), Some("ja"));
}

#[test]
fn model_statuses_show_loading_errors_and_selection() {
    let mut ops = OcrOperations::new();
    ops.operation_error("ppocrv3-mobile-ja", Some("download failed".to_string()));
    ops.operation_error("ppocrv5-mobile-en", None);
    let models = ocr_models();
    let statuses = model_statuses(&ops, &models, &vec![true, false, false], "ppocrv5-mobile-zh", None);
    assert_eq!(statuses.len(), 3);
    assert!(statuses[0].active && statuses[0].downloaded && !statuses[0].loading);
    assert_eq!(statuses[1].error.as_deref(), Some("download failed"));
    assert!(!statuses[1].active && !statuses[1].loading);
    assert!(statuses[2].loading);
    assert!(statuses[2].error.is_none());
    assert_eq!(statuses[1].name, "PP-OCRv3 Mobile 日本語");
    let loaded = model_statuses(&ops, &models, &vec![true, true, true], "ppocrv3-mobile-ja", Some("ppocrv3-mobile-ja"));
    assert!(loaded[1].error.is_none());
    assert!(loaded[1].active);
}
