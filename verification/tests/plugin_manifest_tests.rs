use otamoryx::json::{json_equal, JsonValue};
use otamoryx::plugin_bootstrap::PluginSeedPayload;
use otamoryx::plugin_manifest::{
    builtin_config_schema, builtin_plugin_manifests, default_enabled_on_bootstrap, is_valid_plugin_id, PluginManifestError,
    PluginScheduleDeclaration, PluginType, BUILTIN_COMICINFO_PARSER_ID, BUILTIN_DATE_ADDED_ID,
    BUILTIN_FILENAME_PARSER_ID, BUILTIN_TAG_COPIER_ID,
};

#[test]
fn applies_default_enabled_policy() {
    assert!(default_enabled_on_bootstrap(BUILTIN_FILENAME_PARSER_ID));
    assert!(default_enabled_on_bootstrap(BUILTIN_COMICINFO_PARSER_ID));
    assert!(default_enabled_on_bootstrap(BUILTIN_DATE_ADDED_ID));
    assert!(!default_enabled_on_bootstrap(BUILTIN_TAG_COPIER_ID));
    assert!(!default_enabled_on_bootstrap("ehentai-metadata"));
}

#[test]
fn builds_builtin_plugin_manifests() {
    let manifests = builtin_plugin_manifests();
    assert_eq!(manifests.len(), 4);

    for manifest in manifests {
        manifest
            .validate()
            .expect("builtin manifest should satisfy v1 schema");
        assert!(
            manifest.config_schema.is_object(),
            "builtin manifest must include object config_schema"
        );
    }
}

#[test]
fn builtin_manifests_keep_their_order_and_ids() {
    let ids: Vec<String> = builtin_plugin_manifests()
        .into_iter()
        .map(|manifest| manifest.id)
        .collect();
    assert_eq!(
        ids,
        vec![
            BUILTIN_FILENAME_PARSER_ID.to_string(),
            BUILTIN_COMICINFO_PARSER_ID.to_string(),
            BUILTIN_DATE_ADDED_ID.to_string(),
            BUILTIN_TAG_COPIER_ID.to_string(),
        ]
    );
}

#[test]
fn plugin_ids_are_lowercase_words_joined_by_dashes() {
    assert!(is_valid_plugin_id("ehentai-metadata"));
    assert!(is_valid_plugin_id("a1"));
    assert!(!is_valid_plugin_id(""));
    assert!(!is_valid_plugin_id("-lead"));
    assert!(!is_valid_plugin_id("trail-"));
    assert!(!is_valid_plugin_id("Upper"));
    assert!(!is_valid_plugin_id("under_score"));
}

#[test]
fn validation_reports_the_first_broken_field() {
    let mut manifest = builtin_plugin_manifests().remove(0);
    manifest.name = "   ".to_string();
    assert!(matches!(
        manifest.validate(),
        Err(PluginManifestError::MissingField("plugin.name"))
    ));

    let mut manifest = builtin_plugin_manifests().remove(0);
    manifest.id = "Bad Id".to_string();
    assert!(matches!(
        manifest.validate(),
        Err(PluginManifestError::InvalidField("plugin.id"))
    ));

    let mut manifest = builtin_plugin_manifests().remove(0);
    manifest.manifest_version = 2;
    assert!(matches!(
        manifest.validate(),
        Err(PluginManifestError::InvalidField("plugin.manifest_version"))
    ));

    let mut manifest = builtin_plugin_manifests().remove(0);
    manifest.config_schema = JsonValue::Null;
    assert!(matches!(
        manifest.validate(),
        Err(PluginManifestError::InvalidField("config_schema"))
    ));

    let mut manifest = builtin_plugin_manifests().remove(0);
    manifest.permissions.network = vec![" ".to_string()];
    assert!(matches!(
        manifest.validate(),
        Err(PluginManifestError::InvalidField("permissions.network"))
    ));
}

#[test]
fn schedules_are_checked_with_the_cron_parser() {
    let mut manifest = builtin_plugin_manifests().remove(0);
    manifest.schedule = Some(PluginScheduleDeclaration {
        cron: "0 0 * * * *".to_string(),
        timezone: None,
    });
    assert!(manifest.validate().is_ok());

    manifest.schedule = Some(PluginScheduleDeclaration {
        cron: "not a schedule".to_string(),
        timezone: None,
    });
    assert!(matches!(
        manifest.validate(),
        Err(PluginManifestError::InvalidField("schedule.cron"))
    ));

    manifest.schedule = Some(PluginScheduleDeclaration {
        cron: "0 0 * * * *".to_string(),
        timezone: Some("  ".to_string()),
    });
    assert!(matches!(
        manifest.validate(),
        Err(PluginManifestError::InvalidField("schedule.timezone"))
    ));
}

#[test]
fn manifest_errors_have_their_messages() {
    assert_eq!(
        PluginManifestError::MissingField("plugin.id").message(),
        "manifest 缺少必填字段: plugin.id"
    );
    assert_eq!(
        PluginManifestError::InvalidField("schedule.cron").message(),
        "manifest 字段非法: schedule.cron"
    );
    assert_eq!(
        PluginManifestError::Io("gone".to_string()).message(),
        "读取 plugin manifest 失败: gone"
    );
    assert_eq!(
        PluginManifestError::Parse("bad".to_string()).message(),
        "解析 plugin manifest 失败: bad"
    );
}

#[test]
fn plugin_types_have_their_table_names() {
    assert_eq!(PluginType::Metadata.as_db_str(), "metadata");
    assert_eq!(PluginType::Download.as_db_str(), "download");
    assert_eq!(PluginType::Processor.as_db_str(), "processor");
    assert_eq!(PluginType::Analyzer.as_db_str(), "analyzer");
    assert_eq!(PluginType::Script.as_db_str(), "script");
    assert_eq!(PluginType::Endpoint.as_db_str(), "endpoint");
}

#[test]
fn seed_payloads_carry_the_bootstrap_policy() {
    let mut manifests = builtin_plugin_manifests();
    let tag_copier = manifests.pop().unwrap();
    let filename = manifests.remove(0);
    let payload = PluginSeedPayload::from_manifest(filename, JsonValue::Null, JsonValue::Null);
    assert_eq!(payload.id, "filename-parser");
    assert_eq!(payload.plugin_type, "metadata");
    assert_eq!(payload.manifest_version, 1);
    assert!(payload.default_enabled);
    assert_eq!(payload.author.as_deref(), Some("OtamoryX Team"));

    let mut blank = tag_copier;
    blank.description = "   ".to_string();
    let payload = PluginSeedPayload::from_manifest(blank, JsonValue::Null, JsonValue::Null);
    assert!(!payload.default_enabled);
    assert_eq!(payload.description, None);
}

#[test]
fn builtin_schema_admits_no_properties() {
    let schema = builtin_config_schema();
    assert!(json_equal(
        &schema,
        &JsonValue::Object(vec![
            ("additional_properties".to_string(), JsonValue::Bool(false)),
            ("properties".to_string(), JsonValue::Object(Vec::new())),
            ("type".to_string(), JsonValue::String("object".to_string())),
        ])
    ));
    let descriptions: Vec<String> = builtin_plugin_manifests().into_iter().map(|m| m.description).collect();
    assert_eq!(descriptions[3], "Utility plugin to apply user-selected tags in batch.");
    for manifest in builtin_plugin_manifests() {
        assert!(json_equal(&manifest.config_schema, &schema));
    }
}
