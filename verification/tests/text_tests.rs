use otamoryx::keyed::KeyedTable;
use otamoryx::namespace_policy::{is_system_managed_theme_namespace, metadata_namespace_set};
use otamoryx::ordered::{insert_sorted, str_lt};
use otamoryx::paths::{lexical_normalize, normalize_path};
use otamoryx::plugin_executor::{CooldownTracker, PluginExecutionError};
use otamoryx::plugin_manager::{ensure_enabled, ensure_initialized, list_item, PluginManagerError};
use otamoryx::plugin_manifest::PluginType;
use otamoryx::sql::{detect_sql_operation, extract_table_from_sql, normalize_table_name, tokenize_sql, SqlOperation};
use otamoryx::text::{collapse_whitespace, trim};

#[test]
fn whitespace_is_collapsed_and_trimmed() {
    assert_eq!(collapse_whitespace("  a \t b\n c  "), "a b c");
    assert_eq!(collapse_whitespace("   "), "");
    assert_eq!(trim("\u{3000} x \u{a0}"), "x");
}

#[test]
fn strings_order_by_code_point() {
    assert!(str_lt("a", "b"));
    assert!(str_lt("ab", "abc"));
    assert!(!str_lt("abc", "ab"));
    assert!(!str_lt("b", "b"));
    assert!(str_lt("Z", "a"));
    let mut set: Vec<String> = Vec::new();
    for s in ["pear", "apple", "pear", "fig"] {
        insert_sorted(&mut set, s.to_string());
    }
    assert_eq!(set, vec!["apple", "fig", "pear"]);
}

#[test]
fn sql_statements_are_classified() {
    assert_eq!(detect_sql_operation("  SELECT 1"), Some(SqlOperation::Read));
    assert_eq!(detect_sql_operation("with x as (select 1) select * from x"), Some(SqlOperation::Read));
    assert_eq!(detect_sql_operation("Replace into t values (1)"), Some(SqlOperation::Write));
    assert_eq!(detect_sql_operation("vacuum"), None);
    assert_eq!(detect_sql_operation(""), None);
    assert_eq!(tokenize_sql("select a,b from \"t\";"), vec!["select", "a", "b", "from", "\"t\""]);
    assert_eq!(
        extract_table_from_sql("UPDATE main.`Tags` SET x = 1", SqlOperation::Write),
        Some("tags".to_string())
    );
    assert_eq!(
        extract_table_from_sql("select * from archives", SqlOperation::Read),
        Some("archives".to_string())
    );
    assert_eq!(extract_table_from_sql("select 1", SqlOperation::Read), None);
    assert_eq!(normalize_table_name(" `db`.\"Table\" "), "table");
}

#[test]
fn paths_are_normalized_lexically() {
    assert_eq!(lexical_normalize("/a/./b/../c").display(), "/a/c");
    assert_eq!(lexical_normalize("/../x").display(), "/x");
    assert_eq!(lexical_normalize("a/../../b").display(), "b");
    assert_eq!(normalize_path("b/c", Ok("/a")).unwrap().display(), "/a/b/c");
    assert_eq!(
        normalize_path("b", Err("no cwd")).unwrap_err(),
        "读取当前目录失败: no cwd"
    );
    let root = lexical_normalize("/a");
    assert!(lexical_normalize("/a/b").starts_with(&root));
    assert!(!lexical_normalize("/ab").starts_with(&root));
}

#[test]
fn the_theme_namespace_is_system_managed() {
    assert!(is_system_managed_theme_namespace(" Theme "));
    assert!(is_system_managed_theme_namespace("theme"));
    assert!(!is_system_managed_theme_namespace("themes"));
    let set = metadata_namespace_set(&vec!["Artist".to_string(), "artist".to_string(), "Date_Added".to_string()]);
    assert_eq!(set, vec!["artist", "date_added"]);
}

#[test]
fn keyed_tables_map_each_key_once() {
    let mut table: KeyedTable<u32> = KeyedTable::new();
    table.insert("a".to_string(), 1);
    table.insert("b".to_string(), 2);
    table.insert("a".to_string(), 3);
    assert_eq!(table.get("a"), Some(&3));
    assert_eq!(table.entries().len(), 2);
    table.remove("a");
    assert_eq!(table.get("a"), None);
    assert_eq!(table.get("b"), Some(&2));
}

#[test]
fn cooldowns_count_down() {
    const S: u64 = 1_000_000_000;
    let mut tracker = CooldownTracker::new();
    assert!(tracker.check_cooldown_at("p", 10, 100 * S).is_ok());
    match tracker.check_cooldown_at("p", 10, 104 * S) {
        Err(PluginExecutionError::Cooldown { remaining_secs }) => assert_eq!(remaining_secs, 6),
        other => panic!("unexpected {other:?}"),
    }
    assert!(tracker.check_cooldown_at("p", 10, 110 * S).is_ok());
    assert!(tracker.check_cooldown_at("p", 0, 111 * S).is_ok());
    assert!(tracker.check_cooldown_at("q", 10, 111 * S).is_ok());
    assert_eq!(
        PluginExecutionError::Cooldown { remaining_secs: 6 }.message(),
        "插件冷却中，6秒后可再次执行"
    );
    assert_eq!(
        PluginExecutionError::Timeout { timeout_ms: 1500 }.message(),
        "插件执行超时（1500ms）"
    );
}

#[test]
fn plugin_management_guards() {
    assert!(ensure_initialized(true).is_ok());
    assert!(matches!(ensure_initialized(false), Err(PluginManagerError::NotInitialized)));
    assert!(ensure_enabled("p", Some(true)).is_ok());
    assert!(matches!(ensure_enabled("p", Some(false)), Err(PluginManagerError::Disabled(_))));
    assert!(matches!(ensure_enabled("p", None), Err(PluginManagerError::NotFound(_))));
    assert_eq!(
        PluginManagerError::Disabled("p".to_string()).message(),
        "插件未启用: p"
    );
    let item = list_item("p".to_string(), "P".to_string(), "1".to_string(), PluginType::Script, None);
    assert!(!item.loaded && !item.enabled);
}
