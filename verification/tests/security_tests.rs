use otamoryx::plugin_manifest::builtin_plugin_manifests;
use otamoryx::plugin_security::{
    domain_allowed, PluginAuditTargetKind, PluginSecurityAction, PluginSecurityError,
    PluginSecurityGateway, PluginSecurityPolicy,
};

fn network_policy(domains: &[&str]) -> PluginSecurityPolicy {
    PluginSecurityPolicy {
        allow_network: true,
        ..PluginSecurityPolicy::default()
    }
    .with_allowed_domains(domains.iter().map(|d| d.to_string()).collect())
}

#[test]
fn plugins_without_policy_are_refused() {
    let mut gateway = PluginSecurityGateway::new(8);
    let result = gateway.check_http_request("ghost", "GET", "https://example.com/x");
    match result {
        Err(PluginSecurityError::MissingPolicy { plugin_id }) => assert_eq!(plugin_id, "ghost"),
        other => panic!("unexpected {other:?}"),
    }
    assert!(gateway
        .check_db_query("ghost", "SELECT * FROM archives", None, false)
        .is_err());
    assert!(gateway.check_fs_read("ghost", "/data/a", Ok("/")).is_err());
    let records = gateway.recent_audit_records().unwrap();
    assert_eq!(records.len(), 3);
    assert!(records.iter().all(|record| !record.allowed));
}

#[test]
fn network_requests_follow_the_domain_allowlist() {
    let mut gateway = PluginSecurityGateway::new(8);
    gateway
        .upsert_policy("meta".to_string(), network_policy(&["*.example.com", "api.test"]))
        .unwrap();
    assert_eq!(
        gateway.check_http_request("meta", "GET", "https://Img.Example.com/a.png").unwrap(),
        "img.example.com"
    );
    assert!(gateway.check_http_request("meta", "GET", "https://example.com/").is_ok());
    assert!(gateway.check_http_request("meta", "GET", "https://api.test/v1").is_ok());
    match gateway.check_http_request("meta", "GET", "https://evil.org/") {
        Err(PluginSecurityError::PermissionDenied { reason }) => {
            assert_eq!(reason, "域名不在白名单: evil.org")
        }
        other => panic!("unexpected {other:?}"),
    }
    assert!(matches!(
        gateway.check_http_request("meta", "  ", "https://api.test/"),
        Err(PluginSecurityError::InvalidArgument { .. })
    ));
    assert!(matches!(
        gateway.check_http_request("meta", "GET", "not a url"),
        Err(PluginSecurityError::InvalidArgument { .. })
    ));
    let records = gateway.recent_audit_records().unwrap();
    assert_eq!(records[0].target, "img.example.com");
    assert_eq!(records[0].target_kind, PluginAuditTargetKind::Domain);
    assert_eq!(records[0].action, PluginSecurityAction::HttpRequest);
}

#[test]
fn database_access_needs_declared_permissions() {
    let mut gateway = PluginSecurityGateway::new(8);
    let policy = PluginSecurityPolicy {
        database_read: true,
        database_write_tables: vec!["tags".to_string()],
        ..PluginSecurityPolicy::default()
    };
    gateway.upsert_policy("db".to_string(), policy).unwrap();
    assert_eq!(
        gateway.check_db_query("db", "select * from main.Archives", None, false).unwrap(),
        "archives"
    );
    assert_eq!(
        gateway.check_db_query("db", "INSERT INTO `tags` (id) VALUES (1)", None, false).unwrap(),
        "tags"
    );
    assert!(matches!(
        gateway.check_db_query("db", "DELETE FROM archives", None, false),
        Err(PluginSecurityError::PermissionDenied { .. })
    ));
    assert!(matches!(
        gateway.check_db_query("db", "VACUUM", None, false),
        Err(PluginSecurityError::InvalidArgument { .. })
    ));
    assert!(matches!(
        gateway.check_db_query("db", "   ", None, false),
        Err(PluginSecurityError::InvalidArgument { .. })
    ));
}

#[test]
fn file_access_stays_under_granted_roots() {
    let mut gateway = PluginSecurityGateway::new(8);
    let policy = PluginSecurityPolicy {
        filesystem_read: vec!["/data/library".to_string()],
        ..PluginSecurityPolicy::default()
    };
    gateway.upsert_policy("fs".to_string(), policy).unwrap();
    assert_eq!(
        gateway.check_fs_read("fs", "/data/library/./a/../b.cbz", Ok("/")).unwrap(),
        "/data/library/b.cbz"
    );
    assert_eq!(
        gateway.check_fs_read("fs", "library/c.cbz", Ok("/data")).unwrap(),
        "/data/library/c.cbz"
    );
    assert!(gateway.check_fs_read("fs", "/data/library/../secret", Ok("/")).is_err());
    assert!(gateway.check_fs_write("fs", "/data/library/b.cbz", Ok("/")).is_err());
    assert!(matches!(
        gateway.check_fs_read("fs", "relative", Err("denied")),
        Err(PluginSecurityError::InvalidArgument { .. })
    ));
}

#[test]
fn the_audit_log_keeps_only_the_newest_records() {
    let mut gateway = PluginSecurityGateway::new(2);
    gateway
        .upsert_policy("meta".to_string(), network_policy(&["a.test"]))
        .unwrap();
    for host in ["a.test", "b.test", "a.test"] {
        let _ = gateway.check_http_request("meta", "GET", &format!("https://{host}/"));
    }
    let records = gateway.recent_audit_records().unwrap();
    assert_eq!(records.len(), 2);
    assert_eq!(records[0].target, "b.test");
    assert!(!records[0].allowed);
    assert_eq!(records[1].target, "a.test");
    assert!(records[1].allowed);
}

#[test]
fn policies_follow_the_manifest_and_can_be_removed() {
    let mut manifest = builtin_plugin_manifests().remove(0);
    manifest.permissions.network = vec![" API.Example.com ".to_string(), "  ".to_string()];
    let policy = PluginSecurityPolicy::from_manifest(&manifest);
    assert!(policy.allow_network);
    assert_eq!(policy.allowed_domains, vec!["api.example.com".to_string()]);

    let mut gateway = PluginSecurityGateway::default();
    gateway.upsert_policy("p".to_string(), policy).unwrap();
    assert!(gateway.check_http_request("p", "GET", "https://api.example.com/").is_ok());
    gateway.remove_policy("p").unwrap();
    assert!(matches!(
        gateway.check_http_request("p", "GET", "https://api.example.com/"),
        Err(PluginSecurityError::MissingPolicy { .. })
    ));
}

#[test]
fn domain_entries_admit_hosts() {
    let allowed = vec!["*.example.com".to_string(), " Exact.Test ".to_string()];
    assert!(domain_allowed("example.com", &allowed));
    assert!(domain_allowed("a.b.example.com", &allowed));
    assert!(domain_allowed("EXACT.test", &allowed));
    assert!(!domain_allowed("badexample.com", &allowed));
    assert!(!domain_allowed("example.com", &Vec::new()));
    assert!(domain_allowed("anything", &vec!["*".to_string()]));
}

#[test]
fn security_errors_have_their_messages() {
    let error = PluginSecurityError::PermissionDenied {
        reason: "x".to_string(),
    };
    assert_eq!(error.message(), "权限拒绝: x");
    let error = PluginSecurityError::MissingPolicy {
        plugin_id: "p".to_string(),
    };
    assert_eq!(error.message(), "未找到插件安全策略: p");
}
