use otamoryx::ocr::OcrError;
use otamoryx::plugin_bootstrap::PluginBootstrapError;
use otamoryx::plugin_executor::PluginExecutionError;
use otamoryx::plugin_manager::PluginManagerError;
use otamoryx::plugin_manifest::PluginManifestError;
use otamoryx::plugin_security::{PluginSecurityError, SecurityErrorKind};
use otamoryx::trash_restore::TrashRestoreError;

#[test]
fn ocr_errors_read_as_documented() {
    let unknown = OcrError::UnknownModel { model_id: "tesseract".to_string() };
    assert_eq!(unknown.message(), "unknown OCR model `tesseract`");
    assert_eq!(
        OcrError::RuntimeOperationRunning.message(),
        "another OCR runtime operation is already running"
    );
    assert_eq!(OcrError::ModelChanged.message(), "OCR model changed; retry the analysis");
}

#[test]
fn plugin_execution_errors_read_as_documented() {
    assert_eq!(PluginExecutionError::Panicked.message(), "插件内部崩溃");
    assert_eq!(PluginExecutionError::JoinFailed("x".to_string()).message(), "插件任务失败: x");
    assert_eq!(PluginExecutionError::PluginReturned("bad".to_string()).message(), "插件返回错误: bad");
    assert_eq!(PluginExecutionError::HostApi("db".to_string()).message(), "Host API 错误: db");
    assert_eq!(PluginExecutionError::NotImplemented("ffi").message(), "执行器功能尚未实现: ffi");
}

#[test]
fn plugin_manager_errors_nest_their_causes() {
    assert_eq!(PluginManagerError::NotImplemented("install").message(), "插件管理功能尚未实现: install");
    assert_eq!(
        PluginManagerError::Manifest(PluginManifestError::InvalidField("id")).message(),
        "manifest 错误: manifest 字段非法: id"
    );
    assert_eq!(
        PluginManagerError::Execution(PluginExecutionError::Panicked).message(),
        "执行错误: 插件内部崩溃"
    );
}

#[test]
fn bootstrap_and_gateway_errors_read_as_documented() {
    assert_eq!(
        PluginBootstrapError::Manifest(PluginManifestError::MissingField("name")).message(),
        "加载插件 manifest 失败: manifest 缺少必填字段: name"
    );
    assert_eq!(PluginBootstrapError::Serialize("eof".to_string()).message(), "序列化插件 manifest 失败: eof");
    assert_eq!(PluginBootstrapError::Database("locked".to_string()).message(), "写入插件记录失败: locked");
    let internal = PluginSecurityError::of_kind(SecurityErrorKind::Internal, "lock".to_string());
    assert_eq!(internal.message(), "权限网关内部错误: lock");
}

#[test]
fn trash_lookup_errors_read_as_documented() {
    assert_eq!(TrashRestoreError::EntryNotFound.message(), "trash entry not found");
    assert_eq!(TrashRestoreError::OperationNotFound.message(), "trash operation not found");
    assert_eq!(
        TrashRestoreError::OperationAlreadyRestoring.message(),
        "trash operation is already being restored"
    );
    assert_eq!(
        TrashRestoreError::MembersAlreadyRestoring.message(),
        "version cleanup operation is already being restored"
    );
}
