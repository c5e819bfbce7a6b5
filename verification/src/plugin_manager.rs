//! Plugin manager rules: the listing of plugins and the checks that guard the
//! management operations.
use crate::plugin_executor::{execution_error_text, PluginExecutionError};
use crate::plugin_manifest::{manifest_error_text, PluginManifestError, PluginType};
use vstd::prelude::*;

verus! {

/// A plugin as the management listing shows it.
#[derive(Debug)]
pub struct PluginListItem {
    pub id: String,
    pub name: String,
    pub version: String,
    pub plugin_type: PluginType,
    pub enabled: bool,
    pub loaded: bool,
}

#[derive(Debug)]
pub enum PluginManagerError {
    NotInitialized,
    NotFound(String),
    Disabled(String),
    NotImplemented(&'static str),
    Io(String),
    Manifest(PluginManifestError),
    Execution(PluginExecutionError),
}

pub open spec fn manager_error_text(e: PluginManagerError) -> Seq<char> {
    match e {
        PluginManagerError::NotInitialized => "插件管理器尚未初始化"@,
        PluginManagerError::NotFound(id) => "插件不存在: "@ + id@,
        PluginManagerError::Disabled(id) => "插件未启用: "@ + id@,
        PluginManagerError::NotImplemented(m) => "插件管理功能尚未实现: "@ + m@,
        PluginManagerError::Io(d) => "I/O 错误: "@ + d@,
        PluginManagerError::Manifest(m) => "manifest 错误: "@ + manifest_error_text(m),
        PluginManagerError::Execution(x) => "执行错误: "@ + execution_error_text(x),
    }
}

impl PluginManagerError {
    pub fn message(&self) -> (r: String)
        ensures
            r@ == manager_error_text(*self),
    {
        let mut s: String;
        match self {
            PluginManagerError::NotInitialized => {
                s = String::from_str("插件管理器尚未初始化");
            },
            PluginManagerError::NotFound(id) => {
                s = String::from_str("插件不存在: ");
                s.append(id.as_str());
            },
            PluginManagerError::Disabled(id) => {
                s = String::from_str("插件未启用: ");
                s.append(id.as_str());
            },
            PluginManagerError::NotImplemented(m) => {
                s = String::from_str("插件管理功能尚未实现: ");
                s.append(m);
            },
            PluginManagerError::Io(d) => {
                s = String::from_str("I/O 错误: ");
                s.append(d.as_str());
            },
            PluginManagerError::Manifest(m) => {
                s = String::from_str("manifest 错误: ");
                let t = m.message();
                s.append(t.as_str());
            },
            PluginManagerError::Execution(x) => {
                s = String::from_str("执行错误: ");
                let t = x.message();
                s.append(t.as_str());
            },
        }
        s
    }
}

/// The manager must be initialized before it manages plugins.
pub fn ensure_initialized(initialized: bool) -> (r: Result<(), PluginManagerError>)
    ensures
        initialized <==> r is Ok,
        !initialized ==> r matches Err(PluginManagerError::NotInitialized),
{
    if initialized {
        Ok(())
    } else {
        Err(PluginManagerError::NotInitialized)
    }
}

/// A plugin runs only when it is loaded (`loaded_enabled` is its enabled flag
/// then) and enabled.
pub fn ensure_enabled(plugin_id: &str, loaded_enabled: Option<bool>) -> (r: Result<(), PluginManagerError>)
    ensures
        match loaded_enabled {
            None => r matches Err(PluginManagerError::NotFound(id)) && id@ == plugin_id@,
            Some(false) => r matches Err(PluginManagerError::Disabled(id)) && id@ == plugin_id@,
            Some(true) => r is Ok,
        },
{
    match loaded_enabled {
        None => Err(PluginManagerError::NotFound(String::from_str(plugin_id))),
        Some(false) => Err(PluginManagerError::Disabled(String::from_str(plugin_id))),
        Some(true) => Ok(()),
    }
}

/// The listing entry of a plugin: a plugin that is not loaded is shown as
/// disabled.
pub fn list_item(
    id: String,
    name: String,
    version: String,
    plugin_type: PluginType,
    loaded_enabled: Option<bool>,
) -> (r: PluginListItem)
    ensures
        r.id == id && r.name == name && r.version == version && r.plugin_type == plugin_type,
        r.loaded == (loaded_enabled is Some),
        r.enabled == (loaded_enabled == Some(true)),
{
    let loaded = loaded_enabled.is_some();
    let enabled = match loaded_enabled {
        Some(e) => e,
        None => false,
    };
    PluginListItem { id, name, version, plugin_type, enabled, loaded }
}

} // verus!
