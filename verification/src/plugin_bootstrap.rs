//! The seed rows that bootstrapping writes for the builtin and official
//! plugins. The serialized permissions and manifest are supplied by the
//! caller, which owns the JSON encoding of the manifest types.
use crate::json::JsonValue;
use crate::plugin_manifest::{
    default_enabled_on_bootstrap, enabled_on_bootstrap, manifest_error_text, plugin_type_db_name,
    PluginManifest, PluginManifestError,
};
use crate::text::{is_blank, is_blank_seq};
use vstd::prelude::*;

verus! {

#[derive(Debug)]
pub enum PluginBootstrapError {
    Manifest(PluginManifestError),
    Serialize(String),
    Database(String),
}

impl PluginBootstrapError {
    pub fn message(&self) -> (r: String)
        ensures
            r@ == match self {
                PluginBootstrapError::Manifest(e) => "加载插件 manifest 失败: "@ + manifest_error_text(*e),
                PluginBootstrapError::Serialize(d) => "序列化插件 manifest 失败: "@ + d@,
                PluginBootstrapError::Database(d) => "写入插件记录失败: "@ + d@,
            },
    {
        match self {
            PluginBootstrapError::Manifest(e) => {
                let mut s = String::from_str("加载插件 manifest 失败: ");
                let m = e.message();
                s.append(m.as_str());
                s
            },
            PluginBootstrapError::Serialize(d) => {
                let mut s = String::from_str("序列化插件 manifest 失败: ");
                s.append(d.as_str());
                s
            },
            PluginBootstrapError::Database(d) => {
                let mut s = String::from_str("写入插件记录失败: ");
                s.append(d.as_str());
                s
            },
        }
    }
}

/// One row of the `plugins` table as bootstrapping writes it.
#[derive(Debug)]
pub struct PluginSeedPayload {
    pub id: String,
    pub name: String,
    pub version: String,
    pub manifest_version: i32,
    pub plugin_api_version: i32,
    pub plugin_type: String,
    pub description: Option<String>,
    pub author: Option<String>,
    pub default_enabled: bool,
    pub permissions: JsonValue,
    pub manifest: JsonValue,
}

/// An optional text: absent when blank.
pub open spec fn unless_blank(s: String) -> Option<String> {
    if is_blank_seq(s@) {
        None
    } else {
        Some(s)
    }
}

impl PluginSeedPayload {
    /// The seed row of a manifest, given the JSON encodings of its permissions
    /// and of the whole manifest.
    pub fn from_manifest(manifest: PluginManifest, permissions: JsonValue, manifest_json: JsonValue) -> (r: Self)
        ensures
            r.id == manifest.id,
            r.name == manifest.name,
            r.version == manifest.version,
            r.manifest_version == manifest.manifest_version as i32,
            r.plugin_api_version == manifest.plugin_api_version as i32,
            r.plugin_type@ == plugin_type_db_name(manifest.plugin_type),
            r.description == unless_blank(manifest.description),
            r.author == unless_blank(manifest.author),
            r.default_enabled == enabled_on_bootstrap(manifest.id@),
            r.permissions == permissions,
            r.manifest == manifest_json,
    {
        let default_enabled = default_enabled_on_bootstrap(manifest.id.as_str());
        let plugin_type = String::from_str(manifest.plugin_type.as_db_str());
        let description = if is_blank(manifest.description.as_str()) {
            None
        } else {
            Some(manifest.description)
        };
        let author = if is_blank(manifest.author.as_str()) {
            None
        } else {
            Some(manifest.author)
        };
        PluginSeedPayload {
            id: manifest.id,
            name: manifest.name,
            version: manifest.version,
            manifest_version: manifest.manifest_version as i32,
            plugin_api_version: manifest.plugin_api_version as i32,
            plugin_type,
            description,
            author,
            default_enabled,
            permissions,
            manifest: manifest_json,
        }
    }
}

} // verus!
