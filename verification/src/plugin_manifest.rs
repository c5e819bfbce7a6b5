//! Plugin manifests: the v1 schema, its validation rules, the builtin manifests
//! and the bootstrap enablement policy. Reading TOML happens outside the library;
//! what it produces is checked here.
use crate::json::{entries_view, json_view, JsonValue, JsonView};
use crate::text::{chars_of, is_blank, is_blank_seq, is_ws, str_eq};
use vstd::prelude::*;
use vstd::string::*;

verus! {

pub const BUILTIN_FILENAME_PARSER_ID: &'static str = "filename-parser";

pub const BUILTIN_COMICINFO_PARSER_ID: &'static str = "comicinfo-parser";

pub const BUILTIN_DATE_ADDED_ID: &'static str = "date-added";

pub const BUILTIN_TAG_COPIER_ID: &'static str = "tag-copier";

#[derive(Debug, Clone, Copy, PartialEq, Eq)]
pub enum PluginType {
    Metadata,
    Download,
    Processor,
    Analyzer,
    Script,
    Endpoint,
}

pub open spec fn plugin_type_db_name(t: PluginType) -> Seq<char> {
    match t {
        PluginType::Metadata => "metadata"@,
        PluginType::Download => "download"@,
        PluginType::Processor => "processor"@,
        PluginType::Analyzer => "analyzer"@,
        PluginType::Script => "script"@,
        PluginType::Endpoint => "endpoint"@,
    }
}

impl PluginType {
    /// The name the `plugins` table stores for this type.
    pub fn as_db_str(&self) -> (r: &'static str)
        ensures
            r@ == plugin_type_db_name(*self),
    {
        match self {
            PluginType::Metadata => "metadata",
            PluginType::Download => "download",
            PluginType::Processor => "processor",
            PluginType::Analyzer => "analyzer",
            PluginType::Script => "script",
            PluginType::Endpoint => "endpoint",
        }
    }
}

/// Dependencies on other plugins: plugin id and version requirement, in key order.
#[derive(Debug)]
pub struct PluginDependencies {
    pub items: Vec<(String, String)>,
}

#[derive(Debug)]
pub struct PluginPermissions {
    pub network: Vec<String>,
    pub filesystem_read: Vec<String>,
    pub filesystem_write: Vec<String>,
    pub database_read: bool,
    pub database_write: Vec<String>,
    pub custom_endpoints: bool,
    pub scheduled_tasks: bool,
}

impl PluginPermissions {
    /// No permission at all (the manifest default).
    pub fn none() -> (r: PluginPermissions)
        ensures
            r.network@.len() == 0,
            r.filesystem_read@.len() == 0,
            r.filesystem_write@.len() == 0,
            !r.database_read,
            r.database_write@.len() == 0,
            !r.custom_endpoints,
            !r.scheduled_tasks,
    {
        PluginPermissions {
            network: Vec::new(),
            filesystem_read: Vec::new(),
            filesystem_write: Vec::new(),
            database_read: false,
            database_write: Vec::new(),
            custom_endpoints: false,
            scheduled_tasks: false,
        }
    }
}

/// A detailed event subscription: the event name and payload filters.
#[derive(Debug)]
pub struct PluginEventSubscription {
    pub event: String,
    pub filters: Vec<(String, JsonValue)>,
}

#[derive(Debug)]
pub enum PluginEventSubscriptionDecl {
    Event(String),
    Detailed(PluginEventSubscription),
}

pub open spec fn decl_event_name(d: PluginEventSubscriptionDecl) -> Seq<char> {
    match d {
        PluginEventSubscriptionDecl::Event(e) => e@,
        PluginEventSubscriptionDecl::Detailed(rule) => rule.event@,
    }
}

impl PluginEventSubscriptionDecl {
    pub fn event_name(&self) -> (r: &str)
        ensures
            r@ == decl_event_name(*self),
    {
        match self {
            PluginEventSubscriptionDecl::Event(event) => event.as_str(),
            PluginEventSubscriptionDecl::Detailed(rule) => rule.event.as_str(),
        }
    }
}

#[derive(Debug)]
pub struct PluginEventsDeclaration {
    pub subscribe: Vec<PluginEventSubscriptionDecl>,
}

#[derive(Debug)]
pub struct PluginScheduleDeclaration {
    pub cron: String,
    pub timezone: Option<String>,
}

#[derive(Debug)]
pub struct PluginManifest {
    pub id: String,
    pub name: String,
    pub version: String,
    pub manifest_version: u32,
    pub plugin_api_version: u32,
    pub plugin_type: PluginType,
    pub description: String,
    pub author: String,
    pub cooldown: Option<u32>,
    pub oneshot_arg: Option<String>,
    pub plugin_dependencies: PluginDependencies,
    pub permissions: PluginPermissions,
    pub events: PluginEventsDeclaration,
    pub schedule: Option<PluginScheduleDeclaration>,
    pub config_schema: JsonValue,
}

/// Why a manifest failed to load or validate. `Io` and `Parse` carry the text of
/// the underlying error, which the caller that read and parsed the file supplies.
#[derive(Debug)]
pub enum PluginManifestError {
    Io(String),
    Parse(String),
    MissingField(&'static str),
    InvalidField(&'static str),
}

pub open spec fn manifest_error_text(e: PluginManifestError) -> Seq<char> {
    match e {
        PluginManifestError::Io(d) => "读取 plugin manifest 失败: "@ + d@,
        PluginManifestError::Parse(d) => "解析 plugin manifest 失败: "@ + d@,
        PluginManifestError::MissingField(f) => "manifest 缺少必填字段: "@ + f@,
        PluginManifestError::InvalidField(f) => "manifest 字段非法: "@ + f@,
    }
}

impl PluginManifestError {
    pub fn message(&self) -> (r: String)
        ensures
            r@ == manifest_error_text(*self),
    {
        let (prefix, detail): (&str, &str) = match self {
            PluginManifestError::Io(d) => ("读取 plugin manifest 失败: ", d.as_str()),
            PluginManifestError::Parse(d) => ("解析 plugin manifest 失败: ", d.as_str()),
            PluginManifestError::MissingField(f) => ("manifest 缺少必填字段: ", *f),
            PluginManifestError::InvalidField(f) => ("manifest 字段非法: ", *f),
        };
        let mut s = String::from_str(prefix);
        s.append(detail);
        s
    }
}

/// The outcome of the v1 schema check.
pub enum ManifestCheck {
    Valid,
    Missing(Seq<char>),
    Invalid(Seq<char>),
}

pub open spec fn is_plugin_id_char(c: char) -> bool {
    ('a' <= c <= 'z') || ('0' <= c <= '9') || c == '-'
}

/// Plugin ids are non-empty, made of lowercase ASCII letters, digits and `-`,
/// and neither start nor end with `-`.
pub open spec fn valid_plugin_id(id: Seq<char>) -> bool {
    &&& id.len() > 0
    &&& id[0] != '-'
    &&& id.last() != '-'
    &&& forall|k: int| 0 <= k < id.len() ==> is_plugin_id_char(#[trigger] id[k])
}

#[verifier::loop_isolation(false)]
pub fn is_valid_plugin_id(plugin_id: &str) -> (r: bool)
    ensures
        r == valid_plugin_id(plugin_id@),
{
    let v = chars_of(plugin_id);
    if v.len() == 0 {
        return false;
    }
    if v[0] == '-' || v[v.len() - 1] == '-' {
        return false;
    }
    let mut i: usize = 0;
    while i < v.len()
        invariant
            i <= v@.len(),
            forall|k: int| 0 <= k < i ==> is_plugin_id_char(#[trigger] v@[k]),
        decreases v@.len() - i,
    {
        let c = v[i];
        if !(('a' <= c && c <= 'z') || ('0' <= c && c <= '9') || c == '-') {
            assert(!is_plugin_id_char(v@[i as int]));
            return false;
        }
        i = i + 1;
    }
    true
}

/// Builtin plugins that a fresh installation enables.
pub open spec fn enabled_on_bootstrap(plugin_id: Seq<char>) -> bool {
    plugin_id == BUILTIN_FILENAME_PARSER_ID@ || plugin_id == BUILTIN_COMICINFO_PARSER_ID@
        || plugin_id == BUILTIN_DATE_ADDED_ID@
}

pub fn default_enabled_on_bootstrap(plugin_id: &str) -> (r: bool)
    ensures
        r == enabled_on_bootstrap(plugin_id@),
{
    str_eq(plugin_id, BUILTIN_FILENAME_PARSER_ID) || str_eq(plugin_id, BUILTIN_COMICINFO_PARSER_ID)
        || str_eq(plugin_id, BUILTIN_DATE_ADDED_ID)
}

/// Whether the `cron` crate accepts `expr` as a schedule.
pub uninterp spec fn cron_schedule_parses(expr: Seq<char>) -> bool;

/// Calls `cron::Schedule::from_str`; the contract claims only that its success
/// depends on the expression alone.
#[verifier::external_body]
fn cron_parses(expr: &str) -> (r: bool)
    ensures
        r == cron_schedule_parses(expr@),
{
    <cron::Schedule as std::str::FromStr>::from_str(expr).is_ok()
}

pub open spec fn any_blank(v: Seq<String>) -> bool {
    exists|k: int| 0 <= k < v.len() && is_blank_seq(#[trigger] v[k]@)
}

pub open spec fn any_blank_event(v: Seq<PluginEventSubscriptionDecl>) -> bool {
    exists|k: int| 0 <= k < v.len() && is_blank_seq(decl_event_name(#[trigger] v[k]))
}

/// The v1 schema check, given whether the schedule's cron expression parses.
pub open spec fn manifest_check(m: PluginManifest, cron_ok: bool) -> ManifestCheck {
    if is_blank_seq(m.id@) {
        ManifestCheck::Missing("plugin.id"@)
    } else if !valid_plugin_id(m.id@) {
        ManifestCheck::Invalid("plugin.id"@)
    } else if is_blank_seq(m.name@) {
        ManifestCheck::Missing("plugin.name"@)
    } else if is_blank_seq(m.version@) {
        ManifestCheck::Missing("plugin.version"@)
    } else if m.manifest_version != 1 {
        ManifestCheck::Invalid("plugin.manifest_version"@)
    } else if m.plugin_api_version != 1 {
        ManifestCheck::Invalid("plugin.plugin_api_version"@)
    } else if !m.config_schema.spec_is_object() {
        ManifestCheck::Invalid("config_schema"@)
    } else if any_blank(m.permissions.network@) {
        ManifestCheck::Invalid("permissions.network"@)
    } else if any_blank_event(m.events.subscribe@) {
        ManifestCheck::Invalid("events.subscribe.event"@)
    } else {
        match m.schedule {
            None => ManifestCheck::Valid,
            Some(s) => if is_blank_seq(s.cron@) || !cron_ok {
                ManifestCheck::Invalid("schedule.cron"@)
            } else if s.timezone is Some && is_blank_seq(s.timezone->0@) {
                ManifestCheck::Invalid("schedule.timezone"@)
            } else {
                ManifestCheck::Valid
            },
        }
    }
}

/// The result `validate` gives for a check outcome.
pub open spec fn check_matches(r: Result<(), PluginManifestError>, c: ManifestCheck) -> bool {
    match c {
        ManifestCheck::Valid => r is Ok,
        ManifestCheck::Missing(f) => r matches Err(PluginManifestError::MissingField(g)) && g@ == f,
        ManifestCheck::Invalid(f) => r matches Err(PluginManifestError::InvalidField(g)) && g@
            == f,
    }
}

/// The cron parse result that matters for a manifest: that of its schedule, if it has one.
pub open spec fn manifest_cron_ok(m: PluginManifest) -> bool {
    match m.schedule {
        None => true,
        Some(s) => cron_schedule_parses(s.cron@),
    }
}

impl PluginManifest {
    /// The v1 schema check, with the schedule's parse result supplied.
    #[verifier::loop_isolation(false)]
    pub fn validate_with(&self, cron_ok: bool) -> (r: Result<(), PluginManifestError>)
        ensures
            check_matches(r, manifest_check(*self, cron_ok)),
    {
        if is_blank(self.id.as_str()) {
            return Err(PluginManifestError::MissingField("plugin.id"));
        }
        if !is_valid_plugin_id(self.id.as_str()) {
            return Err(PluginManifestError::InvalidField("plugin.id"));
        }
        if is_blank(self.name.as_str()) {
            return Err(PluginManifestError::MissingField("plugin.name"));
        }
        if is_blank(self.version.as_str()) {
            return Err(PluginManifestError::MissingField("plugin.version"));
        }
        if self.manifest_version != 1 {
            return Err(PluginManifestError::InvalidField("plugin.manifest_version"));
        }
        if self.plugin_api_version != 1 {
            return Err(PluginManifestError::InvalidField("plugin.plugin_api_version"));
        }
        if !self.config_schema.is_object() {
            return Err(PluginManifestError::InvalidField("config_schema"));
        }
        let mut i: usize = 0;
        while i < self.permissions.network.len()
            invariant
                i <= self.permissions.network@.len(),
                forall|k: int| 0 <= k < i ==> !is_blank_seq(#[trigger] self.permissions.network@[k]@),
            decreases self.permissions.network@.len() - i,
        {
            if is_blank(self.permissions.network[i].as_str()) {
                assert(is_blank_seq(self.permissions.network@[i as int]@));
                return Err(PluginManifestError::InvalidField("permissions.network"));
            }
            i = i + 1;
        }
        let mut j: usize = 0;
        while j < self.events.subscribe.len()
            invariant
                j <= self.events.subscribe@.len(),
                forall|k: int|
                    0 <= k < j ==> !is_blank_seq(decl_event_name(#[trigger] self.events.subscribe@[k])),
            decreases self.events.subscribe@.len() - j,
        {
            if is_blank(self.events.subscribe[j].event_name()) {
                assert(is_blank_seq(decl_event_name(self.events.subscribe@[j as int])));
                return Err(PluginManifestError::InvalidField("events.subscribe.event"));
            }
            j = j + 1;
        }
        match &self.schedule {
            None => {},
            Some(schedule) => {
                if is_blank(schedule.cron.as_str()) || !cron_ok {
                    return Err(PluginManifestError::InvalidField("schedule.cron"));
                }
                match &schedule.timezone {
                    Some(timezone) => {
                        if is_blank(timezone.as_str()) {
                            return Err(PluginManifestError::InvalidField("schedule.timezone"));
                        }
                    },
                    None => {},
                }
            },
        }
        Ok(())
    }

    /// The v1 schema check. The schedule's cron expression, when there is one,
    /// is parsed with the `cron` crate.
    pub fn validate(&self) -> (r: Result<(), PluginManifestError>)
        ensures
            check_matches(r, manifest_check(*self, manifest_cron_ok(*self))),
    {
        let cron_ok = match &self.schedule {
            None => true,
            Some(schedule) => cron_parses(schedule.cron.as_str()),
        };
        self.validate_with(cron_ok)
    }
}


// ---------------------------------------------------------------------------
// Builtin manifests
// ---------------------------------------------------------------------------
/// The configuration schema of the builtin plugins: an object without
/// properties that admits no others (members in key order).
pub open spec fn builtin_schema_view() -> JsonView {
    JsonView::Object(
        seq![
            ("additional_properties"@, JsonView::Bool(false)),
            ("properties"@, JsonView::Object(Seq::empty())),
            ("type"@, JsonView::Str("object"@)),
        ],
    )
}

pub fn builtin_config_schema() -> (r: JsonValue)
    ensures
        r.spec_is_object(),
        json_view(r) == builtin_schema_view(),
{
    let mut members: Vec<(String, JsonValue)> = Vec::new();
    members.push((String::from_str("additional_properties"), JsonValue::Bool(false)));
    members.push((String::from_str("properties"), JsonValue::Object(Vec::new())));
    members.push((String::from_str("type"), JsonValue::String(String::from_str("object"))));
    proof {
        reveal_with_fuel(entries_view, 4);
        let m = members@;
        assert(m.drop_last().drop_last().drop_last() =~= Seq::<(String, JsonValue)>::empty());
        assert(entries_view(Seq::<(String, JsonValue)>::empty()) =~= Seq::<(Seq<char>, JsonView)>::empty());
        assert(entries_view(m) =~= seq![
            ("additional_properties"@, JsonView::Bool(false)),
            ("properties"@, JsonView::Object(Seq::empty())),
            ("type"@, JsonView::Str("object"@)),
        ]);
    }
    JsonValue::Object(members)
}

/// A builtin manifest: version 1.0.0 of the v1 schema, a metadata plugin of
/// the OtamoryX Team without permissions, dependencies or schedule.
pub open spec fn builtin_shape(m: PluginManifest, id: Seq<char>, name: Seq<char>) -> bool {
    &&& m.id@ == id
    &&& m.name@ == name
    &&& m.version@ == "1.0.0"@
    &&& m.manifest_version == 1
    &&& m.plugin_api_version == 1
    &&& m.plugin_type == PluginType::Metadata
    &&& m.author@ == "OtamoryX Team"@
    &&& m.cooldown is None
    &&& m.plugin_dependencies.items@.len() == 0
    &&& m.permissions.network@.len() == 0
    &&& m.permissions.filesystem_read@.len() == 0
    &&& m.permissions.filesystem_write@.len() == 0
    &&& !m.permissions.database_read
    &&& m.permissions.database_write@.len() == 0
    &&& m.schedule is None
    &&& m.config_schema.spec_is_object()
    &&& json_view(m.config_schema) == builtin_schema_view()
}

/// Subscribed to `archive_added` alone.
pub open spec fn on_archive_added(m: PluginManifest) -> bool {
    m.events.subscribe@.len() == 1 && decl_event_name(m.events.subscribe@[0]) == "archive_added"@
}

fn builtin_manifest(
    id: &str,
    name: &str,
    description: &str,
    on_added: bool,
    oneshot_arg: Option<&str>,
) -> (r: PluginManifest)
    ensures
        builtin_shape(r, id@, name@),
        r.description@ == description@,
        on_added ==> on_archive_added(r),
        !on_added ==> r.events.subscribe@.len() == 0,
        match oneshot_arg {
            Some(a) => r.oneshot_arg matches Some(o) && o@ == a@,
            None => r.oneshot_arg is None,
        },
{
    let mut subscribe: Vec<PluginEventSubscriptionDecl> = Vec::new();
    if on_added {
        subscribe.push(PluginEventSubscriptionDecl::Event(String::from_str("archive_added")));
    }
    PluginManifest {
        id: String::from_str(id),
        name: String::from_str(name),
        version: String::from_str("1.0.0"),
        manifest_version: 1,
        plugin_api_version: 1,
        plugin_type: PluginType::Metadata,
        description: String::from_str(description),
        author: String::from_str("OtamoryX Team"),
        cooldown: None,
        oneshot_arg: match oneshot_arg {
            Some(a) => Some(String::from_str(a)),
            None => None,
        },
        plugin_dependencies: PluginDependencies { items: Vec::new() },
        permissions: PluginPermissions::none(),
        events: PluginEventsDeclaration { subscribe },
        schedule: None,
        config_schema: builtin_config_schema(),
    }
}

proof fn lemma_builtin_valid(m: PluginManifest, cron_ok: bool)
    requires
        builtin_shape(m, m.id@, m.name@),
        valid_plugin_id(m.id@),
        m.name@.len() > 0 && !is_ws(m.name@[0]),
        forall|k: int| 0 <= k < m.events.subscribe@.len() ==> !is_blank_seq(
            decl_event_name(#[trigger] m.events.subscribe@[k]),
        ),
    ensures
        manifest_check(m, cron_ok) is Valid,
{
    reveal_strlit("1.0.0");
    assert(!is_ws(m.id@[0]));
    assert(!is_ws(m.version@[0]));
    assert(!any_blank(m.permissions.network@));
    assert(!any_blank_event(m.events.subscribe@));
}

/// The manifests of the plugins that ship with the application: the filename
/// parser, the ComicInfo parser and the date-added plugin, which handle newly
/// added archives, and the tag copier, run on demand. Each satisfies the v1
/// schema.
pub fn builtin_plugin_manifests() -> (r: Vec<PluginManifest>)
    ensures
        r@.len() == 4,
        builtin_shape(r@[0], BUILTIN_FILENAME_PARSER_ID@, "Filename Parser"@),
        builtin_shape(r@[1], BUILTIN_COMICINFO_PARSER_ID@, "ComicInfo Parser"@),
        builtin_shape(r@[2], BUILTIN_DATE_ADDED_ID@, "Date Added"@),
        builtin_shape(r@[3], BUILTIN_TAG_COPIER_ID@, "Tag Copier"@),
        on_archive_added(r@[0]) && on_archive_added(r@[1]) && on_archive_added(r@[2]),
        r@[3].events.subscribe@.len() == 0,
        r@[0].oneshot_arg is None && r@[1].oneshot_arg is None && r@[2].oneshot_arg is None,
        r@[3].oneshot_arg matches Some(o) && o@ == "Tag copier payload (handled by host API)."@,
        r@[0].description@ == "Parse deterministic metadata hints from archive filenames."@,
        r@[1].description@ == "Parse embedded ComicInfo.xml metadata when available."@,
        r@[2].description@ == "Attach deterministic date_added metadata for new archives."@,
        r@[3].description@ == "Utility plugin to apply user-selected tags in batch."@,
        forall|k: int| 0 <= k < 4 ==> manifest_check(#[trigger] r@[k], true) is Valid,
{
    let mut r: Vec<PluginManifest> = Vec::new();
    r.push(
        builtin_manifest(
            BUILTIN_FILENAME_PARSER_ID,
            "Filename Parser",
            "Parse deterministic metadata hints from archive filenames.",
            true,
            None,
        ),
    );
    r.push(
        builtin_manifest(
            BUILTIN_COMICINFO_PARSER_ID,
            "ComicInfo Parser",
            "Parse embedded ComicInfo.xml metadata when available.",
            true,
            None,
        ),
    );
    r.push(
        builtin_manifest(
            BUILTIN_DATE_ADDED_ID,
            "Date Added",
            "Attach deterministic date_added metadata for new archives.",
            true,
            None,
        ),
    );
    r.push(
        builtin_manifest(
            BUILTIN_TAG_COPIER_ID,
            "Tag Copier",
            "Utility plugin to apply user-selected tags in batch.",
            false,
            Some("Tag copier payload (handled by host API)."),
        ),
    );
    proof {
        reveal_strlit("filename-parser");
        reveal_strlit("comicinfo-parser");
        reveal_strlit("date-added");
        reveal_strlit("tag-copier");
        reveal_strlit("Filename Parser");
        reveal_strlit("ComicInfo Parser");
        reveal_strlit("Date Added");
        reveal_strlit("Tag Copier");
        reveal_strlit("archive_added");
        assert(!is_ws("archive_added"@[0]));
        assert(valid_plugin_id(r@[0].id@));
        assert(valid_plugin_id(r@[1].id@));
        assert(valid_plugin_id(r@[2].id@));
        assert(valid_plugin_id(r@[3].id@));
        assert forall|k: int| 0 <= k < 4 implies manifest_check(#[trigger] r@[k], true) is Valid by {
            let m = r@[k];
            assert forall|j: int| 0 <= j < m.events.subscribe@.len() implies !is_blank_seq(
                decl_event_name(#[trigger] m.events.subscribe@[j]),
            ) by {
                assert(j == 0);
                assert(!is_ws(decl_event_name(m.events.subscribe@[0])[0]));
            }
            lemma_builtin_valid(m, true);
        }
    }
    r
}

} // verus!
