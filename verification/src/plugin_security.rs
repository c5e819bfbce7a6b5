//! The permission gateway that every host callback of a plugin goes through:
//! per-plugin policies derived from manifests, the decision for HTTP requests,
//! database statements and file-system paths, and a bounded audit log that
//! records every decision.
use crate::paths::{normalize_path, normalized_path, path_starts_with, path_text, PathModel};
use crate::plugin_manifest::PluginManifest;
use crate::sql::{
    detect_sql_operation, extract_table_from_sql, normalize_table_name, normalized_table_name,
    sql_operation_of, table_of_sql, SqlOperation,
};
use crate::text::{
    ascii_lower_seq, chars_ends_with, chars_eq, chars_of, chars_starts_with, ends_with_seq,
    is_blank, is_blank_seq, lit, lower_chars, owned, starts_with_seq, str_eq, string_from_chars,
    to_ascii_lowercase, trim, trim_seq,
};
use std::collections::VecDeque;
use vstd::prelude::*;

verus! {

pub const DEFAULT_AUDIT_CAPACITY: usize = 1024;

#[derive(Debug, Clone, Copy, PartialEq, Eq, Structural)]
pub enum PluginSecurityAction {
    HttpRequest,
    DbQuery,
    FsRead,
    FsWrite,
}

#[derive(Debug, Clone, Copy, PartialEq, Eq, Structural)]
pub enum PluginAuditTargetKind {
    Domain,
    Path,
    Table,
}

/// The kind of target an action is audited under.
pub open spec fn target_kind_of(action: PluginSecurityAction) -> PluginAuditTargetKind {
    match action {
        PluginSecurityAction::HttpRequest => PluginAuditTargetKind::Domain,
        PluginSecurityAction::DbQuery => PluginAuditTargetKind::Table,
        PluginSecurityAction::FsRead => PluginAuditTargetKind::Path,
        PluginSecurityAction::FsWrite => PluginAuditTargetKind::Path,
    }
}

fn target_kind_for(action: PluginSecurityAction) -> (r: PluginAuditTargetKind)
    ensures
        r == target_kind_of(action),
{
    match action {
        PluginSecurityAction::HttpRequest => PluginAuditTargetKind::Domain,
        PluginSecurityAction::DbQuery => PluginAuditTargetKind::Table,
        PluginSecurityAction::FsRead => PluginAuditTargetKind::Path,
        PluginSecurityAction::FsWrite => PluginAuditTargetKind::Path,
    }
}

/// One audited decision. `timestamp_ms` is the wall-clock time in milliseconds
/// since the Unix epoch at which it was taken.
#[derive(Debug)]
pub struct PluginAuditRecord {
    pub timestamp_ms: i64,
    pub plugin_id: String,
    pub action: PluginSecurityAction,
    pub target_kind: PluginAuditTargetKind,
    pub target: String,
    pub allowed: bool,
    pub reason: Option<String>,
}

#[derive(Debug)]
pub struct PluginSecurityPolicy {
    pub allow_network: bool,
    pub allowed_domains: Vec<String>,
    pub filesystem_read: Vec<String>,
    pub filesystem_write: Vec<String>,
    pub database_read: bool,
    pub database_write_tables: Vec<String>,
}

impl Default for PluginSecurityPolicy {
    fn default() -> (r: Self)
        ensures
            !r.allow_network,
            r.allowed_domains@.len() == 0,
            r.filesystem_read@.len() == 0,
            r.filesystem_write@.len() == 0,
            !r.database_read,
            r.database_write_tables@.len() == 0,
    {
        PluginSecurityPolicy {
            allow_network: false,
            allowed_domains: Vec::new(),
            filesystem_read: Vec::new(),
            filesystem_write: Vec::new(),
            database_read: false,
            database_write_tables: Vec::new(),
        }
    }
}

pub open spec fn views(v: Seq<String>) -> Seq<Seq<char>> {
    v.map_values(|s: String| s@)
}

/// The manifest's network entries, trimmed and lowercased, blank ones dropped.
pub open spec fn normalized_domains(ns: Seq<Seq<char>>) -> Seq<Seq<char>>
    decreases ns.len(),
{
    if ns.len() == 0 {
        Seq::empty()
    } else {
        let rest = normalized_domains(ns.drop_last());
        let d = ascii_lower_seq(trim_seq(ns.last()));
        if d.len() > 0 {
            rest.push(d)
        } else {
            rest
        }
    }
}

pub proof fn lemma_views_push(v: Seq<String>, s: String)
    ensures
        views(v.push(s)) == views(v).push(s@),
{
    assert(views(v.push(s)) =~= views(v).push(s@));
}

pub fn copy_strings(v: &Vec<String>) -> (r: Vec<String>)
    ensures
        r@ == v@,
{
    let mut out: Vec<String> = Vec::new();
    let mut i: usize = 0;
    while i < v.len()
        invariant
            i <= v@.len(),
            out@ == v@.take(i as int),
        decreases v@.len() - i,
    {
        out.push(v[i].clone());
        i = i + 1;
        assert(out@ =~= v@.take(i as int));
    }
    assert(v@.take(v@.len() as int) =~= v@);
    out
}

impl PluginSecurityPolicy {
    /// The policy a manifest's permissions grant.
    pub fn from_manifest(manifest: &PluginManifest) -> (r: Self)
        ensures
            views(r.allowed_domains@) == normalized_domains(views(manifest.permissions.network@)),
            r.allow_network == (r.allowed_domains@.len() > 0),
            r.filesystem_read@ == manifest.permissions.filesystem_read@,
            r.filesystem_write@ == manifest.permissions.filesystem_write@,
            r.database_read == manifest.permissions.database_read,
            views(r.database_write_tables@) == views(manifest.permissions.database_write@).map_values(
                |t: Seq<char>| ascii_lower_seq(t),
            ),
    {
        let network = &manifest.permissions.network;
        let mut domains: Vec<String> = Vec::new();
        let mut i: usize = 0;
        while i < network.len()
            invariant
                i <= network@.len(),
                views(domains@) == normalized_domains(views(network@).take(i as int)),
            decreases network@.len() - i,
        {
            let t = trim(network[i].as_str());
            let d = to_ascii_lowercase(t.as_str());
            let ghost before = views(domains@);
            proof {
                let p = views(network@).take(i + 1);
                assert(p.drop_last() =~= views(network@).take(i as int));
                assert(p.last() == network@[i as int]@);
            }
            if !d.as_str().is_empty() {
                domains.push(d);
                assert(views(domains@) =~= before.push(d@));
            }
            i = i + 1;
        }
        assert(views(network@).take(network@.len() as int) =~= views(network@));
        let writes = &manifest.permissions.database_write;
        let mut tables: Vec<String> = Vec::new();
        let mut j: usize = 0;
        while j < writes.len()
            invariant
                j <= writes@.len(),
                views(tables@) == views(writes@).take(j as int).map_values(
                    |t: Seq<char>| ascii_lower_seq(t),
                ),
            decreases writes@.len() - j,
        {
            let t = to_ascii_lowercase(writes[j].as_str());
            let ghost old_tables = tables@;
            tables.push(t);
            proof {
                let w = views(writes@);
                let target = w.take(j + 1).map_values(|t: Seq<char>| ascii_lower_seq(t));
                let prev = w.take(j as int).map_values(|t: Seq<char>| ascii_lower_seq(t));
                lemma_views_push(old_tables, tables@.last());
                assert(tables@ == old_tables.push(tables@.last()));
                assert(target =~= prev.push(ascii_lower_seq(w[j as int])));
            }
            j = j + 1;
        }
        assert(views(writes@).take(writes@.len() as int) =~= views(writes@));
        let allow_network = domains.len() > 0;
        PluginSecurityPolicy {
            allow_network,
            allowed_domains: domains,
            filesystem_read: copy_strings(&manifest.permissions.filesystem_read),
            filesystem_write: copy_strings(&manifest.permissions.filesystem_write),
            database_read: manifest.permissions.database_read,
            database_write_tables: tables,
        }
    }

    /// The same policy with its domain allowlist replaced.
    pub fn with_allowed_domains(self, domains: Vec<String>) -> (r: Self)
        ensures
            r.allowed_domains == domains,
            r.allow_network == self.allow_network,
            r.filesystem_read == self.filesystem_read,
            r.filesystem_write == self.filesystem_write,
            r.database_read == self.database_read,
            r.database_write_tables == self.database_write_tables,
    {
        let mut policy = self;
        policy.allowed_domains = domains;
        policy
    }
}

/// Whether one allowlist entry admits the (lowercase) host: `*` admits every
/// host, `*.suffix` admits `suffix` and its subdomains, anything else admits
/// exactly that host. Entries are trimmed and compared in lowercase.
pub open spec fn entry_admits(host: Seq<char>, entry: Seq<char>) -> bool {
    let e = ascii_lower_seq(trim_seq(entry));
    if e == seq!['*'] {
        true
    } else if starts_with_seq(e, seq!['*', '.']) {
        let suffix = e.skip(2);
        host == suffix || ends_with_seq(host, seq!['.'] + suffix)
    } else {
        host == e
    }
}

pub open spec fn domain_admitted(host: Seq<char>, allowed: Seq<Seq<char>>) -> bool {
    exists|i: int| 0 <= i < allowed.len() && entry_admits(ascii_lower_seq(host), #[trigger] allowed[i])
}

fn entry_admits_exec(host: &Vec<char>, entry: &String) -> (r: bool)
    ensures
        r == entry_admits(host@, entry@),
{
    let t = trim(entry.as_str());
    let ev = chars_of(t.as_str());
    let e = lower_chars(&ev);
    let star = lit("*");
    let star_dot = lit("*.");
    assert(star@ =~= seq!['*']) by {
        reveal_strlit("*");
    }
    assert(star_dot@ =~= seq!['*', '.']) by {
        reveal_strlit("*.");
    }
    if chars_eq(&e, &star) {
        return true;
    }
    if chars_starts_with(&e, &star_dot) {
        let mut suffix: Vec<char> = Vec::new();
        let mut dotted: Vec<char> = Vec::new();
        dotted.push('.');
        let mut i: usize = 2;
        while i < e.len()
            invariant
                2 <= i <= e@.len(),
                suffix@ == e@.subrange(2, i as int),
                dotted@ == seq!['.'] + suffix@,
            decreases e@.len() - i,
        {
            suffix.push(e[i]);
            dotted.push(e[i]);
            i = i + 1;
            assert(suffix@ =~= e@.subrange(2, i as int));
            assert(dotted@ =~= seq!['.'] + suffix@);
        }
        assert(suffix@ =~= e@.skip(2));
        return chars_eq(host, &suffix) || chars_ends_with(host, &dotted);
    }
    chars_eq(host, &e)
}

/// `host` (compared in lowercase) is admitted by some entry of `allowed_domains`.
pub fn domain_allowed(host: &str, allowed_domains: &Vec<String>) -> (r: bool)
    ensures
        r == domain_admitted(host@, views(allowed_domains@)),
{
    if allowed_domains.len() == 0 {
        return false;
    }
    let hv = chars_of(host);
    let h = lower_chars(&hv);
    let mut i: usize = 0;
    while i < allowed_domains.len()
        invariant
            i <= allowed_domains@.len(),
            h@ == ascii_lower_seq(host@),
            forall|j: int|
                0 <= j < i ==> !entry_admits(h@, #[trigger] views(allowed_domains@)[j]),
        decreases allowed_domains@.len() - i,
    {
        if entry_admits_exec(&h, &allowed_domains[i]) {
            assert(entry_admits(h@, views(allowed_domains@)[i as int]));
            return true;
        }
        i = i + 1;
    }
    false
}


// ---------------------------------------------------------------------------
// Errors and verdicts
// ---------------------------------------------------------------------------
#[derive(Debug, Clone, Copy, PartialEq, Eq, Structural)]
pub enum SecurityErrorKind {
    MissingPolicy,
    InvalidArgument,
    PermissionDenied,
    Internal,
}

#[derive(Debug)]
pub enum PluginSecurityError {
    MissingPolicy { plugin_id: String },
    InvalidArgument { message: String },
    PermissionDenied { reason: String },
    Internal { message: String },
}

/// The text an error displays as.
pub open spec fn error_text(k: SecurityErrorKind, detail: Seq<char>) -> Seq<char> {
    match k {
        SecurityErrorKind::MissingPolicy => "未找到插件安全策略: "@ + detail,
        SecurityErrorKind::InvalidArgument => "参数非法: "@ + detail,
        SecurityErrorKind::PermissionDenied => "权限拒绝: "@ + detail,
        SecurityErrorKind::Internal => "权限网关内部错误: "@ + detail,
    }
}

impl PluginSecurityError {
    pub open spec fn kind(&self) -> SecurityErrorKind {
        match self {
            PluginSecurityError::MissingPolicy { .. } => SecurityErrorKind::MissingPolicy,
            PluginSecurityError::InvalidArgument { .. } => SecurityErrorKind::InvalidArgument,
            PluginSecurityError::PermissionDenied { .. } => SecurityErrorKind::PermissionDenied,
            PluginSecurityError::Internal { .. } => SecurityErrorKind::Internal,
        }
    }

    pub open spec fn detail(&self) -> Seq<char> {
        match self {
            PluginSecurityError::MissingPolicy { plugin_id } => plugin_id@,
            PluginSecurityError::InvalidArgument { message } => message@,
            PluginSecurityError::PermissionDenied { reason } => reason@,
            PluginSecurityError::Internal { message } => message@,
        }
    }

    pub fn of_kind(kind: SecurityErrorKind, detail: String) -> (e: PluginSecurityError)
        ensures
            e.kind() == kind,
            e.detail() == detail@,
    {
        match kind {
            SecurityErrorKind::MissingPolicy => PluginSecurityError::MissingPolicy {
                plugin_id: detail,
            },
            SecurityErrorKind::InvalidArgument => PluginSecurityError::InvalidArgument {
                message: detail,
            },
            SecurityErrorKind::PermissionDenied => PluginSecurityError::PermissionDenied {
                reason: detail,
            },
            SecurityErrorKind::Internal => PluginSecurityError::Internal { message: detail },
        }
    }

    /// The text the error displays as.
    pub fn message(&self) -> (r: String)
        ensures
            r@ == error_text(self.kind(), self.detail()),
    {
        let (mut out, detail) = match self {
            PluginSecurityError::MissingPolicy { plugin_id } => (
                owned("未找到插件安全策略: "),
                plugin_id,
            ),
            PluginSecurityError::InvalidArgument { message } => (owned("参数非法: "), message),
            PluginSecurityError::PermissionDenied { reason } => (owned("权限拒绝: "), reason),
            PluginSecurityError::Internal { message } => (owned("权限网关内部错误: "), message),
        };
        out.append(detail.as_str());
        out
    }
}

/// What a check decides: allow (and audit) the target, deny with an error and
/// audit the target, or reject with an error before any audit.
pub enum Verdict {
    Allow(Seq<char>),
    Deny(SecurityErrorKind, Seq<char>, Seq<char>),
    Reject(SecurityErrorKind, Seq<char>),
}

pub open spec fn result_matches(r: Result<String, PluginSecurityError>, v: Verdict) -> bool {
    match v {
        Verdict::Allow(t) => r matches Ok(s) && s@ == t,
        Verdict::Deny(k, d, _) => r matches Err(e) && e.kind() == k && e.detail() == d,
        Verdict::Reject(k, d) => r matches Err(e) && e.kind() == k && e.detail() == d,
    }
}

/// The audit record of a decision about `plugin_id` and `action`.
pub open spec fn record_matches(
    rec: PluginAuditRecord,
    plugin_id: Seq<char>,
    action: PluginSecurityAction,
    v: Verdict,
) -> bool {
    &&& rec.plugin_id@ == plugin_id
    &&& rec.action == action
    &&& rec.target_kind == target_kind_of(action)
    &&& match v {
        Verdict::Allow(t) => rec.target@ == t && rec.allowed && rec.reason is None,
        Verdict::Deny(k, d, t) => rec.target@ == t && !rec.allowed && (rec.reason matches Some(m)
            && m@ == error_text(k, d)),
        Verdict::Reject(_, _) => false,
    }
}

/// The log after appending `x` to `q` when at most `cap` records are kept.
pub open spec fn bounded_push<T>(q: Seq<T>, x: T, cap: nat) -> Seq<T> {
    if q.len() >= cap {
        q.drop_first().push(x)
    } else {
        q.push(x)
    }
}

/// The log after appending each of `xs` in turn to `q`, keeping at most `cap`.
pub open spec fn bounded_push_all<T>(q: Seq<T>, xs: Seq<T>, cap: nat) -> Seq<T>
    decreases xs.len(),
{
    if xs.len() == 0 {
        q
    } else {
        bounded_push(bounded_push_all(q, xs.drop_last(), cap), xs.last(), cap)
    }
}

/// The last `cap` items of `s` (all of them when there are fewer), in order.
pub open spec fn most_recent<T>(s: Seq<T>, cap: nat) -> Seq<T> {
    if s.len() > cap {
        s.skip(s.len() - cap)
    } else {
        s
    }
}

/// The audit log after a decision: one more record for an allow or a deny,
/// unchanged for a reject.
pub open spec fn audited(
    before: Seq<PluginAuditRecord>,
    after: Seq<PluginAuditRecord>,
    cap: nat,
    plugin_id: Seq<char>,
    action: PluginSecurityAction,
    v: Verdict,
) -> bool {
    if v is Reject {
        after == before
    } else {
        after.len() > 0 && after == bounded_push(before, after.last(), cap) && record_matches(
            after.last(),
            plugin_id,
            action,
            v,
        )
    }
}

enum Decision {
    Allow(String),
    Deny(PluginSecurityError, String),
    Reject(PluginSecurityError),
}

spec fn decision_is(d: Decision, v: Verdict) -> bool {
    match d {
        Decision::Allow(t) => v matches Verdict::Allow(x) && t@ == x,
        Decision::Deny(e, t) => v matches Verdict::Deny(k, x, y) && e.kind() == k && e.detail()
            == x && t@ == y,
        Decision::Reject(e) => v matches Verdict::Reject(k, x) && e.kind() == k && e.detail() == x,
    }
}

fn deny(kind: SecurityErrorKind, detail: String, target: String) -> (d: Decision)
    ensures
        decision_is(d, Verdict::Deny(kind, detail@, target@)),
{
    Decision::Deny(PluginSecurityError::of_kind(kind, detail), target)
}

fn concat(prefix: &str, rest: &str) -> (r: String)
    ensures
        r@ == prefix@ + rest@,
{
    let mut s = owned(prefix);
    s.append(rest);
    s
}

// ---------------------------------------------------------------------------
// Decisions
// ---------------------------------------------------------------------------
/// The host of `input` according to `reqwest::Url::parse`, or the text of its
/// parse error; `Ok(None)` for a URL without host.
pub uninterp spec fn url_host(input: Seq<char>) -> Result<Option<Seq<char>>, Seq<char>>;

pub open spec fn host_result_view(r: Result<Option<String>, String>) -> Result<
    Option<Seq<char>>,
    Seq<char>,
> {
    match r {
        Ok(Some(h)) => Ok(Some(h@)),
        Ok(None) => Ok(None),
        Err(e) => Err(e@),
    }
}

/// Calls `reqwest::Url::parse` and `Url::host_str`; the contract names the
/// outcome, which depends on the input alone.
#[verifier::external_body]
fn parse_url_host(url: &str) -> (r: Result<Option<String>, String>)
    ensures
        host_result_view(r) == url_host(url@),
{
    match reqwest::Url::parse(url) {
        Ok(parsed) => match parsed.host_str() {
            Some(host) => Ok(Some(host.to_string())),
            None => Ok(None),
        },
        Err(error) => Err(error.to_string()),
    }
}

/// Wall-clock time in milliseconds since the Unix epoch (`chrono::Utc::now`);
/// nothing is claimed of the value.
#[verifier::external_body]
pub(crate) fn now_millis() -> i64 {
    chrono::Utc::now().timestamp_millis()
}

/// The decision on an HTTP request of `plugin_id`, given its policy and the
/// parse of the URL.
pub open spec fn http_verdict(
    policy: Option<PluginSecurityPolicy>,
    plugin_id: Seq<char>,
    method: Seq<char>,
    url: Seq<char>,
    parsed: Result<Option<Seq<char>>, Seq<char>>,
) -> Verdict {
    if is_blank_seq(method) {
        Verdict::Deny(
            SecurityErrorKind::InvalidArgument,
            "http method 不能为空"@,
            "<empty-method>"@,
        )
    } else {
        match parsed {
            Err(e) => Verdict::Deny(SecurityErrorKind::InvalidArgument, "url 解析失败: "@ + e, url),
            Ok(None) => Verdict::Deny(SecurityErrorKind::InvalidArgument, "url 缺少 host"@, url),
            Ok(Some(h)) => {
                let host = ascii_lower_seq(h);
                match policy {
                    None => Verdict::Deny(SecurityErrorKind::MissingPolicy, plugin_id, host),
                    Some(p) => if !p.allow_network {
                        Verdict::Deny(
                            SecurityErrorKind::PermissionDenied,
                            "manifest 未声明 network 权限"@,
                            host,
                        )
                    } else if !domain_admitted(host, views(p.allowed_domains@)) {
                        Verdict::Deny(
                            SecurityErrorKind::PermissionDenied,
                            "域名不在白名单: "@ + host,
                            host,
                        )
                    } else {
                        Verdict::Allow(host)
                    },
                }
            },
        }
    }
}

/// Whether a write to `table` is granted by the write allowlist.
pub open spec fn write_granted(tables: Seq<Seq<char>>, table: Seq<char>) -> bool {
    exists|i: int| 0 <= i < tables.len() && (#[trigger] tables[i] == seq!['*'] || tables[i] == table)
}

/// The table a statement names: the explicit table when one is given, else the
/// one read from the statement.
pub open spec fn statement_table(
    sql: Seq<char>,
    op: SqlOperation,
    explicit_table: Option<Seq<char>>,
) -> Option<Seq<char>> {
    match explicit_table {
        Some(t) => Some(normalized_table_name(t)),
        None => table_of_sql(sql, op),
    }
}

/// The decision on a database statement of `plugin_id`.
pub open spec fn db_verdict(
    policy: Option<PluginSecurityPolicy>,
    plugin_id: Seq<char>,
    raw_sql: Seq<char>,
    explicit_table: Option<Seq<char>>,
    write: bool,
) -> Verdict {
    let sql = trim_seq(raw_sql);
    if sql.len() == 0 {
        Verdict::Deny(SecurityErrorKind::InvalidArgument, "sql 不能为空"@, "<empty-sql>"@)
    } else {
        match sql_operation_of(sql) {
            None => Verdict::Deny(
                SecurityErrorKind::InvalidArgument,
                "无法识别 sql 操作类型"@,
                "<unknown-table>"@,
            ),
            Some(op) => {
                let is_write = write || op == SqlOperation::Write;
                match statement_table(sql, op, explicit_table) {
                    None => Verdict::Deny(
                        SecurityErrorKind::InvalidArgument,
                        "无法从 sql 中提取表名，请显式提供 table"@,
                        "<unknown-table>"@,
                    ),
                    Some(t) => if t.len() == 0 {
                        Verdict::Deny(
                            SecurityErrorKind::InvalidArgument,
                            "无法从 sql 中提取表名，请显式提供 table"@,
                            "<unknown-table>"@,
                        )
                    } else {
                        let table = ascii_lower_seq(t);
                        match policy {
                            None => Verdict::Deny(SecurityErrorKind::MissingPolicy, plugin_id, table),
                            Some(p) => if is_write {
                                if write_granted(views(p.database_write_tables@), table) {
                                    Verdict::Allow(table)
                                } else {
                                    Verdict::Deny(
                                        SecurityErrorKind::PermissionDenied,
                                        "写入表未授权: "@ + table,
                                        table,
                                    )
                                }
                            } else if !p.database_read {
                                Verdict::Deny(
                                    SecurityErrorKind::PermissionDenied,
                                    "manifest 未声明 database_read 权限"@,
                                    table,
                                )
                            } else {
                                Verdict::Allow(table)
                            },
                        }
                    },
                }
            },
        }
    }
}

pub open spec fn cwd_view(cwd: Result<&str, &str>) -> Result<Seq<char>, Seq<char>> {
    match cwd {
        Ok(c) => Ok(c@),
        Err(e) => Err(e@),
    }
}

/// Whether some root of the allowlist, normalized against the same working
/// directory, is a prefix of the normalized target.
pub open spec fn path_granted(
    target: (bool, Seq<Seq<char>>),
    roots: Seq<Seq<char>>,
    cwd: Result<Seq<char>, Seq<char>>,
) -> bool {
    exists|i: int|
        0 <= i < roots.len() && (#[trigger] normalized_path(roots[i], cwd) matches Ok(r)
            && path_starts_with(target, r))
}

pub open spec fn allowlist_of(p: PluginSecurityPolicy, action: PluginSecurityAction) -> Seq<Seq<char>> {
    if action == PluginSecurityAction::FsRead {
        views(p.filesystem_read@)
    } else {
        views(p.filesystem_write@)
    }
}

/// The decision on a file-system access of `plugin_id` to `path`.
pub open spec fn fs_verdict(
    policy: Option<PluginSecurityPolicy>,
    plugin_id: Seq<char>,
    action: PluginSecurityAction,
    path: Seq<char>,
    cwd: Result<Seq<char>, Seq<char>>,
) -> Verdict {
    if is_blank_seq(path) {
        Verdict::Deny(SecurityErrorKind::InvalidArgument, "path 不能为空"@, "<empty-path>"@)
    } else {
        match normalized_path(path, cwd) {
            Err(t) => Verdict::Reject(SecurityErrorKind::InvalidArgument, t),
            Ok(p) => {
                let target = path_text(p);
                match policy {
                    None => Verdict::Deny(SecurityErrorKind::MissingPolicy, plugin_id, target),
                    Some(q) => if path_granted(p, allowlist_of(q, action), cwd) {
                        Verdict::Allow(target)
                    } else {
                        Verdict::Deny(
                            SecurityErrorKind::PermissionDenied,
                            "路径未授权: "@ + target,
                            target,
                        )
                    },
                }
            },
        }
    }
}

// ---------------------------------------------------------------------------
// The gateway
// ---------------------------------------------------------------------------
pub open spec fn keys_unique(es: Seq<(String, PluginSecurityPolicy)>) -> bool {
    forall|a: int, b: int| 0 <= a < b < es.len() ==> #[trigger] es[a].0@ != #[trigger] es[b].0@
}

pub open spec fn lookup(es: Seq<(String, PluginSecurityPolicy)>, k: Seq<char>) -> Option<
    PluginSecurityPolicy,
>
    decreases es.len(),
{
    if es.len() == 0 {
        None
    } else if es[0].0@ == k {
        Some(es[0].1)
    } else {
        lookup(es.drop_first(), k)
    }
}

pub proof fn lemma_lookup_at(es: Seq<(String, PluginSecurityPolicy)>, k: Seq<char>, i: int)
    requires
        keys_unique(es),
        0 <= i < es.len(),
        es[i].0@ == k,
    ensures
        lookup(es, k) == Some(es[i].1),
    decreases es.len(),
{
    if i > 0 {
        let t = es.drop_first();
        assert(es[0].0@ != es[i].0@);
        assert forall|a: int, b: int| 0 <= a < b < t.len() implies #[trigger] t[a].0@
            != #[trigger] t[b].0@ by {
            assert(t[a] == es[a + 1]);
            assert(t[b] == es[b + 1]);
        }
        assert(t[i - 1] == es[i]);
        lemma_lookup_at(t, k, i - 1);
    }
}

pub proof fn lemma_lookup_absent(es: Seq<(String, PluginSecurityPolicy)>, k: Seq<char>)
    requires
        forall|j: int| 0 <= j < es.len() ==> #[trigger] es[j].0@ != k,
    ensures
        lookup(es, k) is None,
    decreases es.len(),
{
    if es.len() > 0 {
        let t = es.drop_first();
        assert forall|j: int| 0 <= j < t.len() implies #[trigger] t[j].0@ != k by {
            assert(t[j] == es[j + 1]);
        }
        lemma_lookup_absent(t, k);
    }
}

/// With unique keys, the policy stored for `k`, if any.
pub proof fn lemma_lookup(es: Seq<(String, PluginSecurityPolicy)>, k: Seq<char>)
    requires
        keys_unique(es),
    ensures
        lookup(es, k) matches Some(p) ==> exists|i: int|
            0 <= i < es.len() && #[trigger] es[i].0@ == k && es[i].1 == p,
        lookup(es, k) is None ==> forall|j: int| 0 <= j < es.len() ==> #[trigger] es[j].0@ != k,
{
    if exists|i: int| 0 <= i < es.len() && #[trigger] es[i].0@ == k {
        let i = choose|i: int| 0 <= i < es.len() && #[trigger] es[i].0@ == k;
        lemma_lookup_at(es, k, i);
    } else {
        lemma_lookup_absent(es, k);
    }
}

pub struct PluginSecurityGateway {
    policies: Vec<(String, PluginSecurityPolicy)>,
    audit_records: VecDeque<PluginAuditRecord>,
    max_audit_records: usize,
    /// Every record audited since the gateway was made, in order.
    audit_history: Ghost<Seq<PluginAuditRecord>>,
}

impl Default for PluginSecurityGateway {
    fn default() -> (r: Self)
        ensures
            r.wf(),
            r.capacity() == DEFAULT_AUDIT_CAPACITY,
            r.audit_log().len() == 0,
            forall|k: Seq<char>| #[trigger] r.policy_for(k) is None,
    {
        Self::new(DEFAULT_AUDIT_CAPACITY)
    }
}

impl PluginSecurityGateway {
    /// Policies are stored once per plugin and the log holds at most `capacity` records.
    pub closed spec fn wf(&self) -> bool {
        &&& self.max_audit_records >= 1
        &&& self.audit_records@.len() <= self.max_audit_records
        &&& self.audit_records@ == most_recent(self.audit_history@, self.max_audit_records as nat)
        &&& keys_unique(self.policies@)
    }

    /// Every record audited since the gateway was made, oldest first.
    pub closed spec fn audit_history(&self) -> Seq<PluginAuditRecord> {
        self.audit_history@
    }

    /// How `after` follows from this gateway by one audited decision: its log
    /// as `audited` says, and its history with the new record appended (none
    /// for a reject).
    pub open spec fn audited_by(
        self,
        after: Self,
        plugin_id: Seq<char>,
        action: PluginSecurityAction,
        v: Verdict,
    ) -> bool {
        &&& audited(self.audit_log(), after.audit_log(), self.capacity(), plugin_id, action, v)
        &&& after.audit_history() == if v is Reject {
            self.audit_history()
        } else {
            self.audit_history().push(after.audit_log().last())
        }
    }

    /// The policy registered for a plugin.
    pub closed spec fn policy_for(&self, plugin_id: Seq<char>) -> Option<PluginSecurityPolicy> {
        lookup(self.policies@, plugin_id)
    }

    /// The audit records, oldest first.
    pub closed spec fn audit_log(&self) -> Seq<PluginAuditRecord> {
        self.audit_records@
    }

    /// How many audit records are kept.
    pub closed spec fn capacity(&self) -> nat {
        self.max_audit_records as nat
    }

    /// A gateway without policies that keeps the last `max(max_audit_records, 1)` records.
    pub fn new(max_audit_records: usize) -> (r: Self)
        ensures
            r.wf(),
            r.capacity() == if max_audit_records >= 1 {
                max_audit_records as nat
            } else {
                1
            },
            r.audit_log().len() == 0,
            r.audit_history().len() == 0,
            forall|k: Seq<char>| #[trigger] r.policy_for(k) is None,
    {
        let cap = if max_audit_records >= 1 {
            max_audit_records
        } else {
            1
        };
        let r = PluginSecurityGateway {
            policies: Vec::new(),
            audit_records: VecDeque::new(),
            max_audit_records: cap,
            audit_history: Ghost(Seq::empty()),
        };
        assert(r.audit_records@ =~= most_recent(Seq::<PluginAuditRecord>::empty(), cap as nat));
        assert forall|k: Seq<char>| #[trigger] r.policy_for(k) is None by {
            lemma_lookup_absent(r.policies@, k);
        }
        r
    }

    fn find_policy(&self, plugin_id: &str) -> (r: Option<usize>)
        requires
            self.wf(),
        ensures
            match r {
                Some(i) => i < self.policies@.len() && self.policies@[i as int].0@ == plugin_id@
                    && self.policy_for(plugin_id@) == Some(self.policies@[i as int].1),
                None => self.policy_for(plugin_id@) is None && forall|j: int|
                    0 <= j < self.policies@.len() ==> #[trigger] self.policies@[j].0@ != plugin_id@,
            },
    {
        let mut i: usize = 0;
        while i < self.policies.len()
            invariant
                i <= self.policies@.len(),
                keys_unique(self.policies@),
                forall|j: int| 0 <= j < i ==> #[trigger] self.policies@[j].0@ != plugin_id@,
            decreases self.policies@.len() - i,
        {
            if str_eq(self.policies[i].0.as_str(), plugin_id) {
                proof {
                    lemma_lookup_at(self.policies@, plugin_id@, i as int);
                }
                return Some(i);
            }
            i = i + 1;
        }
        proof {
            lemma_lookup_absent(self.policies@, plugin_id@);
        }
        None
    }

    /// Registers `policy` for `plugin_id`, replacing an earlier one.
    pub fn upsert_policy(&mut self, plugin_id: String, policy: PluginSecurityPolicy) -> (r: Result<
        (),
        PluginSecurityError,
    >)
        requires
            old(self).wf(),
        ensures
            r is Ok,
            final(self).wf(),
            final(self).audit_log() == old(self).audit_log(),
            final(self).audit_history() == old(self).audit_history(),
            final(self).capacity() == old(self).capacity(),
            forall|k: Seq<char>|
                #[trigger] final(self).policy_for(k) == if k == plugin_id@ {
                    Some(policy)
                } else {
                    old(self).policy_for(k)
                },
    {
        let ghost old_es = self.policies@;
        let ghost id = plugin_id@;
        let ghost pol = policy;
        match self.find_policy(plugin_id.as_str()) {
            Some(i) => {
                self.policies.set(i, (plugin_id, policy));
                proof {
                    let es = self.policies@;
                    assert(es == old_es.update(i as int, es[i as int]));
                    assert forall|a: int, b: int| 0 <= a < b < es.len() implies #[trigger] es[a].0@
                        != #[trigger] es[b].0@ by {
                        if a != i && b != i {
                            assert(es[a] == old_es[a] && es[b] == old_es[b]);
                        } else if a == i {
                            assert(es[b] == old_es[b]);
                            assert(old_es[i as int].0@ != old_es[b].0@);
                        } else {
                            assert(es[a] == old_es[a]);
                            assert(old_es[a].0@ != old_es[i as int].0@);
                        }
                    }
                    assert forall|k: Seq<char>| #[trigger] lookup(es, k) == if k == id {
                        Some(pol)
                    } else {
                        lookup(old_es, k)
                    } by {
                        if k == id {
                            lemma_lookup_at(es, k, i as int);
                        } else {
                            lemma_lookup(old_es, k);
                            lemma_lookup(es, k);
                            if lookup(old_es, k) is Some {
                                let j = choose|j: int| 0 <= j < old_es.len() && #[trigger] old_es[j].0@ == k && old_es[j].1 == lookup(old_es, k)->0;
                                assert(j != i);
                                assert(es[j] == old_es[j]);
                                lemma_lookup_at(es, k, j);
                            } else {
                                assert forall|j: int| 0 <= j < es.len() implies #[trigger] es[j].0@ != k by {
                                    if j != i {
                                        assert(es[j] == old_es[j]);
                                    }
                                }
                                lemma_lookup_absent(es, k);
                            }
                        }
                    }
                }
            },
            None => {
                self.policies.push((plugin_id, policy));
                proof {
                    let es = self.policies@;
                    assert(es == old_es.push(es.last()));
                    assert forall|a: int, b: int| 0 <= a < b < es.len() implies #[trigger] es[a].0@
                        != #[trigger] es[b].0@ by {
                        assert(es[a] == old_es[a]);
                        if b < old_es.len() {
                            assert(es[b] == old_es[b]);
                        }
                    }
                    assert forall|k: Seq<char>| #[trigger] lookup(es, k) == if k == id {
                        Some(pol)
                    } else {
                        lookup(old_es, k)
                    } by {
                        if k == id {
                            lemma_lookup_at(es, k, old_es.len() as int);
                        } else {
                            lemma_lookup(old_es, k);
                            if lookup(old_es, k) is Some {
                                let j = choose|j: int| 0 <= j < old_es.len() && #[trigger] old_es[j].0@ == k && old_es[j].1 == lookup(old_es, k)->0;
                                assert(es[j] == old_es[j]);
                                lemma_lookup_at(es, k, j);
                            } else {
                                assert forall|j: int| 0 <= j < es.len() implies #[trigger] es[j].0@ != k by {
                                    if j < old_es.len() {
                                        assert(es[j] == old_es[j]);
                                    }
                                }
                                lemma_lookup_absent(es, k);
                            }
                        }
                    }
                }
            },
        }
        Ok(())
    }

    /// Drops the policy of `plugin_id`, if any.
    pub fn remove_policy(&mut self, plugin_id: &str) -> (r: Result<(), PluginSecurityError>)
        requires
            old(self).wf(),
        ensures
            r is Ok,
            final(self).wf(),
            final(self).audit_log() == old(self).audit_log(),
            final(self).audit_history() == old(self).audit_history(),
            final(self).capacity() == old(self).capacity(),
            forall|k: Seq<char>|
                #[trigger] final(self).policy_for(k) == if k == plugin_id@ {
                    None
                } else {
                    old(self).policy_for(k)
                },
    {
        let ghost old_es = self.policies@;
        match self.find_policy(plugin_id) {
            Some(i) => {
                self.policies.remove(i);
                proof {
                    let es = self.policies@;
                    assert forall|j: int| 0 <= j < es.len() implies #[trigger] es[j] == (if j < i {
                        old_es[j]
                    } else {
                        old_es[j + 1]
                    }) by {}
                    assert forall|a: int, b: int| 0 <= a < b < es.len() implies #[trigger] es[a].0@
                        != #[trigger] es[b].0@ by {
                        let a2 = if a < i { a } else { a + 1 };
                        let b2 = if b < i { b } else { b + 1 };
                        assert(es[a] == old_es[a2]);
                        assert(es[b] == old_es[b2]);
                    }
                    assert forall|k: Seq<char>| #[trigger] lookup(es, k) == if k == plugin_id@ {
                        None
                    } else {
                        lookup(old_es, k)
                    } by {
                        if k == plugin_id@ {
                            assert forall|j: int| 0 <= j < es.len() implies #[trigger] es[j].0@ != k by {
                                let j2 = if j < i { j } else { j + 1 };
                                assert(es[j] == old_es[j2]);
                                assert(old_es[j2].0@ != old_es[i as int].0@);
                            }
                            lemma_lookup_absent(es, k);
                        } else {
                            lemma_lookup(old_es, k);
                            if lookup(old_es, k) is Some {
                                let j = choose|j: int| 0 <= j < old_es.len() && #[trigger] old_es[j].0@ == k && old_es[j].1 == lookup(old_es, k)->0;
                                assert(j != i);
                                let j2 = if j < i { j } else { j - 1 };
                                assert(es[j2] == old_es[j]);
                                lemma_lookup_at(es, k, j2);
                            } else {
                                assert forall|j: int| 0 <= j < es.len() implies #[trigger] es[j].0@ != k by {
                                    let j2 = if j < i { j } else { j + 1 };
                                    assert(es[j] == old_es[j2]);
                                }
                                lemma_lookup_absent(es, k);
                            }
                        }
                    }
                }
            },
            None => {},
        }
        Ok(())
    }

    fn copy_record(rec: &PluginAuditRecord) -> (r: PluginAuditRecord)
        ensures
            r == *rec,
    {
        PluginAuditRecord {
            timestamp_ms: rec.timestamp_ms,
            plugin_id: rec.plugin_id.clone(),
            action: rec.action,
            target_kind: rec.target_kind,
            target: rec.target.clone(),
            allowed: rec.allowed,
            reason: match &rec.reason {
                Some(reason) => Some(reason.clone()),
                None => None,
            },
        }
    }

    /// The audit records, oldest first.
    pub fn recent_audit_records(&self) -> (r: Result<Vec<PluginAuditRecord>, PluginSecurityError>)
        ensures
            r matches Ok(v) && v@ == self.audit_log(),
    {
        let mut out: Vec<PluginAuditRecord> = Vec::new();
        let mut i: usize = 0;
        while i < self.audit_records.len()
            invariant
                i <= self.audit_records@.len(),
                out@ == self.audit_records@.take(i as int),
            decreases self.audit_records@.len() - i,
        {
            let rec = Self::copy_record(&self.audit_records[i]);
            out.push(rec);
            i = i + 1;
            assert(out@ =~= self.audit_records@.take(i as int));
        }
        assert(self.audit_records@.take(self.audit_records@.len() as int) =~= self.audit_records@);
        Ok(out)
    }

    fn push_audit(&mut self, record: PluginAuditRecord)
        requires
            old(self).wf(),
        ensures
            final(self).wf(),
            final(self).policies == old(self).policies,
            final(self).max_audit_records == old(self).max_audit_records,
            final(self).audit_records@ == bounded_push(
                old(self).audit_records@,
                record,
                old(self).max_audit_records as nat,
            ),
            final(self).audit_history@ == old(self).audit_history@.push(record),
    {
        proof {
            lemma_most_recent_push(self.audit_history@, record, self.max_audit_records as nat);
        }
        self.audit_history = Ghost(self.audit_history@.push(record));
        if self.audit_records.len() >= self.max_audit_records {
            let _ = self.audit_records.pop_front();
            assert(self.audit_records@ =~= old(self).audit_records@.drop_first());
        }
        self.audit_records.push_back(record);
    }

    /// Audits a decision and turns it into the caller's result.
    fn conclude(
        &mut self,
        plugin_id: &str,
        action: PluginSecurityAction,
        decision: Decision,
        verdict: Ghost<Verdict>,
    ) -> (r: Result<String, PluginSecurityError>)
        requires
            old(self).wf(),
            decision_is(decision, verdict@),
        ensures
            final(self).wf(),
            final(self).policies == old(self).policies,
            final(self).max_audit_records == old(self).max_audit_records,
            result_matches(r, verdict@),
            old(self).audited_by(*final(self), plugin_id@, action, verdict@),
    {
        let kind = target_kind_for(action);
        match decision {
            Decision::Allow(target) => {
                let record = PluginAuditRecord {
                    timestamp_ms: now_millis(),
                    plugin_id: owned(plugin_id),
                    action,
                    target_kind: kind,
                    target: target.clone(),
                    allowed: true,
                    reason: None,
                };
                self.push_audit(record);
                Ok(target)
            },
            Decision::Deny(error, target) => {
                let reason = error.message();
                let record = PluginAuditRecord {
                    timestamp_ms: now_millis(),
                    plugin_id: owned(plugin_id),
                    action,
                    target_kind: kind,
                    target,
                    allowed: false,
                    reason: Some(reason),
                };
                self.push_audit(record);
                Err(error)
            },
            Decision::Reject(error) => Err(error),
        }
    }
}


pub open spec fn policy_view(p: Option<&PluginSecurityPolicy>) -> Option<PluginSecurityPolicy> {
    match p {
        Some(q) => Some(*q),
        None => None,
    }
}

pub open spec fn table_arg_view(t: Option<&str>) -> Option<Seq<char>> {
    match t {
        Some(x) => Some(x@),
        None => None,
    }
}

fn decide_http(
    policy: Option<&PluginSecurityPolicy>,
    plugin_id: &str,
    method: &str,
    url: &str,
    parsed: Result<Option<String>, String>,
) -> (d: Decision)
    ensures
        decision_is(
            d,
            http_verdict(policy_view(policy), plugin_id@, method@, url@, host_result_view(parsed)),
        ),
{
    if is_blank(method) {
        return deny(
            SecurityErrorKind::InvalidArgument,
            owned("http method 不能为空"),
            owned("<empty-method>"),
        );
    }
    match parsed {
        Err(e) => deny(
            SecurityErrorKind::InvalidArgument,
            concat("url 解析失败: ", e.as_str()),
            owned(url),
        ),
        Ok(None) => deny(SecurityErrorKind::InvalidArgument, owned("url 缺少 host"), owned(url)),
        Ok(Some(h)) => {
            let host = to_ascii_lowercase(h.as_str());
            match policy {
                None => deny(SecurityErrorKind::MissingPolicy, owned(plugin_id), host),
                Some(p) => {
                    if !p.allow_network {
                        deny(
                            SecurityErrorKind::PermissionDenied,
                            owned("manifest 未声明 network 权限"),
                            host,
                        )
                    } else if !domain_allowed(host.as_str(), &p.allowed_domains) {
                        let reason = concat("域名不在白名单: ", host.as_str());
                        deny(SecurityErrorKind::PermissionDenied, reason, host)
                    } else {
                        Decision::Allow(host)
                    }
                },
            }
        },
    }
}

fn write_allowed(tables: &Vec<String>, table: &str) -> (r: bool)
    ensures
        r == write_granted(views(tables@), table@),
{
    let star = lit("*");
    assert(star@ =~= seq!['*']) by {
        reveal_strlit("*");
    }
    let t = chars_of(table);
    let mut i: usize = 0;
    while i < tables.len()
        invariant
            i <= tables@.len(),
            star@ == seq!['*'],
            t@ == table@,
            forall|j: int|
                0 <= j < i ==> !(#[trigger] views(tables@)[j] == seq!['*'] || views(tables@)[j]
                    == table@),
        decreases tables@.len() - i,
    {
        let entry = chars_of(tables[i].as_str());
        if chars_eq(&entry, &star) || chars_eq(&entry, &t) {
            assert(views(tables@)[i as int] == entry@);
            return true;
        }
        assert(views(tables@)[i as int] == entry@);
        i = i + 1;
    }
    false
}

fn decide_db(
    policy: Option<&PluginSecurityPolicy>,
    plugin_id: &str,
    sql: &str,
    explicit_table: Option<&str>,
    write: bool,
) -> (d: Decision)
    ensures
        decision_is(
            d,
            db_verdict(policy_view(policy), plugin_id@, sql@, table_arg_view(explicit_table), write),
        ),
{
    let trimmed = trim(sql);
    if trimmed.as_str().is_empty() {
        return deny(
            SecurityErrorKind::InvalidArgument,
            owned("sql 不能为空"),
            owned("<empty-sql>"),
        );
    }
    let operation = match detect_sql_operation(trimmed.as_str()) {
        Some(op) => op,
        None => {
            return deny(
                SecurityErrorKind::InvalidArgument,
                owned("无法识别 sql 操作类型"),
                owned("<unknown-table>"),
            );
        },
    };
    let is_write = write || match operation {
        SqlOperation::Write => true,
        SqlOperation::Read => false,
    };
    let table = match explicit_table {
        Some(t) => Some(normalize_table_name(t)),
        None => extract_table_from_sql(trimmed.as_str(), operation),
    };
    let table = match table {
        Some(t) => {
            if t.as_str().is_empty() {
                return deny(
                    SecurityErrorKind::InvalidArgument,
                    owned("无法从 sql 中提取表名，请显式提供 table"),
                    owned("<unknown-table>"),
                );
            }
            to_ascii_lowercase(t.as_str())
        },
        None => {
            return deny(
                SecurityErrorKind::InvalidArgument,
                owned("无法从 sql 中提取表名，请显式提供 table"),
                owned("<unknown-table>"),
            );
        },
    };
    match policy {
        None => deny(SecurityErrorKind::MissingPolicy, owned(plugin_id), table),
        Some(p) => {
            if is_write {
                if write_allowed(&p.database_write_tables, table.as_str()) {
                    Decision::Allow(table)
                } else {
                    let reason = concat("写入表未授权: ", table.as_str());
                    deny(SecurityErrorKind::PermissionDenied, reason, table)
                }
            } else if !p.database_read {
                deny(
                    SecurityErrorKind::PermissionDenied,
                    owned("manifest 未声明 database_read 权限"),
                    table,
                )
            } else {
                Decision::Allow(table)
            }
        },
    }
}

fn any_root_admits(target: &PathModel, roots: &Vec<String>, cwd: Result<&str, &str>) -> (r: bool)
    ensures
        r == path_granted(target.model(), views(roots@), cwd_view(cwd)),
{
    let mut i: usize = 0;
    while i < roots.len()
        invariant
            i <= roots@.len(),
            forall|j: int|
                0 <= j < i ==> !(#[trigger] normalized_path(views(roots@)[j], cwd_view(cwd)) matches Ok(
                    rp,
                ) && path_starts_with(target.model(), rp)),
        decreases roots@.len() - i,
    {
        assert(views(roots@)[i as int] == roots@[i as int]@);
        match normalize_path(roots[i].as_str(), cwd) {
            Ok(root) => {
                if target.starts_with(&root) {
                    return true;
                }
            },
            Err(_) => {},
        }
        i = i + 1;
    }
    false
}

fn decide_fs(
    policy: Option<&PluginSecurityPolicy>,
    plugin_id: &str,
    action: PluginSecurityAction,
    path: &str,
    cwd: Result<&str, &str>,
) -> (d: Decision)
    ensures
        decision_is(d, fs_verdict(policy_view(policy), plugin_id@, action, path@, cwd_view(cwd))),
{
    if is_blank(path) {
        return deny(
            SecurityErrorKind::InvalidArgument,
            owned("path 不能为空"),
            owned("<empty-path>"),
        );
    }
    let target = match normalize_path(path, cwd) {
        Ok(p) => p,
        Err(text) => {
            return Decision::Reject(
                PluginSecurityError::of_kind(SecurityErrorKind::InvalidArgument, text),
            );
        },
    };
    let shown = target.display();
    match policy {
        None => deny(SecurityErrorKind::MissingPolicy, owned(plugin_id), shown),
        Some(p) => {
            let roots = match action {
                PluginSecurityAction::FsRead => &p.filesystem_read,
                _ => &p.filesystem_write,
            };
            if any_root_admits(&target, roots, cwd) {
                Decision::Allow(shown)
            } else {
                let reason = concat("路径未授权: ", shown.as_str());
                deny(SecurityErrorKind::PermissionDenied, reason, shown)
            }
        },
    }
}

impl PluginSecurityGateway {
    fn policy_ref(&self, plugin_id: &str) -> (r: Option<&PluginSecurityPolicy>)
        requires
            self.wf(),
        ensures
            policy_view(r) == self.policy_for(plugin_id@),
    {
        match self.find_policy(plugin_id) {
            Some(i) => Some(&self.policies[i].1),
            None => None,
        }
    }

    /// Decides an HTTP request of `plugin_id`, given how the URL parsed; the
    /// decision is audited.
    pub fn check_http_request_with(
        &mut self,
        plugin_id: &str,
        method: &str,
        url: &str,
        parsed: Result<Option<String>, String>,
    ) -> (r: Result<String, PluginSecurityError>)
        requires
            old(self).wf(),
        ensures
            final(self).wf(),
            final(self).capacity() == old(self).capacity(),
            forall|k: Seq<char>| #[trigger] final(self).policy_for(k) == old(self).policy_for(k),
            result_matches(
                r,
                http_verdict(
                    old(self).policy_for(plugin_id@),
                    plugin_id@,
                    method@,
                    url@,
                    host_result_view(parsed),
                ),
            ),
            old(self).audited_by(
                *final(self),
                plugin_id@,
                PluginSecurityAction::HttpRequest,
                http_verdict(
                    old(self).policy_for(plugin_id@),
                    plugin_id@,
                    method@,
                    url@,
                    host_result_view(parsed),
                ),
            ),
    {
        let ghost v = http_verdict(
            self.policy_for(plugin_id@),
            plugin_id@,
            method@,
            url@,
            host_result_view(parsed),
        );
        let decision = decide_http(self.policy_ref(plugin_id), plugin_id, method, url, parsed);
        self.conclude(plugin_id, PluginSecurityAction::HttpRequest, decision, Ghost(v))
    }

    /// Decides an HTTP request of `plugin_id` to `url` with `method`; on success
    /// the lowercase host is returned. The decision is audited.
    pub fn check_http_request(&mut self, plugin_id: &str, method: &str, url: &str) -> (r: Result<
        String,
        PluginSecurityError,
    >)
        requires
            old(self).wf(),
        ensures
            final(self).wf(),
            final(self).capacity() == old(self).capacity(),
            forall|k: Seq<char>| #[trigger] final(self).policy_for(k) == old(self).policy_for(k),
            result_matches(
                r,
                http_verdict(old(self).policy_for(plugin_id@), plugin_id@, method@, url@, url_host(url@)),
            ),
            old(self).audited_by(
                *final(self),
                plugin_id@,
                PluginSecurityAction::HttpRequest,
                http_verdict(old(self).policy_for(plugin_id@), plugin_id@, method@, url@, url_host(url@)),
            ),
    {
        let parsed = if is_blank(method) {
            Ok(None)
        } else {
            parse_url_host(url)
        };
        self.check_http_request_with(plugin_id, method, url, parsed)
    }

    /// Decides a database statement of `plugin_id`; on success the lowercase
    /// table name is returned. The decision is audited.
    pub fn check_db_query(
        &mut self,
        plugin_id: &str,
        sql: &str,
        explicit_table: Option<&str>,
        write: bool,
    ) -> (r: Result<String, PluginSecurityError>)
        requires
            old(self).wf(),
        ensures
            final(self).wf(),
            final(self).capacity() == old(self).capacity(),
            forall|k: Seq<char>| #[trigger] final(self).policy_for(k) == old(self).policy_for(k),
            result_matches(
                r,
                db_verdict(
                    old(self).policy_for(plugin_id@),
                    plugin_id@,
                    sql@,
                    table_arg_view(explicit_table),
                    write,
                ),
            ),
            old(self).audited_by(
                *final(self),
                plugin_id@,
                PluginSecurityAction::DbQuery,
                db_verdict(
                    old(self).policy_for(plugin_id@),
                    plugin_id@,
                    sql@,
                    table_arg_view(explicit_table),
                    write,
                ),
            ),
    {
        let ghost v = db_verdict(
            self.policy_for(plugin_id@),
            plugin_id@,
            sql@,
            table_arg_view(explicit_table),
            write,
        );
        let decision = decide_db(self.policy_ref(plugin_id), plugin_id, sql, explicit_table, write);
        self.conclude(plugin_id, PluginSecurityAction::DbQuery, decision, Ghost(v))
    }

    fn check_fs_path(
        &mut self,
        plugin_id: &str,
        action: PluginSecurityAction,
        path: &str,
        cwd: Result<&str, &str>,
    ) -> (r: Result<String, PluginSecurityError>)
        requires
            old(self).wf(),
        ensures
            final(self).wf(),
            final(self).capacity() == old(self).capacity(),
            forall|k: Seq<char>| #[trigger] final(self).policy_for(k) == old(self).policy_for(k),
            result_matches(
                r,
                fs_verdict(old(self).policy_for(plugin_id@), plugin_id@, action, path@, cwd_view(cwd)),
            ),
            old(self).audited_by(
                *final(self),
                plugin_id@,
                action,
                fs_verdict(old(self).policy_for(plugin_id@), plugin_id@, action, path@, cwd_view(cwd)),
            ),
    {
        let ghost v = fs_verdict(self.policy_for(plugin_id@), plugin_id@, action, path@, cwd_view(cwd));
        let decision = decide_fs(self.policy_ref(plugin_id), plugin_id, action, path, cwd);
        self.conclude(plugin_id, action, decision, Ghost(v))
    }

    /// Decides a read of `path` by `plugin_id`; relative paths are taken
    /// relative to `cwd`, the working directory (or the error reading it gave).
    /// On success the normalized path is returned. The decision is audited.
    pub fn check_fs_read(&mut self, plugin_id: &str, path: &str, cwd: Result<&str, &str>) -> (r:
        Result<String, PluginSecurityError>)
        requires
            old(self).wf(),
        ensures
            final(self).wf(),
            final(self).capacity() == old(self).capacity(),
            forall|k: Seq<char>| #[trigger] final(self).policy_for(k) == old(self).policy_for(k),
            result_matches(
                r,
                fs_verdict(
                    old(self).policy_for(plugin_id@),
                    plugin_id@,
                    PluginSecurityAction::FsRead,
                    path@,
                    cwd_view(cwd),
                ),
            ),
            old(self).audited_by(
                *final(self),
                plugin_id@,
                PluginSecurityAction::FsRead,
                fs_verdict(
                    old(self).policy_for(plugin_id@),
                    plugin_id@,
                    PluginSecurityAction::FsRead,
                    path@,
                    cwd_view(cwd),
                ),
            ),
    {
        self.check_fs_path(plugin_id, PluginSecurityAction::FsRead, path, cwd)
    }

    /// Decides a write of `path` by `plugin_id`, as `check_fs_read` does for reads.
    pub fn check_fs_write(&mut self, plugin_id: &str, path: &str, cwd: Result<&str, &str>) -> (r:
        Result<String, PluginSecurityError>)
        requires
            old(self).wf(),
        ensures
            final(self).wf(),
            final(self).capacity() == old(self).capacity(),
            forall|k: Seq<char>| #[trigger] final(self).policy_for(k) == old(self).policy_for(k),
            result_matches(
                r,
                fs_verdict(
                    old(self).policy_for(plugin_id@),
                    plugin_id@,
                    PluginSecurityAction::FsWrite,
                    path@,
                    cwd_view(cwd),
                ),
            ),
            old(self).audited_by(
                *final(self),
                plugin_id@,
                PluginSecurityAction::FsWrite,
                fs_verdict(
                    old(self).policy_for(plugin_id@),
                    plugin_id@,
                    PluginSecurityAction::FsWrite,
                    path@,
                    cwd_view(cwd),
                ),
            ),
    {
        self.check_fs_path(plugin_id, PluginSecurityAction::FsWrite, path, cwd)
    }
}


// ---------------------------------------------------------------------------
// Laws
// ---------------------------------------------------------------------------
/// A plugin without a registered policy is never granted anything: every HTTP,
/// database and file-system check on it is refused.
pub proof fn law_missing_policy_never_allows(
    plugin_id: Seq<char>,
    method: Seq<char>,
    url: Seq<char>,
    parsed: Result<Option<Seq<char>>, Seq<char>>,
    sql: Seq<char>,
    explicit_table: Option<Seq<char>>,
    write: bool,
    action: PluginSecurityAction,
    path: Seq<char>,
    cwd: Result<Seq<char>, Seq<char>>,
)
    ensures
        !(http_verdict(None, plugin_id, method, url, parsed) is Allow),
        !(db_verdict(None, plugin_id, sql, explicit_table, write) is Allow),
        !(fs_verdict(None, plugin_id, action, path, cwd) is Allow),
{
}

/// An allowed HTTP request comes from a plugin whose policy declares network
/// access, and its host is admitted by that policy's domain allowlist.
pub proof fn law_http_allow_requires_allowlisted_host(
    policy: Option<PluginSecurityPolicy>,
    plugin_id: Seq<char>,
    method: Seq<char>,
    url: Seq<char>,
    parsed: Result<Option<Seq<char>>, Seq<char>>,
)
    ensures
        http_verdict(policy, plugin_id, method, url, parsed) matches Verdict::Allow(host) ==> {
            &&& policy matches Some(p)
            &&& p.allow_network
            &&& domain_admitted(host, views(p.allowed_domains@))
            &&& parsed matches Ok(Some(h)) && host == ascii_lower_seq(h)
        },
{
}

/// An allowed database statement either reads with `database_read` declared,
/// or writes to a table that the write allowlist grants.
pub proof fn law_db_allow_requires_grant(
    policy: Option<PluginSecurityPolicy>,
    plugin_id: Seq<char>,
    sql: Seq<char>,
    explicit_table: Option<Seq<char>>,
    write: bool,
)
    ensures
        db_verdict(policy, plugin_id, sql, explicit_table, write) matches Verdict::Allow(table) ==> {
            &&& policy matches Some(p)
            &&& if write || sql_operation_of(trim_seq(sql)) == Some(SqlOperation::Write) {
                write_granted(views(p.database_write_tables@), table)
            } else {
                p.database_read
            }
        },
{
}

/// An allowed file-system access names a path under one of the roots that the
/// policy grants for that kind of access.
pub proof fn law_fs_allow_requires_granted_root(
    policy: Option<PluginSecurityPolicy>,
    plugin_id: Seq<char>,
    action: PluginSecurityAction,
    path: Seq<char>,
    cwd: Result<Seq<char>, Seq<char>>,
)
    ensures
        fs_verdict(policy, plugin_id, action, path, cwd) is Allow ==> {
            &&& policy matches Some(p)
            &&& normalized_path(path, cwd) matches Ok(target)
            &&& path_granted(target, allowlist_of(p, action), cwd)
        },
{
}

/// The audit log never holds more records than the gateway's capacity, and
/// appending to a log within capacity keeps it within capacity, with the new
/// record last.
pub proof fn law_audit_log_bounded(
    gateway: PluginSecurityGateway,
    log: Seq<PluginAuditRecord>,
    record: PluginAuditRecord,
    cap: nat,
)
    requires
        gateway.wf(),
    ensures
        gateway.audit_log().len() <= gateway.capacity(),
        gateway.capacity() >= 1,
        log.len() <= cap && cap >= 1 ==> bounded_push(log, record, cap).len() <= cap
            && bounded_push(log, record, cap).last() == record,
{
}

proof fn lemma_bounded_push_all<T>(q: Seq<T>, xs: Seq<T>, cap: nat)
    requires
        q.len() <= cap,
        cap >= 1,
    ensures
        bounded_push_all(q, xs, cap) == most_recent(q + xs, cap),
    decreases xs.len(),
{
    if xs.len() > 0 {
        let ys = xs.drop_last();
        lemma_bounded_push_all(q, ys, cap);
        let qy = q + ys;
        let qx = q + xs;
        let before = most_recent(qy, cap);
        assert(qy.push(xs.last()) =~= qx);
        if qy.len() >= cap {
            let n = qy.len();
            assert(before =~= qy.skip(n - cap));
            let after = before.drop_first().push(xs.last());
            assert forall|i: int| 0 <= i < cap implies #[trigger] after[i] == qx.skip(
                qx.len() - cap,
            )[i] by {
                if i < cap - 1 {
                    assert(after[i] == before[i + 1]);
                    assert(before[i + 1] == qy[n - cap + i + 1]);
                } else {
                    assert(after[i] == xs.last());
                }
            }
            assert(after =~= qx.skip(qx.len() - cap));
        }
    } else {
        assert(q + xs =~= q);
    }
}

proof fn lemma_most_recent_push(h: Seq<PluginAuditRecord>, x: PluginAuditRecord, cap: nat)
    requires
        cap >= 1,
    ensures
        most_recent(h.push(x), cap) == bounded_push(most_recent(h, cap), x, cap),
{
    law_audit_log_keeps_most_recent(h, cap);
    law_audit_log_keeps_most_recent(h.push(x), cap);
    assert(h.push(x).drop_last() =~= h);
    assert(h.push(x).last() == x);
}

/// The log of a gateway holds the most recent `capacity` records of all it
/// has audited since it was made, in the order the decisions were made.
pub proof fn law_gateway_log_is_most_recent(g: PluginSecurityGateway)
    requires
        g.wf(),
    ensures
        g.audit_log() == most_recent(g.audit_history(), g.capacity()),
        g.audit_log().len() <= g.capacity(),
        g.audit_history().len() >= g.capacity() ==> g.audit_log().len() == g.capacity(),
{
}

/// Over any run of audited decisions, the log of a gateway that was created
/// empty holds the most recent `cap` records in the order the decisions were
/// made: while it is full, each new record evicts exactly the oldest one.
pub proof fn law_audit_log_keeps_most_recent(records: Seq<PluginAuditRecord>, cap: nat)
    requires
        cap >= 1,
    ensures
        bounded_push_all(Seq::empty(), records, cap) == most_recent(records, cap),
        bounded_push_all(Seq::empty(), records, cap).len() <= cap,
        records.len() >= cap ==> bounded_push_all(Seq::empty(), records, cap).len() == cap,
{
    lemma_bounded_push_all(Seq::<PluginAuditRecord>::empty(), records, cap);
    assert(Seq::<PluginAuditRecord>::empty() + records =~= records);
}

/// One check extends the run of audited records: an allow or a deny adds its
/// record after the others, a reject adds none.
pub proof fn law_audited_extends_run(
    records: Seq<PluginAuditRecord>,
    before: Seq<PluginAuditRecord>,
    after: Seq<PluginAuditRecord>,
    cap: nat,
    plugin_id: Seq<char>,
    action: PluginSecurityAction,
    v: Verdict,
)
    requires
        before == bounded_push_all(Seq::empty(), records, cap),
        audited(before, after, cap, plugin_id, action, v),
    ensures
        v is Reject ==> after == bounded_push_all(Seq::empty(), records, cap),
        !(v is Reject) ==> after == bounded_push_all(Seq::empty(), records.push(after.last()), cap),
{
    if !(v is Reject) {
        assert(records.push(after.last()).drop_last() =~= records);
    }
}

} // verus!
