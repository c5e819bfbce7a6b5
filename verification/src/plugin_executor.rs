//! Plugin execution rules: the errors an execution can end with, and the
//! per-plugin cooldown between executions.
use crate::clock::{elapsed_ns, instant_now};
use crate::keyed::KeyedTable;
use crate::text::{decimal, owned, push_decimal};
use vstd::prelude::*;

verus! {

#[derive(Debug)]
pub enum PluginExecutionError {
    Timeout { timeout_ms: u64 },
    Panicked,
    JoinFailed(String),
    PluginReturned(String),
    Cooldown { remaining_secs: u32 },
    HostApi(String),
    NotImplemented(&'static str),
}

pub open spec fn execution_error_text(e: PluginExecutionError) -> Seq<char> {
    match e {
        PluginExecutionError::Timeout { timeout_ms } => "插件执行超时（"@ + decimal(timeout_ms as nat) + "ms）"@,
        PluginExecutionError::Panicked => "插件内部崩溃"@,
        PluginExecutionError::JoinFailed(m) => "插件任务失败: "@ + m@,
        PluginExecutionError::PluginReturned(m) => "插件返回错误: "@ + m@,
        PluginExecutionError::Cooldown { remaining_secs } => "插件冷却中，"@ + decimal(remaining_secs as nat)
            + "秒后可再次执行"@,
        PluginExecutionError::HostApi(m) => "Host API 错误: "@ + m@,
        PluginExecutionError::NotImplemented(m) => "执行器功能尚未实现: "@ + m@,
    }
}

impl PluginExecutionError {
    /// The error's message.
    pub fn message(&self) -> (r: String)
        ensures
            r@ == execution_error_text(*self),
    {
        match self {
            PluginExecutionError::Timeout { timeout_ms } => {
                let mut s = String::from_str("插件执行超时（");
                push_decimal(&mut s, *timeout_ms);
                s.append("ms）");
                s
            },
            PluginExecutionError::Panicked => String::from_str("插件内部崩溃"),
            PluginExecutionError::JoinFailed(m) => {
                let mut s = String::from_str("插件任务失败: ");
                s.append(m.as_str());
                s
            },
            PluginExecutionError::PluginReturned(m) => {
                let mut s = String::from_str("插件返回错误: ");
                s.append(m.as_str());
                s
            },
            PluginExecutionError::Cooldown { remaining_secs } => {
                let mut s = String::from_str("插件冷却中，");
                push_decimal(&mut s, *remaining_secs as u64);
                s.append("秒后可再次执行");
                s
            },
            PluginExecutionError::HostApi(m) => {
                let mut s = String::from_str("Host API 错误: ");
                s.append(m.as_str());
                s
            },
            PluginExecutionError::NotImplemented(m) => {
                let mut s = String::from_str("执行器功能尚未实现: ");
                s.append(m);
                s
            },
        }
    }
}

/// Nanoseconds per second.
pub const NANOS_PER_SEC: u64 = 1_000_000_000;

/// Whole seconds from `t` to `now` (nanosecond readings of a monotonic
/// clock), the fraction dropped as `Duration::as_secs` drops it; a clock that
/// went backwards counts as no time.
pub open spec fn elapsed_secs(t: u64, now: u64) -> u64 {
    (if now >= t {
        now - t
    } else {
        0
    }) as u64 / NANOS_PER_SEC
}

/// The answer to an execution request of a plugin whose last execution
/// started at `last`, at time `now` (nanoseconds of a monotonic clock):
/// refused with the whole seconds left while fewer than `cooldown_secs` whole
/// seconds have passed.
pub open spec fn cooldown_verdict(last: Option<u64>, cooldown_secs: u32, now: u64) -> Option<u32> {
    if cooldown_secs == 0 {
        None
    } else {
        match last {
            Some(t) => if elapsed_secs(t, now) < cooldown_secs {
                Some((cooldown_secs - elapsed_secs(t, now)) as u32)
            } else {
                None
            },
            None => None,
        }
    }
}

/// When `plugin_id` last started an execution, if it did.
pub open spec fn last_of(last: Map<Seq<char>, u64>, plugin_id: Seq<char>) -> Option<u64> {
    if last.dom().contains(plugin_id) {
        Some(last[plugin_id])
    } else {
        None
    }
}

/// The last executions after a request of `plugin_id` at `now`: unchanged when
/// it is refused or its cooldown is zero, else `now` is its last execution.
pub open spec fn cooldown_after(
    last: Map<Seq<char>, u64>,
    plugin_id: Seq<char>,
    cooldown_secs: u32,
    now: u64,
) -> Map<Seq<char>, u64> {
    if cooldown_secs == 0 || cooldown_verdict(last_of(last, plugin_id), cooldown_secs, now) is Some {
        last
    } else {
        last.insert(plugin_id, now)
    }
}

/// When each plugin last started an execution that was subject to a cooldown,
/// in nanoseconds of the monotonic clock since the tracker was made.
pub struct CooldownTracker {
    last_execution: KeyedTable<u64>,
    origin: std::time::Instant,
}

impl CooldownTracker {
    pub closed spec fn last_execution(&self) -> Map<Seq<char>, u64> {
        self.last_execution.view()
    }

    pub closed spec fn wf(&self) -> bool {
        self.last_execution.wf()
    }

    pub fn new() -> (r: Self)
        ensures
            r.wf(),
            r.last_execution() == Map::<Seq<char>, u64>::empty(),
    {
        CooldownTracker { last_execution: KeyedTable::new(), origin: instant_now() }
    }

    /// Whether `plugin_id` may run at `now` (nanoseconds) given its cooldown:
    /// refused with the whole seconds left while the cooldown since its last
    /// execution lasts; otherwise allowed, and `now` becomes its last execution
    /// (a cooldown of zero neither refuses nor records).
    pub fn check_cooldown_at(&mut self, plugin_id: &str, cooldown_secs: u32, now: u64) -> (r: Result<
        (),
        PluginExecutionError,
    >)
        requires
            old(self).wf(),
        ensures
            final(self).wf(),
            final(self).last_execution() == cooldown_after(
                old(self).last_execution(),
                plugin_id@,
                cooldown_secs,
                now,
            ),
            match cooldown_verdict(last_of(old(self).last_execution(), plugin_id@), cooldown_secs, now) {
                Some(remaining) => r matches Err(PluginExecutionError::Cooldown { remaining_secs })
                    && remaining_secs == remaining,
                None => r is Ok,
            },
    {
        if cooldown_secs == 0 {
            return Ok(());
        }
        match self.last_execution.get(plugin_id) {
            Some(last) => {
                let elapsed = if now >= *last {
                    now - *last
                } else {
                    0
                } / NANOS_PER_SEC;
                if elapsed < cooldown_secs as u64 {
                    return Err(PluginExecutionError::Cooldown { remaining_secs: (cooldown_secs as u64 - elapsed) as u32 });
                }
            },
            None => {},
        }
        self.last_execution.insert(owned(plugin_id), now);
        Ok(())
    }

    /// Whether `plugin_id` may run now given its cooldown, as
    /// `check_cooldown_at` decides at the current reading of the monotonic clock.
    pub fn check_cooldown(&mut self, plugin_id: &str, cooldown_secs: u32) -> (r: Result<
        (),
        PluginExecutionError,
    >)
        requires
            old(self).wf(),
        ensures
            final(self).wf(),
            cooldown_secs == 0 ==> r is Ok && final(self).last_execution() == old(self).last_execution(),
            !old(self).last_execution().dom().contains(plugin_id@) ==> r is Ok,
            r matches Err(e) ==> (e matches PluginExecutionError::Cooldown { remaining_secs } && 0
                < remaining_secs <= cooldown_secs),
            exists|now: u64|
                {
                    &&& final(self).last_execution() == cooldown_after(
                        old(self).last_execution(),
                        plugin_id@,
                        cooldown_secs,
                        now,
                    )
                    &&& match cooldown_verdict(
                        last_of(old(self).last_execution(), plugin_id@),
                        cooldown_secs,
                        now,
                    ) {
                        Some(remaining) => r matches Err(PluginExecutionError::Cooldown { remaining_secs })
                            && remaining_secs == remaining,
                        None => r is Ok,
                    }
                },
    {
        let now = elapsed_ns(&self.origin);
        self.check_cooldown_at(plugin_id, cooldown_secs, now)
    }
}

/// Right after an allowed execution, the same plugin is refused for the whole
/// cooldown, with the whole seconds left counting down, and allowed again once
/// the cooldown has passed.
pub proof fn law_cooldown_counts_down(start: u64, cooldown_secs: u32, now: u64)
    requires
        cooldown_secs > 0,
        now >= start,
    ensures
        elapsed_secs(start, now) == (now - start) / (NANOS_PER_SEC as int),
        elapsed_secs(start, now) < cooldown_secs ==> cooldown_verdict(Some(start), cooldown_secs, now)
            == Some((cooldown_secs - elapsed_secs(start, now)) as u32),
        elapsed_secs(start, now) >= cooldown_secs ==> cooldown_verdict(Some(start), cooldown_secs, now) is None,
        cooldown_verdict(None, cooldown_secs, now) is None,
{
}

/// A cooldown of zero is always allowed and records nothing.
pub proof fn law_zero_cooldown_records_nothing(
    last: Map<Seq<char>, u64>,
    plugin_id: Seq<char>,
    now: u64,
)
    ensures
        cooldown_verdict(last_of(last, plugin_id), 0, now) is None,
        cooldown_after(last, plugin_id, 0, now) == last,
{
}

/// After an allowed request with a cooldown, a second request of the same
/// plugin within the cooldown is refused with the whole seconds left (all of
/// them when it comes less than a second later) and does not restart the
/// window; other plugins are not affected.
pub proof fn law_cooldown_window(
    last: Map<Seq<char>, u64>,
    plugin_id: Seq<char>,
    other: Seq<char>,
    cooldown_secs: u32,
    first: u64,
    second: u64,
)
    requires
        cooldown_secs > 0,
        cooldown_verdict(last_of(last, plugin_id), cooldown_secs, first) is None,
        first <= second,
        (second - first) / (NANOS_PER_SEC as int) < cooldown_secs,
        other != plugin_id,
    ensures
        ({
            let after = cooldown_after(last, plugin_id, cooldown_secs, first);
            &&& last_of(after, plugin_id) == Some(first)
            &&& cooldown_verdict(last_of(after, plugin_id), cooldown_secs, second) == Some(
                (cooldown_secs - (second - first) / (NANOS_PER_SEC as int)) as u32,
            )
            &&& (second - first < NANOS_PER_SEC ==> cooldown_verdict(
                last_of(after, plugin_id),
                cooldown_secs,
                second,
            ) == Some(cooldown_secs))
            &&& cooldown_after(after, plugin_id, cooldown_secs, second) == after
            &&& last_of(after, other) == last_of(last, other)
            &&& cooldown_verdict(last_of(after, other), cooldown_secs, second) == cooldown_verdict(
                last_of(last, other),
                cooldown_secs,
                second,
            )
        }),
{
    let after = cooldown_after(last, plugin_id, cooldown_secs, first);
    assert(after == last.insert(plugin_id, first));
    assert(after.dom().contains(other) == last.dom().contains(other));
    if second - first < NANOS_PER_SEC {
        assert((second - first) as u64 / NANOS_PER_SEC == 0);
    }
}

} // verus!
