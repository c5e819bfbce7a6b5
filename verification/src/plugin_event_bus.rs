//! The plugin event bus: plugins subscribe to an event type (or to every
//! type) with payload filters, and a published event goes to the matching
//! subscriptions of its type, then to those of every type. The handlers
//! themselves are run by the caller, per subscription id.
use crate::json::{json_eq, json_equal, json_get, JsonValue};
use crate::plugin_security::now_millis;
use crate::text::{decimal, push_decimal, str_eq};
use vstd::prelude::*;

verus! {

pub type SubscriptionId = u64;

#[derive(Debug)]
pub enum EventType {
    Any,
    ArchiveImported,
    ArchiveUpdated,
    ArchiveDeleted,
    MetadataRequested,
    ScriptTriggered,
    Custom(String),
}

/// The same event type (custom types by their name).
pub open spec fn same_type(a: EventType, b: EventType) -> bool {
    match (a, b) {
        (EventType::Any, EventType::Any) => true,
        (EventType::ArchiveImported, EventType::ArchiveImported) => true,
        (EventType::ArchiveUpdated, EventType::ArchiveUpdated) => true,
        (EventType::ArchiveDeleted, EventType::ArchiveDeleted) => true,
        (EventType::MetadataRequested, EventType::MetadataRequested) => true,
        (EventType::ScriptTriggered, EventType::ScriptTriggered) => true,
        (EventType::Custom(x), EventType::Custom(y)) => x@ == y@,
        _ => false,
    }
}

impl EventType {
    pub fn same_as(&self, other: &EventType) -> (r: bool)
        ensures
            r == same_type(*self, *other),
    {
        match (self, other) {
            (EventType::Any, EventType::Any) => true,
            (EventType::ArchiveImported, EventType::ArchiveImported) => true,
            (EventType::ArchiveUpdated, EventType::ArchiveUpdated) => true,
            (EventType::ArchiveDeleted, EventType::ArchiveDeleted) => true,
            (EventType::MetadataRequested, EventType::MetadataRequested) => true,
            (EventType::ScriptTriggered, EventType::ScriptTriggered) => true,
            (EventType::Custom(x), EventType::Custom(y)) => str_eq(x.as_str(), y.as_str()),
            _ => false,
        }
    }
}

/// An event. `emitted_at_ms` is the wall-clock time in milliseconds since the
/// Unix epoch.
#[derive(Debug)]
pub struct PluginEvent {
    pub event_type: EventType,
    pub source_plugin_id: Option<String>,
    pub payload: JsonValue,
    pub emitted_at_ms: i64,
}

impl PluginEvent {
    /// An event of no plugin, emitted now.
    pub fn new(event_type: EventType, payload: JsonValue) -> (r: Self)
        ensures
            r.event_type == event_type,
            r.payload == payload,
            r.source_plugin_id is None,
    {
        PluginEvent { event_type, source_plugin_id: None, payload, emitted_at_ms: now_millis() }
    }
}

/// Payload members that an event must carry, with their exact values.
#[derive(Debug)]
pub struct EventFilterSet {
    pub equals: Vec<(String, JsonValue)>,
}

/// An event passes the filters when there are none, or when its payload is an
/// object that carries every filtered member with an equal value.
pub open spec fn filters_pass(filters: Seq<(String, JsonValue)>, payload: JsonValue) -> bool {
    filters.len() == 0 || (payload is Object && forall|i: int|
        0 <= i < filters.len() ==> match #[trigger] json_get(payload, filters[i].0@) {
            Some(v) => json_eq(v, filters[i].1),
            None => false,
        })
}

impl EventFilterSet {
    pub fn none() -> (r: Self)
        ensures
            r.equals@.len() == 0,
    {
        EventFilterSet { equals: Vec::new() }
    }

    pub fn matches(&self, event: &PluginEvent) -> (r: bool)
        ensures
            r == filters_pass(self.equals@, event.payload),
    {
        if self.equals.len() == 0 {
            return true;
        }
        if !event.payload.is_object() {
            return false;
        }
        let mut i: usize = 0;
        while i < self.equals.len()
            invariant
                i <= self.equals@.len(),
                event.payload is Object,
                forall|k: int| 0 <= k < i ==> match #[trigger] json_get(event.payload, self.equals@[k].0@) {
                    Some(v) => json_eq(v, self.equals@[k].1),
                    None => false,
                },
            decreases self.equals@.len() - i,
        {
            match event.payload.get(self.equals[i].0.as_str()) {
                Some(v) => {
                    if !json_equal(v, &self.equals[i].1) {
                        return false;
                    }
                },
                None => {
                    return false;
                },
            }
            i = i + 1;
        }
        true
    }
}

/// A subscription of a plugin.
#[derive(Debug)]
pub struct SubscriberEntry {
    pub id: SubscriptionId,
    pub plugin_id: String,
    pub event_type: EventType,
    pub filters: EventFilterSet,
}

#[derive(Debug, Clone, Copy, PartialEq, Eq, Structural)]
pub enum PluginEventBusError {
    SubscriptionNotFound(SubscriptionId),
}

impl PluginEventBusError {
    pub fn message(&self) -> (r: String)
        ensures
            r@ == match self {
                PluginEventBusError::SubscriptionNotFound(id) => "订阅不存在: "@ + decimal(*id as nat),
            },
    {
        match self {
            PluginEventBusError::SubscriptionNotFound(id) => {
                let mut s = String::from_str("订阅不存在: ");
                push_decimal(&mut s, *id);
                s
            },
        }
    }
}

/// The ids of the subscriptions to `ty` whose filters the payload passes, in
/// subscription order.
pub open spec fn matching_ids(subs: Seq<SubscriberEntry>, ty: EventType, payload: JsonValue) -> Seq<SubscriptionId>
    decreases subs.len(),
{
    if subs.len() == 0 {
        Seq::empty()
    } else {
        let rest = matching_ids(subs.drop_last(), ty, payload);
        let s = subs.last();
        if same_type(s.event_type, ty) && filters_pass(s.filters.equals@, payload) {
            rest.push(s.id)
        } else {
            rest
        }
    }
}

/// The subscriptions of other plugins than `plugin_id`, in order.
pub open spec fn without_plugin(subs: Seq<SubscriberEntry>, plugin_id: Seq<char>) -> Seq<SubscriberEntry>
    decreases subs.len(),
{
    if subs.len() == 0 {
        Seq::empty()
    } else {
        let rest = without_plugin(subs.drop_last(), plugin_id);
        if subs.last().plugin_id@ == plugin_id {
            rest
        } else {
            rest.push(subs.last())
        }
    }
}

pub struct PluginEventBus {
    next_subscription_id: SubscriptionId,
    subscribers: Vec<SubscriberEntry>,
}

impl PluginEventBus {
    /// The subscriptions, in the order they were made.
    pub closed spec fn subscriptions(&self) -> Seq<SubscriberEntry> {
        self.subscribers@
    }

    /// The id the next subscription gets.
    pub closed spec fn next_id(&self) -> SubscriptionId {
        self.next_subscription_id
    }

    pub fn new() -> (r: Self)
        ensures
            r.subscriptions().len() == 0,
            r.next_id() == 1,
    {
        PluginEventBus { next_subscription_id: 1, subscribers: Vec::new() }
    }

    /// Subscribes `plugin_id` to `event_type` with `filters`; ids are handed
    /// out in increasing order.
    pub fn subscribe(&mut self, plugin_id: String, event_type: EventType, filters: EventFilterSet) -> (r:
        SubscriptionId)
        ensures
            r == old(self).next_id(),
            final(self).next_id() == vstd::wrapping::u64_specs::wrapping_add(old(self).next_id(), 1),
            final(self).subscriptions() == old(self).subscriptions().push(
                SubscriberEntry { id: r, plugin_id, event_type, filters },
            ),
    {
        let id = self.next_subscription_id;
        self.next_subscription_id = self.next_subscription_id.wrapping_add(1);
        self.subscribers.push(SubscriberEntry { id, plugin_id, event_type, filters });
        id
    }

    /// Removes the subscription `subscription_id`.
    pub fn unsubscribe(&mut self, subscription_id: SubscriptionId) -> (r: Result<(), PluginEventBusError>)
        ensures
            final(self).next_id() == old(self).next_id(),
            match r {
                Ok(()) => exists|i: int|
                    0 <= i < old(self).subscriptions().len() && (#[trigger] old(self).subscriptions()[i]).id
                        == subscription_id && (forall|k: int| 0 <= k < i ==> (#[trigger] old(self).subscriptions()[k]).id
                        != subscription_id) && final(self).subscriptions() == old(self).subscriptions().remove(i),
                Err(e) => e == PluginEventBusError::SubscriptionNotFound(subscription_id) && final(self).subscriptions()
                    == old(self).subscriptions() && forall|k: int|
                    0 <= k < old(self).subscriptions().len() ==> (#[trigger] old(self).subscriptions()[k]).id
                        != subscription_id,
            },
    {
        let mut i: usize = 0;
        while i < self.subscribers.len()
            invariant
                i <= self.subscribers@.len(),
                self.subscribers@ == old(self).subscribers@,
                self.next_subscription_id == old(self).next_subscription_id,
                forall|k: int| 0 <= k < i ==> (#[trigger] self.subscribers@[k]).id != subscription_id,
            decreases self.subscribers@.len() - i,
        {
            if self.subscribers[i].id == subscription_id {
                self.subscribers.remove(i);
                return Ok(());
            }
            i = i + 1;
        }
        Err(PluginEventBusError::SubscriptionNotFound(subscription_id))
    }

    /// Removes every subscription of `plugin_id`; returns how many there were.
    pub fn unsubscribe_plugin(&mut self, plugin_id: &str) -> (r: usize)
        ensures
            final(self).next_id() == old(self).next_id(),
            final(self).subscriptions() == without_plugin(old(self).subscriptions(), plugin_id@),
            r == old(self).subscriptions().len() - final(self).subscriptions().len(),
    {
        let ghost before = self.subscribers@;
        let n = self.subscribers.len();
        let mut kept: Vec<SubscriberEntry> = Vec::new();
        let mut removed: usize = 0;
        while self.subscribers.len() > 0
            invariant
                before.len() == n,
                self.next_subscription_id == old(self).next_subscription_id,
                self.subscribers@.len() + kept@.len() + removed == before.len(),
                without_plugin(before, plugin_id@) == without_plugin(self.subscribers@, plugin_id@) + kept@,
            decreases self.subscribers@.len(),
        {
            let ghost cur = self.subscribers@;
            let entry = self.subscribers.pop().unwrap();
            assert(cur.drop_last() == self.subscribers@);
            if str_eq(entry.plugin_id.as_str(), plugin_id) {
                removed = removed + 1;
            } else {
                let ghost k0 = kept@;
                kept.insert(0, entry);
                assert(kept@ =~= seq![entry] + k0);
                assert(without_plugin(cur, plugin_id@) + k0 =~= without_plugin(self.subscribers@, plugin_id@) + kept@);
            }
        }
        assert(without_plugin(self.subscribers@, plugin_id@) =~= Seq::<SubscriberEntry>::empty());
        assert(without_plugin(before, plugin_id@) =~= kept@);
        self.subscribers = kept;
        removed
    }

    /// The subscriptions an event goes to: those of its type whose filters it
    /// passes, in subscription order, then those of every type (listed twice
    /// when the event itself is of every type). `publish` runs one handler per
    /// id, so their number is what it reports.
    pub fn publish_targets(&self, event: &PluginEvent) -> (r: Vec<SubscriptionId>)
        ensures
            r@ == matching_ids(self.subscriptions(), event.event_type, event.payload) + matching_ids(
                self.subscriptions(),
                EventType::Any,
                event.payload,
            ),
    {
        let mut out: Vec<SubscriptionId> = Vec::new();
        let any = EventType::Any;
        let mut pass: usize = 0;
        while pass < 2
            invariant
                pass <= 2,
                any == EventType::Any,
                pass == 0 ==> out@.len() == 0,
                pass == 1 ==> out@ == matching_ids(self.subscribers@, event.event_type, event.payload),
                pass == 2 ==> out@ == matching_ids(self.subscribers@, event.event_type, event.payload)
                    + matching_ids(self.subscribers@, EventType::Any, event.payload),
            decreases 2 - pass,
        {
            let ty = if pass == 0 {
                &event.event_type
            } else {
                &any
            };
            let ghost start = out@;
            let mut i: usize = 0;
            while i < self.subscribers.len()
                invariant
                    i <= self.subscribers@.len(),
                    out@ == start + matching_ids(self.subscribers@.take(i as int), *ty, event.payload),
                decreases self.subscribers@.len() - i,
            {
                assert(self.subscribers@.take(i + 1).drop_last() =~= self.subscribers@.take(i as int));
                assert(self.subscribers@.take(i + 1).last() == self.subscribers@[i as int]);
                let s = &self.subscribers[i];
                if s.event_type.same_as(ty) && s.filters.matches(event) {
                    out.push(s.id);
                }
                i = i + 1;
                assert(out@ =~= start + matching_ids(self.subscribers@.take(i as int), *ty, event.payload));
            }
            assert(self.subscribers@.take(self.subscribers@.len() as int) =~= self.subscribers@);
            pass = pass + 1;
        }
        out
    }
}

/// A subscription to every event type receives every event that passes its
/// filters, whatever the event's type.
pub proof fn law_any_subscription_sees_all_types(subs: Seq<SubscriberEntry>, ty: EventType, payload: JsonValue, k: int)
    requires
        0 <= k < subs.len(),
        subs[k].event_type is Any,
        filters_pass(subs[k].filters.equals@, payload),
    ensures
        matching_ids(subs, EventType::Any, payload).contains(subs[k].id),
    decreases subs.len(),
{
    let init = subs.drop_last();
    if k < subs.len() - 1 {
        assert(init[k] == subs[k]);
        law_any_subscription_sees_all_types(init, ty, payload, k);
        let rest = matching_ids(init, EventType::Any, payload);
        let w = choose|w: int| 0 <= w < rest.len() && rest[w] == subs[k].id;
        if same_type(subs.last().event_type, EventType::Any) && filters_pass(subs.last().filters.equals@, payload) {
            assert(rest.push(subs.last().id)[w] == subs[k].id);
        }
    } else {
        assert(subs.last() == subs[k]);
        let rest = matching_ids(init, EventType::Any, payload);
        assert(rest.push(subs[k].id)[rest.len() as int] == subs[k].id);
    }
}

/// With no filters, every event passes.
pub proof fn law_empty_filters_pass(payload: JsonValue)
    ensures
        filters_pass(Seq::<(String, JsonValue)>::empty(), payload),
{
}

} // verus!
