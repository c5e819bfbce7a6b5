use otamoryx::json::{JsonNumber, JsonValue};
use otamoryx::plugin_event_bus::{
    EventFilterSet, EventType, PluginEvent, PluginEventBus, PluginEventBusError,
};

fn payload(entries: Vec<(&str, JsonValue)>) -> JsonValue {
    JsonValue::Object(entries.into_iter().map(|(k, v)| (k.to_string(), v)).collect())
}

fn filters(entries: Vec<(&str, JsonValue)>) -> EventFilterSet {
    EventFilterSet {
        equals: entries.into_iter().map(|(k, v)| (k.to_string(), v)).collect(),
    }
}

#[test]
fn events_reach_matching_subscriptions_of_their_type_then_of_any_type() {
    let mut bus = PluginEventBus::new();
    let imported = bus.subscribe("a".to_string(), EventType::ArchiveImported, EventFilterSet::none());
    let any = bus.subscribe("b".to_string(), EventType::Any, EventFilterSet::none());
    let filtered = bus.subscribe(
        "c".to_string(),
        EventType::ArchiveImported,
        filters(vec![("format", JsonValue::String("cbz".to_string()))]),
    );
    let _other = bus.subscribe("d".to_string(), EventType::ArchiveDeleted, EventFilterSet::none());
    assert_eq!((imported, any, filtered), (1, 2, 3));

    let cbz = PluginEvent::new(
        EventType::ArchiveImported,
        payload(vec![("format", JsonValue::String("cbz".to_string()))]),
    );
    assert_eq!(bus.publish_targets(&cbz), vec![1, 3, 2]);

    let zip = PluginEvent::new(
        EventType::ArchiveImported,
        payload(vec![("format", JsonValue::String("zip".to_string()))]),
    );
    assert_eq!(bus.publish_targets(&zip), vec![1, 2]);

    let not_object = PluginEvent::new(EventType::ArchiveImported, JsonValue::Null);
    assert_eq!(bus.publish_targets(&not_object), vec![1, 2]);

    let custom = PluginEvent::new(EventType::Custom("x".to_string()), JsonValue::Null);
    assert_eq!(bus.publish_targets(&custom), vec![2]);
}

#[test]
fn filters_compare_nested_values() {
    let expected = JsonValue::Array(vec![
        JsonValue::Number(JsonNumber::PosInt(1)),
        payload(vec![("k", JsonValue::Bool(true))]),
    ]);
    let set = filters(vec![("tags", expected)]);
    let same = PluginEvent::new(
        EventType::Any,
        payload(vec![(
            "tags",
            JsonValue::Array(vec![
                JsonValue::Number(JsonNumber::PosInt(1)),
                payload(vec![("k", JsonValue::Bool(true))]),
            ]),
        )]),
    );
    assert!(set.matches(&same));
    let different = PluginEvent::new(
        EventType::Any,
        payload(vec![(
            "tags",
            JsonValue::Array(vec![
                JsonValue::Number(JsonNumber::PosInt(1)),
                payload(vec![("k", JsonValue::Bool(false))]),
            ]),
        )]),
    );
    assert!(!set.matches(&different));
}

#[test]
fn unsubscribing_removes_subscriptions() {
    let mut bus = PluginEventBus::new();
    let first = bus.subscribe("a".to_string(), EventType::Any, EventFilterSet::none());
    bus.subscribe("b".to_string(), EventType::Any, EventFilterSet::none());
    bus.subscribe("a".to_string(), EventType::ScriptTriggered, EventFilterSet::none());
    assert_eq!(bus.unsubscribe(first), Ok(()));
    assert_eq!(
        bus.unsubscribe(first),
        Err(PluginEventBusError::SubscriptionNotFound(first))
    );
    assert_eq!(
        PluginEventBusError::SubscriptionNotFound(42).message(),
        "订阅不存在: 42"
    );
    assert_eq!(bus.unsubscribe_plugin("a"), 1);
    assert_eq!(bus.unsubscribe_plugin("a"), 0);
    let event = PluginEvent::new(EventType::ScriptTriggered, JsonValue::Null);
    assert_eq!(bus.publish_targets(&event), vec![2]);
}
