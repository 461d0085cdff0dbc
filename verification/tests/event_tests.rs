use flat_router::events::{undelegated, Custom, EventDescriptor};

#[test]
fn custom_event_carries_its_name() {
    let ev = Custom::new(String::from("my-event"));
    assert_eq!(ev.name(), "my-event");
}

#[test]
fn custom_event_delegation_key_is_prefixed() {
    let ev = Custom::new(String::from("my-event"));
    assert_eq!(ev.event_delegation_key(), "$$$my-event");
}

#[test]
fn custom_events_never_bubble() {
    let ev = Custom::new(String::from("my-event"));
    assert!(!ev.bubbles());
}

#[test]
fn undelegated_wrapper_forces_no_bubbling_but_keeps_identity() {
    let ev = undelegated(Custom::new(String::from("thing")));
    assert_eq!(ev.name(), "thing");
    assert_eq!(ev.event_delegation_key(), "$$$thing");
    assert!(!ev.bubbles());
}
