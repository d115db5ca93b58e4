use session_tracker::device_tagger::tag_device_advertisement;
use session_tracker::tags::{Tag, TagParameter, TagValue};

fn tag(name: &str, param: &str, value: TagValue) -> Tag {
    Tag {
        name: String::from(name),
        parameters: vec![TagParameter { name: String::from(param), value }],
    }
}

#[test]
fn unrecognized_advertisement_yields_nothing() {
    assert!(tag_device_advertisement(Vec::new()).is_none());
}

#[test]
fn single_verdict_is_kept() {
    let tags = tag_device_advertisement(vec![tag(
        "apple_findmy",
        "status",
        TagValue::Byte(16),
    )])
    .unwrap();
    assert_eq!(tags.len(), 1);
    assert_eq!(tags[0].name, "apple_findmy");
    assert_eq!(tags[0].parameters[0].name, "status");
    assert_eq!(tags[0].parameters[0].value, TagValue::Byte(16));
}

#[test]
fn distinct_verdicts_are_kept_in_order() {
    let tags = tag_device_advertisement(vec![
        tag("apple_findmy", "status", TagValue::Byte(16)),
        tag("meshtastic_node", "long_name", TagValue::Text(String::from("base-1"))),
    ])
    .unwrap();
    assert_eq!(tags.len(), 2);
    assert_eq!(tags[0].name, "apple_findmy");
    assert_eq!(tags[1].name, "meshtastic_node");
    assert_eq!(
        tags[1].parameters[0].value,
        TagValue::Text(String::from("base-1"))
    );
}

#[test]
fn later_verdict_replaces_same_name() {
    let tags = tag_device_advertisement(vec![
        tag("meshtastic_node", "known", TagValue::Boolean(false)),
        tag("meshtastic_node", "known", TagValue::Boolean(true)),
    ])
    .unwrap();
    assert_eq!(tags.len(), 1);
    assert_eq!(tags[0].name, "meshtastic_node");
    assert_eq!(tags[0].parameters[0].value, TagValue::Boolean(true));
}
