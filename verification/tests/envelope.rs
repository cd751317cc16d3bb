use deckr_mirabox_manager::json::{settle, JsonValue};
use deckr_mirabox_manager::wire::{
    DeckrMessage, DeviceInfo, HardwareMessageBody, MessageTarget,
};

fn text(value: &str) -> JsonValue {
    JsonValue::Text(value.to_string())
}

fn object(fields: Vec<(&str, JsonValue)>) -> JsonValue {
    JsonValue::Object(
        fields
            .into_iter()
            .map(|(name, value)| (name.to_string(), value))
            .collect(),
    )
}

fn envelope() -> Vec<(&'static str, JsonValue)> {
    vec![
        ("messageId", text("fixture")),
        ("protocolVersion", text("1")),
        ("schemaVersion", text("1")),
        ("lane", text("hardware_messages")),
        ("messageType", text("keyDown")),
        ("sender", text("hardware_manager:bedroom-pi")),
        (
            "recipient",
            object(vec![
                ("targetType", text("endpoint")),
                ("endpoint", text("controller:main")),
            ]),
        ),
        (
            "subject",
            object(vec![
                ("kind", text("hardware_control")),
                (
                    "identifiers",
                    object(vec![
                        ("managerId", text("bedroom-pi")),
                        ("deviceId", text("deck")),
                        ("controlId", text("0,0")),
                        ("controlKind", text("key")),
                    ]),
                ),
            ]),
        ),
        ("createdAt", text("2026-04-26T00:00:00.000Z")),
        ("body", object(vec![("keyId", text("0,0"))])),
    ]
}

fn with(name: &'static str, value: JsonValue) -> JsonValue {
    let mut fields: Vec<(&str, JsonValue)> = envelope()
        .into_iter()
        .filter(|(other, _)| *other != name)
        .collect();
    fields.push((name, value));
    object(fields)
}

#[test]
fn rejects_non_canonical_envelope_fields() {
    assert!(DeckrMessage::from_value(&object(envelope())).is_some());
    let mut value = envelope();
    value.push(("unexpectedField", JsonValue::Bool(true)));
    assert!(DeckrMessage::from_value(&object(value)).is_none());
}

#[test]
fn messages_are_read() {
    let message = DeckrMessage::from_value(&object(envelope())).unwrap();
    assert_eq!(message.message_id, "fixture");
    assert_eq!(message.recipient_endpoint(), Some("controller:main"));
    assert_eq!(message.subject.manager_id(), Some("bedroom-pi"));
    assert_eq!(message.expires_at, None);
    assert_eq!(message.ttl_ms, None);
    assert_eq!(message.trace, None);
    assert_eq!(
        message.hardware_body(),
        Ok(HardwareMessageBody::KeyDown { key_id: "0,0".to_string() })
    );
    let full = DeckrMessage::from_value(&with("ttlMs", JsonValue::Unsigned(1500))).unwrap();
    assert_eq!(full.ttl_ms, Some(1500));
    let none = DeckrMessage::from_value(&with("trace", JsonValue::Null)).unwrap();
    assert_eq!(none.trace, None);
    let traced = DeckrMessage::from_value(&with("trace", JsonValue::Bool(true))).unwrap();
    assert_eq!(traced.trace, Some(JsonValue::Bool(true)));
}

#[test]
fn what_is_no_message() {
    for missing in ["messageId", "recipient", "subject", "createdAt", "body"] {
        let fields = envelope()
            .into_iter()
            .filter(|(name, _)| *name != missing)
            .collect();
        assert!(DeckrMessage::from_value(&object(fields)).is_none());
    }
    let mut twice = envelope();
    twice.push(("lane", text("hardware_messages")));
    let refused = vec![
        JsonValue::Null,
        object(twice),
        with("messageId", JsonValue::Unsigned(1)),
        with("ttlMs", JsonValue::Negative(-1)),
        with("expiresAt", JsonValue::Bool(true)),
        with("recipient", object(vec![("targetType", text("nobody"))])),
        with("recipient", object(vec![("endpoint", text("controller:main"))])),
        with(
            "recipient",
            object(vec![("targetType", text("broadcast")), ("scope", text("x"))]),
        ),
        with(
            "subject",
            object(vec![("kind", text("x")), ("more", JsonValue::Null)]),
        ),
        with(
            "subject",
            object(vec![
                ("kind", text("x")),
                ("identifiers", object(vec![("a", JsonValue::Null)])),
            ]),
        ),
    ];
    for value in refused {
        assert!(DeckrMessage::from_value(&value).is_none(), "{value:?}");
    }
}

#[test]
fn records_of_a_message_can_be_lists() {
    let endpoint = JsonValue::List(vec![text("endpoint"), text("controller:main")]);
    let message = DeckrMessage::from_value(&with("recipient", endpoint)).unwrap();
    assert_eq!(message.recipient_endpoint(), Some("controller:main"));
    let subject = JsonValue::List(vec![text("hardware_device")]);
    let message = DeckrMessage::from_value(&with("subject", subject)).unwrap();
    assert_eq!(message.subject.identifiers.len(), 0);
    let mut list: Vec<JsonValue> = envelope().into_iter().map(|(_, value)| value).collect();
    let body = list.pop().unwrap();
    for _ in 0..5 {
        list.push(JsonValue::Null);
    }
    assert!(DeckrMessage::from_value(&JsonValue::List(list)).is_none());
    let mut list: Vec<JsonValue> = envelope().into_iter().map(|(_, value)| value).collect();
    list.pop();
    for _ in 0..5 {
        list.push(JsonValue::Null);
    }
    list.push(body);
    assert!(DeckrMessage::from_value(&JsonValue::List(list)).is_some());
}

#[test]
fn targets_carry_more() {
    let target = object(vec![
        ("scope", text("controllers")),
        ("hopLimit", JsonValue::Unsigned(3)),
        ("targetType", text("broadcast")),
        ("endpointFamily", text("controller")),
        ("more", JsonValue::Null),
        ("more", JsonValue::Null),
    ]);
    let message = DeckrMessage::from_value(&with("recipient", target)).unwrap();
    assert_eq!(
        message.recipient,
        MessageTarget::Broadcast {
            scope: "controllers".to_string(),
            endpoint_family: "controller".to_string(),
            domain: None,
            hop_limit: Some(3),
        }
    );
}

#[test]
fn written_messages_are_read_back() {
    let bodies = vec![
        HardwareMessageBody::SetImage {
            slot_id: "0,0".to_string(),
            image: vec![0xfb, 0xff],
        },
        HardwareMessageBody::DeviceConnected {
            device: DeviceInfo {
                id: "deck".to_string(),
                fingerprint: "print".to_string(),
                hid: "hid".to_string(),
                slots: Vec::new(),
                name: None,
            },
        },
        HardwareMessageBody::WakeScreen,
    ];
    for body in bodies {
        let mut message =
            DeckrMessage::hardware_command("main", "bedroom-pi", "deck", body.clone()).unwrap();
        message.ttl_ms = Some(5);
        message.trace = Some(object(vec![("a", JsonValue::Unsigned(1))]));
        let value = message.to_value();
        let read = DeckrMessage::from_value(&value).unwrap();
        assert_eq!(read.hardware_body(), Ok(body));
        assert_eq!(read.message_id, message.message_id);
        assert_eq!(read.created_at, message.created_at);
        assert_eq!(read.recipient, message.recipient);
        assert_eq!(read.ttl_ms, message.ttl_ms);
        assert_eq!(read.trace, message.trace);
        assert_eq!(read.subject.device_id(), Some("deck"));
        assert_eq!(read.to_value(), value);
    }
}

#[test]
fn messages_are_written_field_by_field() {
    let message = DeckrMessage::from_value(&object(envelope())).unwrap();
    let mut expected = envelope();
    expected[7] = (
        "subject",
        object(vec![
            ("kind", text("hardware_control")),
            (
                "identifiers",
                object(vec![
                    ("controlId", text("0,0")),
                    ("controlKind", text("key")),
                    ("deviceId", text("deck")),
                    ("managerId", text("bedroom-pi")),
                ]),
            ),
        ]),
    );
    assert_eq!(message.to_value(), object(expected));
}

#[test]
fn values_are_settled() {
    let value = object(vec![
        ("b", JsonValue::Unsigned(1)),
        ("a", JsonValue::List(vec![object(vec![
            ("y", JsonValue::Null),
            ("x", JsonValue::Null),
        ])])),
        ("b", JsonValue::Unsigned(2)),
        ("aa", JsonValue::Unsigned(3)),
    ]);
    let settled = object(vec![
        ("a", JsonValue::List(vec![object(vec![
            ("x", JsonValue::Null),
            ("y", JsonValue::Null),
        ])])),
        ("aa", JsonValue::Unsigned(3)),
        ("b", JsonValue::Unsigned(2)),
    ]);
    assert_eq!(settle(&value), settled);
    assert_eq!(settle(&settled), settled);
}
