use deckr_mirabox_manager::json::JsonValue;
use deckr_mirabox_manager::text_map::TextMap;
use deckr_mirabox_manager::wire::{
    created_at, Coordinates, DeckrMessage, DeviceInfo, EntitySubject, HardwareMessageBody, ImageFormat,
    MessageTarget, Slot, WireError, UNCOUNTABLE_TTL_MS,
};

fn text(value: &str) -> JsonValue {
    JsonValue::Text(value.to_string())
}

fn object(fields: Vec<(&str, JsonValue)>) -> JsonValue {
    JsonValue::Object(
        fields
            .into_iter()
            .map(|(name, value)| (name.to_string(), value))
            .collect(),
    )
}

fn device() -> DeviceInfo {
    DeviceInfo {
        id: "deck".to_string(),
        fingerprint: "print".to_string(),
        hid: "hid".to_string(),
        slots: vec![
            Slot {
                id: "0,0".to_string(),
                coordinates: Coordinates { column: 0, row: -1 },
                image_format: Some(ImageFormat {
                    width: 85,
                    height: 80,
                    format: "jpeg".to_string(),
                    rotation: -90,
                    flip_x: true,
                    flip_y: false,
                    format_options: vec![("quality".to_string(), JsonValue::Unsigned(90))],
                }),
                slot_type: "key".to_string(),
                gestures: vec!["press".to_string(), "release".to_string()],
            },
            Slot {
                id: "dial".to_string(),
                coordinates: Coordinates { column: 1, row: 0 },
                image_format: None,
                slot_type: "dial".to_string(),
                gestures: Vec::new(),
            },
        ],
        name: None,
    }
}

fn bodies() -> Vec<(&'static str, HardwareMessageBody, JsonValue)> {
    vec![
        ("deviceDisconnected", HardwareMessageBody::DeviceDisconnected, object(vec![])),
        (
            "keyDown",
            HardwareMessageBody::KeyDown { key_id: "0,0".to_string() },
            object(vec![("keyId", text("0,0"))]),
        ),
        (
            "keyUp",
            HardwareMessageBody::KeyUp { key_id: "0,0".to_string() },
            object(vec![("keyId", text("0,0"))]),
        ),
        (
            "dialRotate",
            HardwareMessageBody::DialRotate {
                dial_id: "d".to_string(),
                direction: "left".to_string(),
            },
            object(vec![("dialId", text("d")), ("direction", text("left"))]),
        ),
        (
            "touchTap",
            HardwareMessageBody::TouchTap { touch_id: "t".to_string() },
            object(vec![("touchId", text("t"))]),
        ),
        (
            "touchSwipe",
            HardwareMessageBody::TouchSwipe {
                touch_id: "t".to_string(),
                direction: "left".to_string(),
            },
            object(vec![("direction", text("left")), ("touchId", text("t"))]),
        ),
        (
            "setImage",
            HardwareMessageBody::SetImage {
                slot_id: "0,0".to_string(),
                image: vec![0xfb, 0xff],
            },
            object(vec![("image", text("-_8=")), ("slotId", text("0,0"))]),
        ),
        (
            "clearSlot",
            HardwareMessageBody::ClearSlot { slot_id: "0,0".to_string() },
            object(vec![("slotId", text("0,0"))]),
        ),
        ("sleepScreen", HardwareMessageBody::SleepScreen, object(vec![])),
        ("wakeScreen", HardwareMessageBody::WakeScreen, object(vec![])),
    ]
}

#[test]
fn bodies_are_written_and_read_back() {
    for (message_type, body, json) in bodies() {
        assert_eq!(body.message_type(), message_type);
        assert_eq!(body.to_value().unwrap(), json);
        assert_eq!(HardwareMessageBody::from_message(message_type, &json), Ok(body));
    }
    let connected = HardwareMessageBody::DeviceConnected { device: device() };
    assert_eq!(connected.message_type(), "deviceConnected");
    let json = connected.to_value().unwrap();
    assert_eq!(
        HardwareMessageBody::from_message("deviceConnected", &json),
        Ok(connected)
    );
    let mut named = device();
    named.name = Some("MiraBox".to_string());
    let connected = HardwareMessageBody::DeviceConnected { device: named };
    let json = connected.to_value().unwrap();
    assert_eq!(
        HardwareMessageBody::from_message("deviceConnected", &json),
        Ok(connected)
    );
}

#[test]
fn commands_are_told_from_input() {
    for (message_type, body, _) in bodies() {
        let command = ["setImage", "clearSlot", "sleepScreen", "wakeScreen"].contains(&message_type);
        assert_eq!(body.is_command(), command);
        assert_eq!(body.is_input(), !command);
    }
}

#[test]
fn bodies_name_their_controls() {
    let controls: Vec<(Option<String>, Option<String>)> = bodies()
        .iter()
        .map(|(_, body, _)| {
            (
                body.control_id().map(str::to_string),
                body.control_kind().map(str::to_string),
            )
        })
        .collect();
    let named = |id: &str, kind: &str| (Some(id.to_string()), Some(kind.to_string()));
    assert_eq!(
        controls,
        vec![
            (None, None),
            named("0,0", "key"),
            named("0,0", "key"),
            named("d", "dial"),
            named("t", "touch"),
            named("t", "touch"),
            named("0,0", "slot"),
            named("0,0", "slot"),
            (None, None),
            (None, None),
        ]
    );
}

#[test]
fn bodies_that_cannot_be_read() {
    assert_eq!(
        HardwareMessageBody::from_message("explode", &object(vec![])),
        Err(WireError::UnknownType { message_type: "explode".to_string() })
    );
    let cases = vec![
        ("keyDown", object(vec![])),
        ("keyDown", object(vec![("keyId", JsonValue::Unsigned(1))])),
        ("keyDown", JsonValue::Null),
        ("keyDown", JsonValue::List(vec![text("a"), text("b")])),
        ("setImage", object(vec![("slotId", text("s")), ("image", text("+/8="))])),
        ("setImage", object(vec![("slotId", text("s")), ("image", text("-_8"))])),
        ("deviceConnected", object(vec![("device", object(vec![]))])),
    ];
    for (message_type, body) in cases {
        assert_eq!(
            HardwareMessageBody::from_message(message_type, &body),
            Err(WireError::InvalidBody)
        );
    }
}

#[test]
fn records_can_be_lists_and_carry_more() {
    assert_eq!(
        HardwareMessageBody::from_message(
            "keyUp",
            &object(vec![("keyId", text("k")), ("more", JsonValue::Bool(true))])
        ),
        Ok(HardwareMessageBody::KeyUp { key_id: "k".to_string() })
    );
    assert_eq!(
        HardwareMessageBody::from_message(
            "dialRotate",
            &JsonValue::List(vec![text("d"), text("left")])
        ),
        Ok(HardwareMessageBody::DialRotate {
            dial_id: "d".to_string(),
            direction: "left".to_string()
        })
    );
}

fn device_json(slots: JsonValue, more: Vec<(&str, JsonValue)>) -> JsonValue {
    let mut fields = vec![
        ("id", text("deck")),
        ("fingerprint", text("print")),
        ("hid", text("hid")),
        ("slots", slots),
    ];
    fields.extend(more);
    object(vec![("device", object(fields))])
}

#[test]
fn devices_take_defaults_and_nothing_unknown() {
    let slot = |more: Vec<(&str, JsonValue)>| {
        let mut fields = vec![
            ("id", text("s")),
            (
                "coordinates",
                JsonValue::List(vec![JsonValue::Unsigned(1), JsonValue::Negative(-2)]),
            ),
            ("slotType", text("key")),
        ];
        fields.extend(more);
        JsonValue::List(vec![object(fields)])
    };
    let read = |json: JsonValue| HardwareMessageBody::from_message("deviceConnected", &json);
    match read(device_json(slot(vec![]), vec![("name", JsonValue::Null)])).unwrap() {
        HardwareMessageBody::DeviceConnected { device } => {
            assert_eq!(device.name, None);
            assert_eq!(device.slots[0].coordinates, Coordinates { column: 1, row: -2 });
            assert_eq!(device.slots[0].image_format, None);
            assert!(device.slots[0].gestures.is_empty());
        }
        other => panic!("unexpected body {other:?}"),
    }
    let format = object(vec![
        ("width", JsonValue::Unsigned(1)),
        ("height", JsonValue::Unsigned(2)),
        ("format", text("png")),
    ]);
    match read(device_json(slot(vec![("imageFormat", format)]), vec![])).unwrap() {
        HardwareMessageBody::DeviceConnected { device } => {
            let format = device.slots[0].image_format.as_ref().unwrap();
            assert_eq!((format.width, format.height, format.rotation), (1, 2, 0));
            assert!(!format.flip_x && !format.flip_y);
            assert!(format.format_options.is_empty());
        }
        other => panic!("unexpected body {other:?}"),
    }
    let refused = vec![
        device_json(slot(vec![]), vec![("unknown", JsonValue::Null)]),
        device_json(slot(vec![("unknown", JsonValue::Null)]), vec![]),
        device_json(slot(vec![("gestures", JsonValue::List(vec![JsonValue::Null]))]), vec![]),
        device_json(slot(vec![("imageFormat", object(vec![]))]), vec![]),
        device_json(JsonValue::Null, vec![]),
    ];
    for json in refused {
        assert_eq!(read(json), Err(WireError::InvalidBody));
    }
}

#[test]
fn subjects_name_manager_and_device() {
    let subject = EntitySubject::hardware("manager", "deck", None, None);
    assert_eq!(subject.kind, "hardware_device");
    assert_eq!(subject.manager_id(), Some("manager"));
    assert_eq!(subject.device_id(), Some("deck"));
    assert_eq!(subject.identifiers.len(), 2);
    let subject = EntitySubject::hardware("manager", "deck", Some("0,0"), Some("key"));
    assert_eq!(subject.kind, "hardware_control");
    assert_eq!(subject.identifiers.get("controlId").map(String::as_str), Some("0,0"));
    assert_eq!(subject.identifiers.get("controlKind").map(String::as_str), Some("key"));
    let nobody = EntitySubject {
        kind: "x".to_string(),
        identifiers: TextMap::new(),
    };
    assert_eq!(nobody.device_id(), None);
    assert_eq!(nobody.manager_id(), None);
}

fn key_down() -> HardwareMessageBody {
    HardwareMessageBody::KeyDown {
        key_id: "0,0".to_string(),
    }
}

#[test]
fn messages_are_addressed() {
    let message = DeckrMessage::hardware_input("m", "deck", key_down()).unwrap();
    assert_eq!(message.sender, "hardware_manager:m");
    assert_eq!(message.recipient_endpoint(), None);
    assert_eq!(
        message.recipient,
        MessageTarget::Broadcast {
            scope: "controllers".to_string(),
            endpoint_family: "controller".to_string(),
            domain: None,
            hop_limit: None,
        }
    );
    assert_eq!(message.lane, "hardware_messages");
    assert_eq!(message.protocol_version, "1");
    assert_eq!(message.schema_version, "1");
    assert_eq!(message.message_type, "keyDown");
    assert_eq!(message.subject.kind, "hardware_control");
    assert_eq!(message.hardware_body(), Ok(key_down()));
    assert_eq!(message.message_id.len(), 36);
    assert_eq!(message.message_id.as_bytes()[14], b'4');
    assert!(b"89ab".contains(&message.message_id.as_bytes()[19]));
    assert_eq!(message.created_at.len(), 24);
    assert!(message.created_at.ends_with('Z'));
    let other = DeckrMessage::hardware_input("m", "deck", key_down()).unwrap();
    assert_ne!(message.message_id, other.message_id);

    let message =
        DeckrMessage::hardware_input_to("m", "deck", "controller:main", key_down()).unwrap();
    assert_eq!(message.recipient_endpoint(), Some("controller:main"));

    let message = DeckrMessage::hardware_command(
        "main",
        "m",
        "deck",
        HardwareMessageBody::SleepScreen,
    )
    .unwrap();
    assert_eq!(message.sender, "controller:main");
    assert_eq!(message.recipient_endpoint(), Some("hardware_manager:m"));
    assert_eq!(message.subject.kind, "hardware_device");
}

fn dated(created_at: &str, expires_at: Option<&str>, ttl_ms: Option<u64>) -> DeckrMessage {
    let mut message = DeckrMessage::hardware_at(
        "id".to_string(),
        created_at.to_string(),
        "controller:main".to_string(),
        MessageTarget::Endpoint {
            endpoint: "hardware_manager:m".to_string(),
        },
        "m",
        "deck",
        key_down(),
    )
    .unwrap();
    message.expires_at = expires_at.map(str::to_string);
    message.ttl_ms = ttl_ms;
    message
}

#[test]
fn messages_expire() {
    let noon = "2026-04-26T12:00:00.000Z";
    let at = |seconds: i64, nanos: u32| (1_777_204_800 + seconds, nanos);
    let live = dated(noon, None, None);
    assert!(!live.is_expired_at((i64::MAX, 0)));
    assert!(!live.is_expired());

    let stated = dated(noon, Some("2026-04-26T14:00:01+02:00"), None);
    assert!(!stated.is_expired_at(at(0, 999_999_999)));
    assert!(stated.is_expired_at(at(1, 0)));

    let brief = dated(noon, None, Some(1500));
    assert!(!brief.is_expired_at(at(1, 499_999_999)));
    assert!(brief.is_expired_at(at(1, 500_000_000)));
    assert!(brief.is_expired_at(at(2, 0)));

    let both = dated(noon, Some("2026-04-26T12:00:05Z"), Some(1000));
    assert!(both.is_expired_at(at(1, 0)));
    let both = dated(noon, Some("2026-04-26T12:00:01Z"), Some(5000));
    assert!(both.is_expired_at(at(1, 0)));

    let unreadable = dated("yesterday", Some("tomorrow"), Some(0));
    assert!(!unreadable.is_expired_at((i64::MAX, 0)));
    let endless = dated(noon, None, Some(i64::MAX as u64));
    assert!(!endless.is_expired_at(at(0, 0)));
    let negative = dated(noon, None, Some(u64::MAX));
    assert!(negative.is_expired_at(at(0, 0)));
    assert!(!negative.is_expired_at(at(-1, 998_999_999)));

    assert!(dated("2000-01-01T00:00:00Z", None, Some(1)).is_expired());
}

#[test]
fn one_lifetime_cannot_be_counted() {
    let noon = "2026-04-26T12:00:00.000Z";
    assert_eq!(dated(noon, None, Some(UNCOUNTABLE_TTL_MS)).checked_is_expired(), None);
    assert_eq!(
        dated("yesterday", None, Some(UNCOUNTABLE_TTL_MS)).checked_is_expired(),
        Some(false)
    );
    assert_eq!(dated(noon, None, None).checked_is_expired(), Some(false));
    assert_eq!(
        dated("2000-01-01T00:00:00Z", None, Some(1)).checked_is_expired(),
        Some(true)
    );
}

#[test]
fn messages_are_dated_to_the_millisecond() {
    assert_eq!(created_at((0, 5_000_000)), "1970-01-01T00:00:00.005Z");
    assert_eq!(created_at((1_777_204_800, 123_999_999)), "2026-04-26T12:00:00.123Z");
    let message = dated(&created_at((1_777_204_800, 250_000_000)), None, Some(250));
    assert!(!message.is_expired_at((1_777_204_800, 499_999_999)));
    assert!(message.is_expired_at((1_777_204_800, 500_000_000)));
}

#[test]
fn what_expired_before_the_clock_began_has_expired() {
    let old = dated("yesterday", Some("1969-12-31T23:59:59Z"), None);
    assert!(old.is_expired());
    assert_eq!(old.checked_is_expired(), Some(true));
}
