use deckr_mirabox_manager::json::JsonValue;
use deckr_mirabox_manager::lanes::HardwareMessageBody;
use deckr_mirabox_manager::layout::{
    is_candidate, is_layout_extension, lint_layout, resolve_layout, sort_layouts, Control, DialEvents, Display,
    EventBinding, HidDeviceCandidate, ImageFormat, KeyEvents, Layout, LayoutError, LintError,
    TouchDialEvents, TouchStripEvents,
};
use deckr_mirabox_manager::policy::PolicyError;
use deckr_mirabox_manager::protocol::InteractionEvent;
use deckr_mirabox_manager::text_map::TextMap;

const CANDIDATE: &str =
    "vendor_id == 2816 and product_id == 4097 and (usage_page == 65440 or usage_page == nothing)";

fn display(id: u8) -> Display {
    Display {
        id,
        format: ImageFormat {
            width: 85,
            height: 80,
            format: "jpeg".to_string(),
            rotation: -90,
        },
    }
}

fn controls() -> Vec<Control> {
    vec![
        Control::Key {
            name: "0,0".to_string(),
            row: 0,
            column: 0,
            events: KeyEvents {
                key: Some(1),
                press: Some(2),
            },
            display: display(11),
        },
        Control::Button {
            name: "left".to_string(),
            row: 1,
            column: 2,
            events: KeyEvents {
                key: Some(3),
                press: None,
            },
        },
        Control::TouchDial {
            name: "touch".to_string(),
            row: 2,
            column: 0,
            events: TouchDialEvents {
                tap: 10,
                clockwise: 11,
                counterclockwise: 12,
                key: Some(13),
                press: Some(14),
            },
            display: display(12),
        },
        Control::Dial {
            name: "dial".to_string(),
            row: 2,
            column: 1,
            events: DialEvents {
                clockwise: 21,
                counterclockwise: 22,
                key: None,
                press: Some(23),
            },
        },
        Control::TouchStrip {
            name: "strip".to_string(),
            row: 3,
            column: 0,
            events: TouchStripEvents {
                left_swipe: 31,
                right_swipe: 32,
            },
            display: display(13),
        },
        Control::Screen {
            name: "screen".to_string(),
            row: 4,
            column: 0,
            display: display(14),
        },
    ]
}

fn layout(name: &str, match_expr: &str) -> Layout {
    Layout {
        name: name.to_string(),
        candidate: CANDIDATE.to_string(),
        match_expr: match_expr.to_string(),
        protocol_version: 3,
        init_sequence: Vec::new(),
        teardown_sequence: Vec::new(),
        heartbeats: Vec::new(),
        controls: controls(),
        image_config: TextMap::new(),
    }
}

fn layouts() -> Vec<Layout> {
    vec![
        layout("MSD_ONE", "search(\"MSD_ONE\", firmware)"),
        layout("MSD_TWO", "search(\"V25\\\\.MSD_TWO|MSD_TWO\", firmware)"),
    ]
}

fn sample_descriptor() -> HidDeviceCandidate {
    HidDeviceCandidate {
        path: b"device".to_vec(),
        vendor_id: 2816,
        product_id: 4097,
        serial_number: "0300D0785616".to_string(),
        usage_page: None,
        usage: None,
        interface_number: Some(0),
    }
}

#[test]
fn resolves_layout_without_usage_page() {
    let layouts = layouts();
    let layout = resolve_layout(&layouts, &sample_descriptor(), "V25.MSD_TWO.01.005")
        .expect("layout should resolve");
    assert_eq!(layout.name, "MSD_TWO");
}

#[test]
fn rejects_known_vid_pid_when_non_deckr_usage_page_is_present() {
    let layouts = layouts();
    let descriptor = HidDeviceCandidate {
        usage_page: Some(1),
        usage: Some(6),
        ..sample_descriptor()
    };
    let matched = layouts
        .iter()
        .any(|layout| layout.matches_candidate(&descriptor).unwrap_or(false));
    assert!(!matched);
    assert!(!is_candidate(&layouts, &descriptor));
}

#[test]
fn devices_without_a_layout() {
    let layouts = layouts();
    let stranger = HidDeviceCandidate {
        vendor_id: 1,
        ..sample_descriptor()
    };
    assert_eq!(
        resolve_layout(&layouts, &stranger, "V25.MSD_TWO.01.005").err(),
        Some(LayoutError::NoCandidate {
            hardware_id: "0001:1001:0300D0785616".to_string()
        })
    );
    assert_eq!(
        resolve_layout(&layouts, &sample_descriptor(), "V99").err(),
        Some(LayoutError::NoMatch {
            hardware_id: "0B00:1001:0300D0785616".to_string(),
            firmware: "V99".to_string()
        })
    );
}

#[test]
fn expressions_that_fail_say_no() {
    let mut broken = layout("A", "search(\"(\", firmware)");
    broken.candidate = "vendor_id ==".to_string();
    assert_eq!(
        broken.matches_candidate(&sample_descriptor()),
        Err(PolicyError::UnexpectedEnd)
    );
    assert_eq!(
        broken.matches_firmware(&sample_descriptor(), "V25"),
        Err(PolicyError::InvalidPattern)
    );
    let layouts = vec![broken, layout("B", "search(\"V25\", firmware)")];
    let layout = resolve_layout(&layouts, &sample_descriptor(), "V25").expect("layout");
    assert_eq!(layout.name, "B");
}

#[test]
fn every_part_of_a_device_can_be_asked_for() {
    let mut asking = layout("A", "firmware == \"F\" and serial_number == \"0300D0785616\"");
    asking.candidate = "usage_page == 7 and usage == 8 and interface_number == -1".to_string();
    let descriptor = HidDeviceCandidate {
        usage_page: Some(7),
        usage: Some(8),
        interface_number: Some(-1),
        ..sample_descriptor()
    };
    assert_eq!(asking.matches_candidate(&descriptor), Ok(true));
    assert_eq!(asking.matches_candidate(&sample_descriptor()), Ok(false));
    assert_eq!(asking.matches_firmware(&descriptor, "F"), Ok(true));
}

#[test]
fn ids_of_devices() {
    assert_eq!(sample_descriptor().hardware_id(), "0B00:1001:0300D0785616");
    assert_eq!(sample_descriptor().path_hex(), "646576696365");
}

#[test]
fn layouts_are_linted() {
    assert_eq!(lint_layout(CANDIDATE, "firmware == \"x\""), Ok(()));
    assert_eq!(
        lint_layout("usage_page == 65440", "firmware == \"x\""),
        Err(LintError::MissingFallback)
    );
    assert_eq!(
        lint_layout("vendor_id == 1 or product_id", "x ="),
        Err(LintError::Match(PolicyError::ExpectedEq))
    );
    assert_eq!(
        lint_layout("vendor_id == 1 or product_id ==", "x ="),
        Err(LintError::Candidate(PolicyError::UnexpectedEnd))
    );
}

#[test]
fn layouts_are_sorted_by_name() {
    let mut second_a = layout("a", "second");
    second_a.protocol_version = 1;
    let sorted = sort_layouts(vec![
        layout("b", "x"),
        layout("a", "first"),
        layout("c", "x"),
        second_a,
        layout("B", "x"),
    ]);
    let names: Vec<(&str, &str)> = sorted
        .iter()
        .map(|layout| (layout.name.as_str(), layout.match_expr.as_str()))
        .collect();
    assert_eq!(
        names,
        vec![("B", "x"), ("a", "first"), ("a", "second"), ("b", "x"), ("c", "x")]
    );
}

#[test]
fn devices_are_described() {
    let descriptor = layout("MSD_TWO", "x").device_descriptor("deck", "print", "hid");
    assert_eq!(descriptor.device_id, "deck");
    assert_eq!(descriptor.fingerprint, "print");
    assert_eq!(descriptor.display_name, "MSD_TWO");
    assert_eq!(descriptor.manufacturer.as_deref(), Some("MiraBox"));
    assert_eq!(descriptor.model.as_deref(), Some("MSD_TWO"));
    assert_eq!(descriptor.serial_number.as_deref(), Some("print"));
    assert_eq!(descriptor.capabilities.len(), 1);
    assert_eq!(descriptor.capabilities[0].capability_id, "device.power");
    assert_eq!(descriptor.capabilities[0].command_types, vec!["sleep", "wake"]);
    let kinds: Vec<&str> = descriptor
        .controls
        .iter()
        .map(|control| control.kind.as_str())
        .collect();
    assert_eq!(
        kinds,
        vec!["key", "button", "touch_dial", "dial", "touch_strip", "screen"]
    );
    let ids = |i: usize| -> Vec<&str> {
        descriptor.controls[i]
            .input_capabilities
            .iter()
            .map(|capability| capability.capability_id.as_str())
            .collect()
    };
    assert_eq!(ids(0), vec!["button.momentary", "button.press"]);
    assert_eq!(ids(1), vec!["button.momentary", "button.press"]);
    assert_eq!(
        ids(2),
        vec!["encoder.relative", "button.momentary", "button.press", "touch.gesture"]
    );
    assert_eq!(ids(3), vec!["encoder.relative"]);
    assert_eq!(ids(4), vec!["touch.gesture"]);
    assert!(ids(5).is_empty());
    let outputs: Vec<usize> = descriptor
        .controls
        .iter()
        .map(|control| control.output_capabilities.len())
        .collect();
    assert_eq!(outputs, vec![1, 0, 1, 0, 1, 1]);
    let geometry = descriptor.controls[1].geometry.as_ref().unwrap();
    assert_eq!((geometry.x, geometry.y), (2, 1));
    assert_eq!(geometry.unit, "grid");
    let raster = &descriptor.controls[0].output_capabilities[0];
    assert_eq!(raster.capability_id, "raster.bitmap");
    assert_eq!(raster.constraints[0].value, Some(JsonValue::Unsigned(85)));
    assert_eq!(raster.constraints[1].subject, "height");
    assert_eq!(raster.constraints[2].value, Some(JsonValue::Negative(-90)));
}

#[test]
fn reports_are_bound_to_controls() {
    let layout = layout("MSD_TWO", "x");
    let name = |text: &str| text.to_string();
    let cases = vec![
        (1, Some(EventBinding::Key { control_name: name("0,0") })),
        (2, Some(EventBinding::Press { control_name: name("0,0") })),
        (3, Some(EventBinding::Key { control_name: name("left") })),
        (10, Some(EventBinding::Tap { control_name: name("touch") })),
        (11, Some(EventBinding::Clockwise { control_name: name("touch") })),
        (12, Some(EventBinding::Counterclockwise { control_name: name("touch") })),
        (13, Some(EventBinding::Press { control_name: name("touch") })),
        (14, Some(EventBinding::Press { control_name: name("touch") })),
        (21, Some(EventBinding::Clockwise { control_name: name("dial") })),
        (22, Some(EventBinding::Counterclockwise { control_name: name("dial") })),
        (23, Some(EventBinding::Press { control_name: name("dial") })),
        (31, Some(EventBinding::LeftSwipe { control_name: name("strip") })),
        (32, Some(EventBinding::RightSwipe { control_name: name("strip") })),
        (99, None),
    ];
    for (id, binding) in cases {
        assert_eq!(layout.binding_for_event(id), binding);
    }
}

#[test]
fn displays_are_found_by_control() {
    let mut layout = layout("MSD_TWO", "x");
    assert_eq!(layout.display_id_for_control("0,0"), Some(11));
    assert_eq!(layout.display_id_for_control("touch"), Some(12));
    assert_eq!(layout.display_id_for_control("strip"), Some(13));
    assert_eq!(layout.display_id_for_control("screen"), Some(14));
    assert_eq!(layout.display_id_for_control("left"), None);
    assert_eq!(layout.display_id_for_control("nowhere"), None);
    layout.controls.push(Control::Screen {
        name: "left".to_string(),
        row: 0,
        column: 0,
        display: display(99),
    });
    assert_eq!(layout.display_id_for_control("left"), Some(99));
}

fn inputs(layout: &Layout, button_id: u16, payload: u8) -> Vec<(String, String, String, JsonValue)> {
    layout
        .translate_event(
            InteractionEvent {
                button_id,
                payload,
                supports_release: true,
            },
            "manager",
            "deck",
            "print",
        )
        .into_iter()
        .map(|body| match body {
            HardwareMessageBody::ControlInput {
                device_ref,
                control_id,
                capability_id,
                event_type,
                value,
            } => {
                assert_eq!(device_ref.manager_id, "manager");
                assert_eq!(device_ref.device_id, "deck");
                assert_eq!(device_ref.fingerprint.as_deref(), Some("print"));
                (control_id, capability_id, event_type, value.unwrap())
            }
            other => panic!("unexpected body {other:?}"),
        })
        .collect()
}

fn object(fields: Vec<(&str, JsonValue)>) -> JsonValue {
    JsonValue::Object(
        fields
            .into_iter()
            .map(|(name, value)| (name.to_string(), value))
            .collect(),
    )
}

fn text(value: &str) -> JsonValue {
    JsonValue::Text(value.to_string())
}

fn input(
    control: &str,
    capability: &str,
    event: &str,
    value: JsonValue,
) -> (String, String, String, JsonValue) {
    (control.to_string(), capability.to_string(), event.to_string(), value)
}

#[test]
fn events_become_messages() {
    let layout = layout("MSD_TWO", "x");
    assert_eq!(
        inputs(&layout, 1, 1),
        vec![input("0,0", "button.momentary", "down", object(vec![("eventType", text("down"))]))]
    );
    assert_eq!(
        inputs(&layout, 1, 0),
        vec![
            input("0,0", "button.momentary", "up", object(vec![("eventType", text("up"))])),
            input("0,0", "button.press", "press", object(vec![("eventType", text("press"))])),
        ]
    );
    assert_eq!(
        inputs(&layout, 23, 0),
        vec![input("dial", "button.press", "press", object(vec![("eventType", text("press"))]))]
    );
    assert_eq!(
        inputs(&layout, 11, 1),
        vec![input(
            "touch",
            "encoder.relative",
            "rotate",
            object(vec![("delta", JsonValue::Unsigned(1)), ("direction", text("clockwise"))])
        )]
    );
    assert_eq!(
        inputs(&layout, 22, 1),
        vec![input(
            "dial",
            "encoder.relative",
            "rotate",
            object(vec![
                ("delta", JsonValue::Negative(-1)),
                ("direction", text("counterclockwise"))
            ])
        )]
    );
    assert_eq!(
        inputs(&layout, 10, 1),
        vec![input("touch", "touch.gesture", "tap", object(vec![("eventType", text("tap"))]))]
    );
    assert_eq!(
        inputs(&layout, 31, 1),
        vec![input(
            "strip",
            "touch.gesture",
            "swipe",
            object(vec![("direction", text("left")), ("eventType", text("swipe"))])
        )]
    );
    assert_eq!(
        inputs(&layout, 32, 1),
        vec![input(
            "strip",
            "touch.gesture",
            "swipe",
            object(vec![("direction", text("right")), ("eventType", text("swipe"))])
        )]
    );
    assert!(inputs(&layout, 99, 1).is_empty());
}

#[test]
fn layouts_are_in_yaml_files() {
    assert!(is_layout_extension(Some("yml")));
    assert!(is_layout_extension(Some("yaml")));
    assert!(!is_layout_extension(Some("json")));
    assert!(!is_layout_extension(None));
}
