use std::collections::VecDeque;

use deckr_mirabox_manager::json::JsonValue;
use deckr_mirabox_manager::lanes::{DeviceRef, HardwareMessageBody};
use deckr_mirabox_manager::layout::{
    ArgValue, Control, Display, Heartbeat, HidDeviceCandidate, ImageFormat, InitCommand, KeyEvents,
    Layout, LayoutError,
};
use deckr_mirabox_manager::protocol::{DeviceCommand, MiraBoxProtocol, ProtocolError};
use deckr_mirabox_manager::setup::{
    layout_command_to_protocol, run_init_sequence, HeartbeatClock, SetupError,
};
use deckr_mirabox_manager::text_map::TextMap;
use deckr_mirabox_manager::worker::{
    apply_runtime_command, decode_firmware, frame_command, runtime_command_from_body, trim_zeros,
    CommandError, CommandStep, ConnectError, RuntimeCommand, Worker,
};

struct FakeBackend {
    reports: VecDeque<Vec<u8>>,
}

impl FakeBackend {
    fn new() -> Self {
        Self {
            reports: VecDeque::new(),
        }
    }

    fn push_report(&mut self, report: Vec<u8>) {
        self.reports.push_back(report);
    }
}

fn ack_report(button_id: u16, payload: u8) -> Vec<u8> {
    let mut report = vec![0; 64];
    report[0..3].copy_from_slice(b"ACK");
    report[8..10].copy_from_slice(&button_id.to_be_bytes());
    report[10] = payload;
    report
}

fn firmware_report() -> Vec<u8> {
    let mut report = vec![0; 64];
    report[1..19].copy_from_slice(b"V25.MSD_TWO.01.005");
    report
}

fn descriptor() -> HidDeviceCandidate {
    HidDeviceCandidate {
        path: b"fake-path".to_vec(),
        vendor_id: 2816,
        product_id: 4097,
        serial_number: "0300D0785616".to_string(),
        usage_page: None,
        usage: None,
        interface_number: Some(0),
    }
}

fn layout() -> Layout {
    Layout {
        name: "MSD_TWO".to_string(),
        candidate: "usage_page == 65440 or (vendor_id == 2816 and product_id == 4097)".to_string(),
        match_expr: "search(\"V25\\\\.MSD_TWO|MSD_TWO\", firmware)".to_string(),
        protocol_version: 3,
        init_sequence: Vec::new(),
        teardown_sequence: Vec::new(),
        heartbeats: Vec::new(),
        controls: vec![Control::Key {
            name: "0,0".to_string(),
            row: 0,
            column: 0,
            events: KeyEvents {
                key: Some(1),
                press: None,
            },
            display: Display {
                id: 11,
                format: ImageFormat {
                    width: 85,
                    height: 85,
                    format: "jpeg".to_string(),
                    rotation: 0,
                },
            },
        }],
        image_config: TextMap::new(),
    }
}

fn raster_command(command_type: &str) -> HardwareMessageBody {
    let mut params = Vec::new();
    if command_type == "set_frame" {
        params.push(("image".to_string(), JsonValue::Text("b2s=".to_string())));
        params.push(("encoding".to_string(), JsonValue::Text("jpeg".to_string())));
    }
    HardwareMessageBody::ControlCommand {
        device_ref: DeviceRef {
            manager_id: "mirabox-main".to_string(),
            device_id: "deck".to_string(),
            fingerprint: None,
        },
        control_id: Some("0,0".to_string()),
        capability_id: "raster.bitmap".to_string(),
        command_type: command_type.to_string(),
        params,
    }
}

fn power_command(command_type: &str) -> HardwareMessageBody {
    HardwareMessageBody::ControlCommand {
        device_ref: DeviceRef {
            manager_id: "mirabox-main".to_string(),
            device_id: "deck".to_string(),
            fingerprint: None,
        },
        control_id: None,
        capability_id: "device.power".to_string(),
        command_type: command_type.to_string(),
        params: Vec::new(),
    }
}

#[test]
fn fake_backend_can_translate_input_report() {
    let mut backend = FakeBackend::new();
    backend.push_report(ack_report(1, 1));
    assert_eq!(backend.reports.len(), 1);
}

#[test]
fn reset_device_writes_clear_all_and_refresh() {
    let layout = layout();
    let protocol = MiraBoxProtocol::for_version(layout.protocol_version).expect("valid protocol");

    let writes = apply_runtime_command(&protocol, &layout, RuntimeCommand::ResetDevice).unwrap();

    assert!(writes
        .iter()
        .any(|payload| payload.starts_with(b"\x00CRT\x00\x00CLE")));
    assert!(writes
        .iter()
        .any(|payload| payload.starts_with(b"\x00CRT\x00\x00STP")));
    assert!(writes[0].starts_with(b"\x00CRT\x00\x00CLE\x00\x00\x00\xFF"));
}

#[test]
fn set_raster_frame_writes_image_and_refresh() {
    let layout = layout();
    let protocol = MiraBoxProtocol::for_version(layout.protocol_version).expect("valid protocol");

    let writes = apply_runtime_command(
        &protocol,
        &layout,
        RuntimeCommand::SetRasterFrame {
            control_id: "0,0".to_string(),
            image: b"ok".to_vec(),
        },
    )
    .unwrap();

    assert_eq!(writes.len(), 3);
    assert!(writes[0].starts_with(b"\x00CRT\x00\x00BAT"));
    assert_eq!(&writes[1][1..3], b"ok");
    assert!(writes[2].starts_with(b"\x00CRT\x00\x00STP"));
}

#[test]
fn clear_raster_writes_clear_and_refresh() {
    let layout = layout();
    let protocol = MiraBoxProtocol::for_version(layout.protocol_version).expect("valid protocol");

    let writes = apply_runtime_command(
        &protocol,
        &layout,
        RuntimeCommand::ClearRaster {
            control_id: "0,0".to_string(),
        },
    )
    .unwrap();

    assert_eq!(writes.len(), 2);
    assert!(writes[0].starts_with(b"\x00CRT\x00\x00CLE"));
    assert!(writes[1].starts_with(b"\x00CRT\x00\x00STP"));
}

#[test]
fn runtime_command_from_hardware_body_maps_outputs() {
    assert!(matches!(
        runtime_command_from_body(raster_command("set_frame")).unwrap(),
        RuntimeCommand::SetRasterFrame { .. }
    ));
    assert!(matches!(
        runtime_command_from_body(raster_command("clear")).unwrap(),
        RuntimeCommand::ClearRaster { .. }
    ));
    assert!(matches!(
        runtime_command_from_body(power_command("sleep")).unwrap(),
        RuntimeCommand::SleepDevice
    ));
    assert!(matches!(
        runtime_command_from_body(power_command("wake")).unwrap(),
        RuntimeCommand::WakeDevice
    ));
}

#[test]
fn runtime_command_from_hardware_body_rejects_under_shaped_params() {
    let mut missing_encoding = raster_command("set_frame");
    if let HardwareMessageBody::ControlCommand { params, .. } = &mut missing_encoding {
        params.retain(|(name, _)| name != "encoding");
    }
    assert!(runtime_command_from_body(missing_encoding).is_err());

    let mut invalid_encoding = raster_command("set_frame");
    if let HardwareMessageBody::ControlCommand { params, .. } = &mut invalid_encoding {
        params.retain(|(name, _)| name != "encoding");
        params.push(("encoding".to_string(), JsonValue::Text("gif".to_string())));
    }
    assert!(runtime_command_from_body(invalid_encoding).is_err());

    let mut non_empty_clear = raster_command("clear");
    if let HardwareMessageBody::ControlCommand { params, .. } = &mut non_empty_clear {
        params.push(("unexpected".to_string(), JsonValue::Bool(true)));
    }
    assert!(runtime_command_from_body(non_empty_clear).is_err());
}

fn changed(
    mut body: HardwareMessageBody,
    change: impl FnOnce(&mut Option<String>, &mut String, &mut String, &mut Vec<(String, JsonValue)>),
) -> HardwareMessageBody {
    if let HardwareMessageBody::ControlCommand {
        control_id,
        capability_id,
        command_type,
        params,
        ..
    } = &mut body
    {
        change(control_id, capability_id, command_type, params);
    }
    body
}

#[test]
fn requests_that_cannot_be_made() {
    assert_eq!(
        runtime_command_from_body(raster_command("set_frame")),
        Ok(RuntimeCommand::SetRasterFrame {
            control_id: "0,0".to_string(),
            image: b"ok".to_vec()
        })
    );
    let cases = vec![
        (
            changed(raster_command("set_frame"), |id, _, _, _| *id = None),
            CommandError::MissingControlId,
        ),
        (
            changed(raster_command("clear"), |id, _, _, _| *id = None),
            CommandError::MissingControlId,
        ),
        (
            changed(raster_command("set_frame"), |_, _, _, params| {
                params[0].1 = JsonValue::Null
            }),
            CommandError::MissingImage,
        ),
        (
            changed(raster_command("set_frame"), |_, _, _, params| {
                params[1].1 = JsonValue::Bool(true)
            }),
            CommandError::MissingEncoding,
        ),
        (
            changed(raster_command("set_frame"), |_, _, _, params| {
                params[1].1 = JsonValue::Text("gif".to_string())
            }),
            CommandError::UnsupportedEncoding,
        ),
        (
            changed(raster_command("set_frame"), |_, _, _, params| {
                params[0].1 = JsonValue::Text("b2s".to_string())
            }),
            CommandError::InvalidImage,
        ),
        (
            changed(raster_command("set_frame"), |_, _, _, params| {
                params[0].1 = JsonValue::Text("-_8=".to_string())
            }),
            CommandError::InvalidImage,
        ),
        (
            changed(power_command("wake"), |_, _, _, params| {
                params.push(("x".to_string(), JsonValue::Null))
            }),
            CommandError::UnexpectedParams,
        ),
        (
            power_command("explode"),
            CommandError::Unsupported {
                capability_id: "device.power".to_string(),
                command_type: "explode".to_string(),
            },
        ),
        (
            HardwareMessageBody::DeviceUnavailable {
                device_ref: DeviceRef {
                    manager_id: "m".to_string(),
                    device_id: "d".to_string(),
                    fingerprint: None,
                },
                reason: None,
            },
            CommandError::NotACommand,
        ),
    ];
    for (body, error) in cases {
        assert_eq!(runtime_command_from_body(body), Err(error));
    }
}

#[test]
fn frames_of_decoded_images() {
    assert_eq!(
        frame_command("k".to_string(), "png", Some(vec![1])),
        Ok(RuntimeCommand::SetRasterFrame {
            control_id: "k".to_string(),
            image: vec![1]
        })
    );
    assert_eq!(
        frame_command("k".to_string(), "png", None),
        Err(CommandError::InvalidImage)
    );
    assert_eq!(
        frame_command("k".to_string(), "bmp", None),
        Err(CommandError::UnsupportedEncoding)
    );
}

#[test]
fn requests_to_controls_without_a_display_come_to_nothing() {
    let layout = layout();
    let protocol = MiraBoxProtocol::for_version(3).expect("valid protocol");
    let nothing: Vec<Vec<u8>> = Vec::new();
    for command in [
        RuntimeCommand::SetRasterFrame {
            control_id: "9,9".to_string(),
            image: vec![0; 70000],
        },
        RuntimeCommand::ClearRaster {
            control_id: "9,9".to_string(),
        },
        RuntimeCommand::Stop,
    ] {
        assert_eq!(
            apply_runtime_command(&protocol, &layout, command),
            Ok(nothing.clone())
        );
    }
    assert_eq!(
        apply_runtime_command(
            &protocol,
            &layout,
            RuntimeCommand::SetRasterFrame {
                control_id: "0,0".to_string(),
                image: vec![0; 65536],
            }
        ),
        Err(ProtocolError::ImageTooLarge)
    );
    let sleep = apply_runtime_command(&protocol, &layout, RuntimeCommand::SleepDevice).unwrap();
    assert!(sleep[0].starts_with(b"\x00CRT\x00\x00HAN"));
    let wake = apply_runtime_command(&protocol, &layout, RuntimeCommand::WakeDevice).unwrap();
    assert!(wake[0].starts_with(b"\x00CRT\x00\x00DIS"));
}

#[test]
fn firmware_is_read_without_zeros() {
    assert_eq!(
        decode_firmware(&firmware_report()).as_deref(),
        Some("V25.MSD_TWO.01.005")
    );
    assert_eq!(decode_firmware(&[]), None);
    assert_eq!(decode_firmware(&[1]), None);
    assert_eq!(decode_firmware(&[1, 0]).as_deref(), Some(""));
    assert_eq!(decode_firmware(&[1, b'a', 0, b'b', 0, 0]).as_deref(), Some("a\0b"));
    assert_eq!(decode_firmware(&[1, b'a', 0xff]).as_deref(), Some("a\u{fffd}"));
    assert_eq!(trim_zeros("ab\0\0"), "ab");
}

#[test]
fn devices_are_taken_into_use() {
    let layouts = vec![layout()];
    let worker = Worker::connect("manager", &layouts, &descriptor(), &firmware_report()).unwrap();
    assert_eq!(worker.device_id, "0B00:1001:0300D0785616");
    assert_eq!(worker.path_key, "66616b652d70617468");
    assert_eq!(worker.layout.name, "MSD_TWO");
    assert_eq!(worker.protocol.protocol_version(), 3);
    let described = worker.descriptor();
    assert_eq!(described.device_id, worker.device_id);
    assert_eq!(described.fingerprint, worker.device_id);
    assert_eq!(worker.on_report(&[]).len(), 0);
    assert_eq!(worker.on_report(&ack_report(1, 0)).len(), 2);
    assert_eq!(worker.on_report(&ack_report(1, 1)).len(), 1);
    assert_eq!(worker.on_report(&ack_report(9, 1)).len(), 0);
    assert_eq!(worker.on_command(RuntimeCommand::Stop), CommandStep::Finish);
    match worker.on_command(RuntimeCommand::ResetDevice) {
        CommandStep::Write(reports) => assert_eq!(reports.len(), 2),
        other => panic!("unexpected step {other:?}"),
    }
    assert_eq!(
        worker.on_command(RuntimeCommand::SetRasterFrame {
            control_id: "0,0".to_string(),
            image: vec![0; 65536],
        }),
        CommandStep::Fail(ProtocolError::ImageTooLarge)
    );
}

#[test]
fn devices_that_cannot_be_used() {
    let layouts = vec![layout()];
    assert_eq!(
        Worker::connect("manager", &layouts, &descriptor(), &[0]).err(),
        Some(ConnectError::FirmwareTooShort)
    );
    assert_eq!(
        Worker::connect("manager", &layouts, &descriptor(), b"\0V99").err(),
        Some(ConnectError::Layout(LayoutError::NoMatch {
            hardware_id: "0B00:1001:0300D0785616".to_string(),
            firmware: "V99".to_string()
        }))
    );
    let mut odd = layout();
    odd.protocol_version = 4;
    assert_eq!(
        Worker::connect("manager", &vec![odd], &descriptor(), &firmware_report()).err(),
        Some(ConnectError::Protocol(ProtocolError::UnsupportedVersion))
    );
}

fn command(cmd: &str, args: Vec<(&str, ArgValue)>) -> InitCommand {
    InitCommand {
        cmd: cmd.to_string(),
        args: ArgValue::Mapping(
            args.into_iter()
                .map(|(name, value)| (name.to_string(), value))
                .collect(),
        ),
    }
}

fn rgb(red: u64, green: u64, blue: u64) -> ArgValue {
    ArgValue::Sequence(vec![
        ArgValue::Unsigned(red),
        ArgValue::Unsigned(green),
        ArgValue::Unsigned(blue),
    ])
}

#[test]
fn layout_commands_become_device_commands() {
    let plain = vec![
        "wake_display",
        "sleep_display",
        "refresh",
        "connect",
        "shutdown_clear",
    ];
    for cmd in plain {
        assert!(layout_command_to_protocol(&command(cmd, vec![])).is_ok());
    }
    let target = |args| match layout_command_to_protocol(&command("clear_key", args)).unwrap() {
        DeviceCommand::ClearKey { target } => target,
        other => panic!("unexpected command {other:?}"),
    };
    assert_eq!(target(vec![]), 0xFF);
    assert_eq!(target(vec![("target", ArgValue::Unsigned(7))]), 7);
    assert_eq!(target(vec![("target", ArgValue::Unsigned(0x1_0000_0002))]), 2);
    assert_eq!(target(vec![("target", ArgValue::Other)]), 0xFF);
    assert!(matches!(
        layout_command_to_protocol(&command("set_brightness", vec![])),
        Ok(DeviceCommand::SetBrightness { value: 100 })
    ));
    assert!(matches!(
        layout_command_to_protocol(&command(
            "set_brightness",
            vec![("value", ArgValue::Unsigned(30))]
        )),
        Ok(DeviceCommand::SetBrightness { value: 30 })
    ));
    assert!(matches!(
        layout_command_to_protocol(&command(
            "set_led_brightness",
            vec![("value", ArgValue::Unsigned(20))]
        )),
        Ok(DeviceCommand::SetLedBrightness { value: 20 })
    ));
    assert!(matches!(
        layout_command_to_protocol(&command("set_mode", vec![("mode", ArgValue::Unsigned(2))])),
        Ok(DeviceCommand::SetMode { mode: 2 })
    ));
    match layout_command_to_protocol(&command(
        "set_led_colors",
        vec![("colors", ArgValue::Sequence(vec![rgb(1, 2, 3), rgb(4, 5, 255)]))],
    ))
    .unwrap()
    {
        DeviceCommand::SetLedColors { colors } => assert_eq!(colors, vec![[1, 2, 3], [4, 5, 255]]),
        other => panic!("unexpected command {other:?}"),
    }
}

#[test]
fn layout_commands_that_cannot_be_sent() {
    let name = |text: &str| text.to_string();
    let colors = |list: Vec<ArgValue>| {
        command("set_led_colors", vec![("colors", ArgValue::Sequence(list))])
    };
    let cases = vec![
        (
            command("dance", vec![]),
            SetupError::UnsupportedCommand { cmd: name("dance") },
        ),
        (
            command("set_mode", vec![]),
            SetupError::MissingArgument { name: name("mode") },
        ),
        (
            command("set_brightness", vec![("value", ArgValue::Unsigned(256))]),
            SetupError::NotAByte { name: name("value") },
        ),
        (
            command("set_led_colors", vec![]),
            SetupError::MissingArgument { name: name("colors") },
        ),
        (
            command("set_led_colors", vec![("colors", ArgValue::Other)]),
            SetupError::NotASequence { name: name("colors") },
        ),
        (
            colors(vec![rgb(1, 2, 3), ArgValue::Other]),
            SetupError::NotATriple { name: name("colors"), index: 1 },
        ),
        (
            colors(vec![ArgValue::Sequence(vec![ArgValue::Unsigned(1)])]),
            SetupError::NotATriple { name: name("colors"), index: 0 },
        ),
        (
            colors(vec![ArgValue::Sequence(vec![
                ArgValue::Unsigned(1),
                ArgValue::Other,
                ArgValue::Unsigned(3),
            ])]),
            SetupError::ComponentNotAnInteger { name: name("colors"), index: 0, component: 1 },
        ),
        (
            colors(vec![rgb(1, 2, 256)]),
            SetupError::ComponentNotAByte { name: name("colors"), index: 0, component: 2 },
        ),
    ];
    for (command, error) in cases {
        assert_eq!(layout_command_to_protocol(&command).err(), Some(error));
    }
}

#[test]
fn sequences_stop_at_the_first_command_that_cannot_be_sent() {
    let protocol = MiraBoxProtocol::for_version(3).expect("valid protocol");
    let good = vec![command("connect", vec![]), command("refresh", vec![])];
    let (batches, error) = run_init_sequence(&protocol, &good);
    assert_eq!(error, None);
    assert_eq!(batches.len(), 2);
    assert!(batches[0][0].starts_with(b"\x00CRT\x00\x00CONNECT"));
    assert!(batches[1][0].starts_with(b"\x00CRT\x00\x00STP"));

    let bad = vec![
        command("connect", vec![]),
        command("set_brightness", vec![("value", ArgValue::Unsigned(101))]),
        command("refresh", vec![]),
    ];
    let (batches, error) = run_init_sequence(&protocol, &bad);
    assert_eq!(batches.len(), 1);
    assert_eq!(
        error,
        Some(SetupError::Protocol(ProtocolError::PercentOutOfRange))
    );
}

#[test]
fn heartbeats_come_when_their_period_is_over() {
    let beat = |period| Heartbeat {
        period,
        commands: Vec::new(),
    };
    let second = 1_000_000_000u64;
    let heartbeats = vec![beat(2), beat(5), beat(u64::MAX)];
    let mut clock = HeartbeatClock::start(&heartbeats, 10 * second);
    assert!(clock.tick(&heartbeats, 12 * second - 1).is_empty());
    assert_eq!(clock.tick(&heartbeats, 12 * second), vec![0]);
    assert!(clock.tick(&heartbeats, 13 * second).is_empty());
    assert_eq!(clock.tick(&heartbeats, 16 * second), vec![0, 1]);
}
