use deckr_mirabox_manager::protocol::{
    DeviceCommand, InteractionEvent, MiraBoxProtocol, ProtocolError,
};

#[test]
fn encodes_wake_display() {
    let protocol = MiraBoxProtocol::for_version(3).expect("valid protocol version");
    let payloads = protocol
        .encode_command(&DeviceCommand::WakeDisplay)
        .expect("command should encode");
    assert_eq!(payloads.len(), 1);
    assert_eq!(&payloads[0][0..9], b"\x00CRT\x00\x00DIS");
    assert_eq!(payloads[0].len(), 1025);
}

#[test]
fn encodes_set_key_image() {
    let protocol = MiraBoxProtocol::for_version(3).expect("valid protocol version");
    let payloads = protocol
        .encode_command(&DeviceCommand::SetKeyImage {
            key: 7,
            image: vec![1, 2, 3],
        })
        .expect("command should encode");
    assert_eq!(payloads.len(), 2);
    assert_eq!(
        &payloads[0][0..14],
        b"\x00CRT\x00\x00BAT\x00\x00\x00\x03\x07"
    );
    assert_eq!(&payloads[1][1..4], &[1, 2, 3]);
}

#[test]
fn parses_ack_events() {
    let protocol = MiraBoxProtocol::for_version(3).expect("valid protocol version");
    let mut report = vec![0; 64];
    report[0..3].copy_from_slice(b"ACK");
    report[8..10].copy_from_slice(&81u16.to_be_bytes());
    report[10] = 1;
    let event = protocol
        .parse_event(&report)
        .expect("parse should succeed")
        .expect("ack should produce an event");
    assert_eq!(
        event,
        InteractionEvent {
            button_id: 81,
            payload: 1,
            supports_release: true
        }
    );
}

#[test]
fn protocol_v1_uses_512_byte_reports() {
    let protocol = MiraBoxProtocol::for_version(1).expect("valid protocol version");
    let payloads = protocol
        .encode_command(&DeviceCommand::SetKeyImage {
            key: 1,
            image: vec![0; 600],
        })
        .expect("command should encode");

    assert_eq!(protocol.packet_size(), 512);
    assert_eq!(
        payloads.iter().map(Vec::len).collect::<Vec<_>>(),
        vec![513, 513, 513]
    );
}

#[test]
fn protocol_v2_uses_1024_byte_reports() {
    let protocol = MiraBoxProtocol::for_version(2).expect("valid protocol version");
    let payloads = protocol
        .encode_command(&DeviceCommand::SetKeyImage {
            key: 1,
            image: vec![0; 600],
        })
        .expect("command should encode");

    assert_eq!(protocol.packet_size(), 1024);
    assert_eq!(
        payloads.iter().map(Vec::len).collect::<Vec<_>>(),
        vec![1025, 1025]
    );
}

#[test]
fn protocol_v3_uses_1024_byte_reports() {
    let protocol = MiraBoxProtocol::for_version(3).expect("valid protocol version");
    let payloads = protocol
        .encode_command(&DeviceCommand::SetKeyImage {
            key: 1,
            image: vec![0; 600],
        })
        .expect("command should encode");

    assert_eq!(protocol.packet_size(), 1024);
    assert_eq!(
        payloads.iter().map(Vec::len).collect::<Vec<_>>(),
        vec![1025, 1025]
    );
}

#[test]
fn encodes_brightness_percent() {
    let protocol = MiraBoxProtocol::for_version(3).expect("valid protocol version");
    let payloads = protocol
        .encode_command(&DeviceCommand::SetBrightness { value: 50 })
        .expect("command should encode");

    assert_eq!(&payloads[0][0..12], b"\x00CRT\x00\x00LIG\x00\x002");
}

#[test]
fn encodes_mode() {
    let protocol = MiraBoxProtocol::for_version(3).expect("valid protocol version");
    let payloads = protocol
        .encode_command(&DeviceCommand::SetMode { mode: 2 })
        .expect("command should encode");

    assert_eq!(&payloads[0][0..12], b"\x00CRT\x00\x00MOD\x00\x002");
}

#[test]
fn encodes_led_commands() {
    let protocol = MiraBoxProtocol::for_version(3).expect("valid protocol version");
    let brightness = protocol
        .encode_command(&DeviceCommand::SetLedBrightness { value: 40 })
        .expect("command should encode");
    let colors = protocol
        .encode_command(&DeviceCommand::SetLedColors {
            colors: vec![[1, 2, 3], [4, 5, 6]],
        })
        .expect("command should encode");

    assert_eq!(&brightness[0][0..12], b"\x00CRT\x00\x00LBLIG(");
    assert_eq!(
        &colors[0][0..17],
        b"\x00CRT\x00\x00SETLB\x01\x02\x03\x04\x05\x06"
    );
}

#[test]
fn encodes_shutdown_clear() {
    let protocol = MiraBoxProtocol::for_version(3).expect("valid protocol version");
    let payloads = protocol
        .encode_command(&DeviceCommand::ShutdownClear)
        .expect("command should encode");

    assert_eq!(&payloads[0][0..13], b"\x00CRT\x00\x00CLE\x00\x00DC");
}

#[test]
fn protocol_v2_synthesizes_press_payload_for_no_release_input_reports() {
    let protocol = MiraBoxProtocol::for_version(2).expect("valid protocol version");
    let mut report = vec![0; 64];
    report[0..3].copy_from_slice(b"ACK");
    report[8..10].copy_from_slice(&81u16.to_be_bytes());
    report[10] = 0;

    let event = protocol
        .parse_event(&report)
        .expect("parse should succeed")
        .expect("ack should produce an event");

    assert_eq!(event.button_id, 81);
    assert_eq!(event.payload, 1);
    assert!(!event.supports_release);
}

#[test]
fn protocol_v3_uses_release_payload_from_input_reports() {
    let protocol = MiraBoxProtocol::for_version(3).expect("valid protocol version");
    let mut report = vec![0; 64];
    report[0..3].copy_from_slice(b"ACK");
    report[8..10].copy_from_slice(&81u16.to_be_bytes());
    report[10] = 0;

    let event = protocol
        .parse_event(&report)
        .expect("parse should succeed")
        .expect("ack should produce an event");

    assert_eq!(event.button_id, 81);
    assert_eq!(event.payload, 0);
    assert!(event.supports_release);
}

#[test]
fn versions_other_than_three_are_refused() {
    for version in [0u8, 4, 255] {
        assert_eq!(
            MiraBoxProtocol::for_version(version).err(),
            Some(ProtocolError::UnsupportedVersion)
        );
    }
    for version in 1u8..=3 {
        let protocol = MiraBoxProtocol::for_version(version).expect("valid protocol version");
        assert_eq!(protocol.protocol_version(), version);
        assert_eq!(protocol.read_size(), 64);
        assert_eq!(protocol.supports_release_events(), version == 3);
    }
}

#[test]
fn values_out_of_range_are_refused() {
    let protocol = MiraBoxProtocol::for_version(3).expect("valid protocol version");
    assert_eq!(
        protocol.encode_command(&DeviceCommand::SetBrightness { value: 101 }),
        Err(ProtocolError::PercentOutOfRange)
    );
    assert_eq!(
        protocol.encode_command(&DeviceCommand::SetLedBrightness { value: 101 }),
        Err(ProtocolError::PercentOutOfRange)
    );
    assert_eq!(
        protocol.encode_command(&DeviceCommand::SetMode { mode: 10 }),
        Err(ProtocolError::ModeOutOfRange)
    );
    assert_eq!(
        protocol.encode_command(&DeviceCommand::SetKeyImage {
            key: 1,
            image: vec![0; 65536],
        }),
        Err(ProtocolError::ImageTooLarge)
    );
    assert!(protocol
        .encode_command(&DeviceCommand::SetKeyImage {
            key: 1,
            image: vec![0; 65535],
        })
        .is_ok());
}

#[test]
fn commands_carry_their_fields() {
    let protocol = MiraBoxProtocol::for_version(1).expect("valid protocol version");
    let cases: Vec<(DeviceCommand, &[u8])> = vec![
        (DeviceCommand::SleepDisplay, b"\x00CRT\x00\x00HAN\x00"),
        (DeviceCommand::Refresh, b"\x00CRT\x00\x00STP\x00"),
        (DeviceCommand::Connect, b"\x00CRT\x00\x00CONNECT\x00"),
        (
            DeviceCommand::ClearKey { target: 0x01020304 },
            b"\x00CRT\x00\x00CLE\x01\x02\x03\x04\x00",
        ),
        (
            DeviceCommand::SetLogo { image: vec![9; 258] },
            b"\x00CRT\x00\x00LOG\x00\x00\x01\x02\x00",
        ),
        (
            DeviceCommand::SetBackgroundImage {
                image: vec![9; 3],
                x: 1,
                y: 2,
                width: 0x0304,
                height: 5,
                frame_buffer: 6,
            },
            b"\x00CRT\x00\x00BGPIC\x00\x00\x00\x03\x00\x01\x00\x02\x03\x04\x00\x05\x00\x06\x00",
        ),
    ];
    for (command, start) in cases {
        let payloads = protocol.encode_command(&command).expect("command should encode");
        assert_eq!(&payloads[0][0..start.len()], start);
    }
}

#[test]
fn images_are_cut_into_reports_and_nothing_is_lost() {
    for version in 1u8..=3 {
        let protocol = MiraBoxProtocol::for_version(version).expect("valid protocol version");
        let size = protocol.packet_size();
        for len in [0usize, 1, size - 1, size, size + 1, 3 * size] {
            let image: Vec<u8> = (0..len).map(|i| (i % 251) as u8 + 1).collect();
            let payloads = protocol
                .encode_command(&DeviceCommand::SetKeyImage {
                    key: 1,
                    image: image.clone(),
                })
                .expect("command should encode");
            let expected = 1 + if len == 0 { 1 } else { (len + size - 1) / size };
            assert_eq!(payloads.len(), expected);
            let mut carried = Vec::new();
            for payload in &payloads[1..] {
                assert_eq!(payload.len(), size + 1);
                assert_eq!(payload[0], 0);
                carried.extend_from_slice(&payload[1..]);
            }
            assert_eq!(&carried[..len], &image[..]);
            assert!(carried[len..].iter().all(|byte| *byte == 0));
        }
    }
}

#[test]
fn reports_that_are_no_acknowledgement_tell_nothing() {
    let protocol = MiraBoxProtocol::for_version(3).expect("valid protocol version");
    assert_eq!(protocol.parse_event(b"ACK\0\0\0\0\0\0\x01"), Ok(None));
    assert_eq!(protocol.parse_event(b"NAK\0\0\0\0\0\0\x01\x01"), Ok(None));
    assert_eq!(
        protocol.parse_event(b"ACK\0\0\0\0\0\x12\x34\x07"),
        Ok(Some(InteractionEvent {
            button_id: 0x1234,
            payload: 7,
            supports_release: true
        }))
    );
}
