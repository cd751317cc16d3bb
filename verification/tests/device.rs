use deckr_mirabox_manager::device::{DeviceAction, DeviceEvent, DeviceLoop, Reason};
use deckr_mirabox_manager::layout::{
    ArgValue, Control, Display, Heartbeat, ImageFormat, InitCommand, KeyEvents, Layout,
};
use deckr_mirabox_manager::protocol::{MiraBoxProtocol, ProtocolError};
use deckr_mirabox_manager::setup::SetupError;
use deckr_mirabox_manager::text_map::TextMap;
use deckr_mirabox_manager::worker::{RuntimeCommand, Worker, WorkerEvent};

const SECOND: u64 = 1_000_000_000;

fn command(cmd: &str) -> InitCommand {
    InitCommand {
        cmd: cmd.to_string(),
        args: ArgValue::Other,
    }
}

fn layout() -> Layout {
    Layout {
        name: "MSD_TWO".to_string(),
        candidate: "vendor_id == 1".to_string(),
        match_expr: "vendor_id == 1".to_string(),
        protocol_version: 3,
        init_sequence: vec![command("wake_display"), command("refresh")],
        teardown_sequence: vec![command("sleep_display")],
        heartbeats: vec![
            Heartbeat {
                period: 5,
                commands: vec![command("connect")],
            },
            Heartbeat {
                period: 10,
                commands: vec![command("refresh"), command("refresh")],
            },
        ],
        controls: vec![Control::Button {
            name: "b".to_string(),
            row: 0,
            column: 0,
            events: KeyEvents {
                key: Some(1),
                press: None,
            },
        }],
        image_config: TextMap::new(),
    }
}

fn worker(layout: &Layout) -> Worker<'_> {
    Worker {
        manager_id: "manager".to_string(),
        device_id: "deck".to_string(),
        path_key: "path".to_string(),
        layout,
        protocol: MiraBoxProtocol::for_version(3).unwrap(),
    }
}

fn groups(action: DeviceAction) -> Vec<Vec<u8>> {
    match action {
        DeviceAction::WriteGroups(groups) => groups
            .into_iter()
            .map(|reports| reports[0][6..9].to_vec())
            .collect(),
        other => panic!("unexpected action {other:?}"),
    }
}

fn ready(layout: &Layout) -> DeviceLoop<'_> {
    let (mut device, action) = DeviceLoop::begin(worker(layout), 7, 0);
    assert_eq!(groups(action), vec![b"DIS".to_vec(), b"STP".to_vec()]);
    let (told, action) = device.on_event(DeviceEvent::Written, SECOND);
    assert_eq!(action, DeviceAction::TakeCommand);
    assert_eq!(told.len(), 1);
    assert!(matches!(&told[0], WorkerEvent::Connected { channel: 7, device_id, .. } if device_id == "deck"));
    device
}

fn quietly(result: (Vec<WorkerEvent>, DeviceAction)) -> DeviceAction {
    assert!(result.0.is_empty());
    result.1
}

fn with_a_farewell(result: (Vec<WorkerEvent>, DeviceAction)) -> DeviceAction {
    assert_eq!(result.0.len(), 1);
    assert!(matches!(&result.0[0], WorkerEvent::Disconnected { path_key, device_id } if path_key == "path" && device_id == "deck"));
    result.1
}

#[test]
fn idle_devices_are_asked_and_heard_in_turn() {
    let layout = layout();
    let mut device = ready(&layout);
    for round in 0..3 {
        let now = SECOND + round;
        assert_eq!(quietly(device.on_event(DeviceEvent::NoCommand, now)), DeviceAction::TakeCommand);
        assert_eq!(quietly(device.on_event(DeviceEvent::NoCommand, now)), DeviceAction::Read);
        assert_eq!(
            quietly(device.on_event(DeviceEvent::Report(Vec::new()), now)),
            DeviceAction::TakeCommand
        );
    }
}

#[test]
fn devices_are_heard() {
    let layout = layout();
    let mut device = ready(&layout);
    device.on_event(DeviceEvent::NoCommand, SECOND);
    device.on_event(DeviceEvent::NoCommand, SECOND);
    let mut report = vec![0; 64];
    report[0..3].copy_from_slice(b"ACK");
    report[9] = 1;
    let (told, action) = device.on_event(DeviceEvent::Report(report), SECOND);
    assert_eq!(action, DeviceAction::TakeCommand);
    assert_eq!(told.len(), 2);
    assert!(told.iter().all(|event| matches!(event, WorkerEvent::Input { device_id, .. } if device_id == "deck")));
}

#[test]
fn heartbeats_are_sent_when_they_are_due() {
    let layout = layout();
    let mut device = ready(&layout);
    let sent = device.on_event(DeviceEvent::NoCommand, 6 * SECOND);
    assert_eq!(groups(quietly(sent)), vec![b"CON".to_vec()]);
    assert_eq!(quietly(device.on_event(DeviceEvent::Written, 6 * SECOND)), DeviceAction::TakeCommand);
    assert_eq!(quietly(device.on_event(DeviceEvent::NoCommand, 6 * SECOND)), DeviceAction::Read);
    device.on_event(DeviceEvent::Report(Vec::new()), 6 * SECOND);
    let sent = device.on_event(DeviceEvent::Closed, 11 * SECOND);
    assert_eq!(
        groups(quietly(sent)),
        vec![b"CON".to_vec(), b"STP".to_vec(), b"STP".to_vec()]
    );
    let sent = device.on_event(DeviceEvent::WriteFailed, 11 * SECOND);
    assert_eq!(quietly(sent), DeviceAction::GiveUp(Reason::Device));
}

#[test]
fn requests_are_served_before_and_after_heartbeats() {
    let layout = layout();
    let mut device = ready(&layout);
    let sleep = || DeviceEvent::Command(RuntimeCommand::SleepDevice);
    match quietly(device.on_event(sleep(), SECOND)) {
        DeviceAction::Write(reports) => assert_eq!(&reports[0][6..9], b"HAN"),
        other => panic!("unexpected action {other:?}"),
    }
    assert_eq!(quietly(device.on_event(DeviceEvent::Written, SECOND)), DeviceAction::TakeCommand);
    assert_eq!(quietly(device.on_event(DeviceEvent::NoCommand, SECOND)), DeviceAction::TakeCommand);
    assert!(matches!(quietly(device.on_event(sleep(), SECOND)), DeviceAction::Write(_)));
    assert_eq!(quietly(device.on_event(DeviceEvent::Written, SECOND)), DeviceAction::Read);
}

#[test]
fn devices_stop_with_their_last_commands() {
    let layout = layout();
    let mut device = ready(&layout);
    let stop = device.on_event(DeviceEvent::Command(RuntimeCommand::Stop), SECOND);
    assert_eq!(groups(quietly(stop)), vec![b"HAN".to_vec()]);
    assert_eq!(quietly(device.on_event(DeviceEvent::Written, SECOND)), DeviceAction::Stop);
    assert_eq!(
        quietly(device.on_event(DeviceEvent::Written, SECOND)),
        DeviceAction::GiveUp(Reason::OutOfTurn)
    );

    let mut device = ready(&layout);
    device.on_event(DeviceEvent::Closed, SECOND);
    let closed = device.on_event(DeviceEvent::Closed, SECOND);
    assert_eq!(groups(quietly(closed)), vec![b"HAN".to_vec()]);
}

#[test]
fn devices_that_are_lost_are_told_of() {
    let layout = layout();
    let mut device = ready(&layout);
    device.on_event(DeviceEvent::NoCommand, SECOND);
    device.on_event(DeviceEvent::NoCommand, SECOND);
    let lost = device.on_event(DeviceEvent::ReadFailed, SECOND);
    assert_eq!(with_a_farewell(lost), DeviceAction::GiveUp(Reason::Device));

    let mut device = ready(&layout);
    device.on_event(DeviceEvent::Command(RuntimeCommand::ResetDevice), SECOND);
    let lost = device.on_event(DeviceEvent::WriteFailed, SECOND);
    assert_eq!(with_a_farewell(lost), DeviceAction::GiveUp(Reason::Device));
}

#[test]
fn requests_that_cannot_be_sent_lose_the_device() {
    let mut layout = layout();
    layout.controls = vec![Control::Screen {
        name: "s".to_string(),
        row: 0,
        column: 0,
        display: Display {
            id: 1,
            format: ImageFormat {
                width: 1,
                height: 1,
                format: "jpeg".to_string(),
                rotation: 0,
            },
        },
    }];
    let mut device = ready(&layout);
    let lost = device.on_event(
        DeviceEvent::Command(RuntimeCommand::SetRasterFrame {
            control_id: "s".to_string(),
            image: vec![0; 65536],
        }),
        SECOND,
    );
    assert_eq!(
        with_a_farewell(lost),
        DeviceAction::GiveUp(Reason::Command(ProtocolError::ImageTooLarge))
    );
}

#[test]
fn layouts_that_cannot_be_sent_are_given_up() {
    let mut odd = layout();
    odd.init_sequence.push(command("explode"));
    let (mut device, action) = DeviceLoop::begin(worker(&odd), 7, 0);
    assert_eq!(groups(action).len(), 2);
    assert_eq!(
        quietly(device.on_event(DeviceEvent::Written, 0)),
        DeviceAction::GiveUp(Reason::Setup(SetupError::UnsupportedCommand {
            cmd: "explode".to_string()
        }))
    );

    let (mut device, _) = DeviceLoop::begin(worker(&odd), 7, 0);
    assert_eq!(
        quietly(device.on_event(DeviceEvent::WriteFailed, 0)),
        DeviceAction::GiveUp(Reason::Device)
    );

    let mut odd = layout();
    odd.heartbeats[0].commands = vec![command("set_mode")];
    let mut device = ready(&odd);
    let sent = device.on_event(DeviceEvent::NoCommand, 20 * SECOND);
    assert_eq!(groups(quietly(sent)).len(), 0);
    assert_eq!(
        quietly(device.on_event(DeviceEvent::Written, 20 * SECOND)),
        DeviceAction::GiveUp(Reason::Setup(SetupError::MissingArgument {
            name: "mode".to_string()
        }))
    );
}
