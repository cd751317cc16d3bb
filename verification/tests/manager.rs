use deckr_mirabox_manager::discovery::{canonical_devices, usage_page, Supervisor};
use deckr_mirabox_manager::json::JsonValue;
use deckr_mirabox_manager::lanes::{DeviceDescriptor, DeviceRef, HardwareMessageBody};
use deckr_mirabox_manager::layout::{HidDeviceCandidate, Layout};
use deckr_mirabox_manager::manager::{
    is_concord_refresh_race, is_participant, lease_outcome, next_backoff, Admission, ClaimScan,
    ClaimTerms, DropReason, InboundMessage, Lease, LeaseAction, LeaseOutcome, ManagerAction, ManagerState,
};
use deckr_mirabox_manager::routing::ClaimRoute;
use deckr_mirabox_manager::text_map::{TextMap, TextSet};
use deckr_mirabox_manager::worker::{RuntimeCommand, WorkerEvent};

fn device(id: &str, fingerprint: &str) -> DeviceDescriptor {
    DeviceDescriptor {
        device_id: id.to_string(),
        fingerprint: fingerprint.to_string(),
        display_name: "MiraBox".to_string(),
        manufacturer: Some("MiraBox".to_string()),
        model: Some("MiraBox".to_string()),
        serial_number: Some("deck".to_string()),
        controls: Vec::new(),
        capabilities: Vec::new(),
    }
}

fn connected(id: &str, channel: u64) -> WorkerEvent {
    WorkerEvent::Connected {
        path_key: format!("path-{id}"),
        device_id: id.to_string(),
        channel,
        device: device(id, id),
    }
}

fn disconnected(id: &str) -> WorkerEvent {
    WorkerEvent::Disconnected {
        path_key: format!("path-{id}"),
        device_id: id.to_string(),
    }
}

fn manager() -> ManagerState {
    ManagerState::new("mirabox-main".to_string(), "manager-session".to_string())
}

fn device_ref(manager_id: &str) -> DeviceRef {
    DeviceRef {
        manager_id: manager_id.to_string(),
        device_id: "deck".to_string(),
        fingerprint: None,
    }
}

fn set_frame() -> HardwareMessageBody {
    HardwareMessageBody::ControlCommand {
        device_ref: device_ref("mirabox-main"),
        control_id: Some("0,0".to_string()),
        capability_id: "raster.bitmap".to_string(),
        command_type: "set_frame".to_string(),
        params: vec![
            ("image".to_string(), JsonValue::Text("b2s=".to_string())),
            ("encoding".to_string(), JsonValue::Text("jpeg".to_string())),
        ],
    }
}

fn command_from(controller: &str, session: &str) -> InboundMessage {
    InboundMessage {
        lane: "hardware_messages".to_string(),
        expired: false,
        body: Some(set_frame()),
        subject_device_id: Some("deck".to_string()),
        subject_manager_id: Some("mirabox-main".to_string()),
        recipient_endpoint: Some("hardware_manager:mirabox-main".to_string()),
        sender: format!("controller:{controller}"),
        sender_session_id: session.to_string(),
    }
}

fn route(endpoint: &str, session: &str) -> ClaimRoute {
    ClaimRoute {
        controller_endpoint: endpoint.to_string(),
        controller_session_id: session.to_string(),
        contract_key: "contracts.claim.1.meta".to_string(),
        claim_id: "claim-1".to_string(),
    }
}

fn claimed_manager() -> ManagerState {
    let mut state = manager();
    state.on_worker_event(connected("deck", 7));
    let mut routes = TextMap::new();
    routes.insert("deck".to_string(), route("controller:main", "s1"));
    state.reconcile_routes(routes, TextSet::new());
    state
}

#[test]
fn hardware_advertisement_payload_uses_deckr_profile_api() {
    let mut state = manager();
    state.on_worker_event(WorkerEvent::Connected {
        path_key: "path".to_string(),
        device_id: "deck".to_string(),
        channel: 1,
        device: device("deck", "fingerprint:deck"),
    });

    let payload = state.hardware_payload().unwrap();

    assert_eq!(payload.manager_id, "mirabox-main");
    let advertised = payload.devices.get("deck").unwrap();
    assert_eq!(advertised.device_ref.manager_id, "mirabox-main");
    assert_eq!(
        advertised.device_ref.fingerprint.as_deref(),
        Some("fingerprint:deck")
    );
    assert_eq!(advertised.capacity.total_instances, 1);
    assert_eq!(advertised.capacity.claimed_instances, 0);
    assert_eq!(advertised.capacity.available_instances, 1);
    assert_eq!(
        payload.manager_endpoint.address,
        "hardware_manager:mirabox-main"
    );
    assert_eq!(payload.session_id, "manager-session");
}

#[test]
fn managers_without_an_address_advertise_nothing() {
    let state = ManagerState::new("a:b".to_string(), "s".to_string());
    assert!(state.hardware_payload().is_none());
}

#[test]
fn concord_token_loss_invalidates_manager_authority_without_resurrection() {
    let mut shared = manager();
    let key = "contract-1";

    assert_eq!(shared.begin_lease(key, false), LeaseAction::Attach);
    shared.end_lease(key, LeaseOutcome::Attached);
    assert_eq!(
        shared.lease(key),
        Some(Lease {
            has_token: true,
            lost_authority: false
        })
    );

    assert_eq!(shared.begin_lease(key, true), LeaseAction::Refresh);
    assert!(!is_concord_refresh_race(None));
    shared.end_lease(key, LeaseOutcome::RefreshFailed);

    assert_eq!(shared.begin_lease(key, false), LeaseAction::Nothing);
    assert_eq!(shared.begin_lease(key, true), LeaseAction::Nothing);
    let lease = shared.lease(key).unwrap();
    assert!(lease.lost_authority);
    assert!(!lease.has_token);
}

#[test]
fn tokens_of_another_life_are_not_taken() {
    let mut shared = manager();
    assert_eq!(shared.begin_lease("old", true), LeaseAction::Nothing);
    assert!(shared.lease("old").unwrap().lost_authority);
    assert_eq!(shared.lease("other"), None);

    assert_eq!(shared.begin_lease("new", false), LeaseAction::Attach);
    shared.end_lease("new", LeaseOutcome::AttachFailed);
    assert_eq!(shared.lease("new"), None);
    assert_eq!(shared.begin_lease("new", false), LeaseAction::Attach);
    shared.end_lease("new", LeaseOutcome::Attached);
    assert_eq!(shared.begin_lease("new", true), LeaseAction::Refresh);
    shared.end_lease("new", LeaseOutcome::Raced);
    assert!(shared.lease("new").unwrap().has_token);
    shared.end_lease("new", LeaseOutcome::Refreshed);
    assert!(shared.lease("new").unwrap().has_token);
}

#[test]
fn races_are_told_from_failures() {
    assert!(is_concord_refresh_race(Some("key x: revision changed to 3")));
    assert!(!is_concord_refresh_race(Some("key x is gone")));
    assert!(!is_concord_refresh_race(None));
}

#[test]
fn command_routing_requires_claiming_controller() {
    let state = claimed_manager();

    let wrong = command_from("other", "s1");
    assert_eq!(
        state.route_inbound_command(wrong),
        Admission::Drop(DropReason::NotTheClaimant)
    );

    let right = command_from("main", "s1");
    assert!(matches!(
        state.route_inbound_command(right),
        Admission::Deliver {
            channel: 7,
            command: RuntimeCommand::SetRasterFrame { .. }
        }
    ));
}

#[test]
fn messages_are_dropped_for_a_reason() {
    let state = claimed_manager();
    let message = || command_from("main", "s1");
    let cases = vec![
        (
            InboundMessage { lane: "other".to_string(), ..message() },
            DropReason::OtherLane,
        ),
        (InboundMessage { expired: true, ..message() }, DropReason::Expired),
        (InboundMessage { body: None, ..message() }, DropReason::UnreadableBody),
        (
            InboundMessage {
                body: Some(HardwareMessageBody::DeviceUnavailable {
                    device_ref: device_ref("mirabox-main"),
                    reason: None,
                }),
                ..message()
            },
            DropReason::NotACommand,
        ),
        (InboundMessage { subject_device_id: None, ..message() }, DropReason::NoDevice),
        (InboundMessage { subject_manager_id: None, ..message() }, DropReason::NoManager),
        (
            InboundMessage {
                body: Some(HardwareMessageBody::ControlCommand {
                    device_ref: device_ref("mirabox-main"),
                    control_id: None,
                    capability_id: "x".to_string(),
                    command_type: "y".to_string(),
                    params: Vec::new(),
                }),
                ..message()
            },
            DropReason::UnsupportedCommand,
        ),
        (
            InboundMessage { recipient_endpoint: None, ..message() },
            DropReason::OtherRecipient,
        ),
        (
            InboundMessage {
                recipient_endpoint: Some("hardware_manager:other".to_string()),
                ..message()
            },
            DropReason::OtherRecipient,
        ),
        (
            InboundMessage { subject_manager_id: Some("other".to_string()), ..message() },
            DropReason::OtherManager,
        ),
        (
            InboundMessage { subject_device_id: Some("other".to_string()), ..message() },
            DropReason::UnknownDevice,
        ),
        (command_from("main", "s2"), DropReason::NotTheClaimant),
    ];
    for (message, reason) in cases {
        assert_eq!(state.route_inbound_command(message), Admission::Drop(reason));
    }
}

#[test]
fn devices_come_and_go() {
    let mut state = manager();
    assert_eq!(state.manager_id(), "mirabox-main");
    assert_eq!(state.session_id(), "manager-session");
    assert_eq!(state.endpoint(), "hardware_manager:mirabox-main");
    assert_eq!(state.advertisement_id(), "hardware-mirabox-main-manager-session");
    let actions = state.on_worker_event(connected("deck", 7));
    assert_eq!(actions.len(), 2);
    assert_eq!(actions[0], ManagerAction::Advertise);
    match &actions[1] {
        ManagerAction::Publish(message) => {
            assert_eq!(message.manager_id, "mirabox-main");
            assert_eq!(message.session_id, "manager-session");
            assert_eq!(message.device_id, "deck");
            assert_eq!(message.recipient, None);
            assert_eq!(
                message.body,
                HardwareMessageBody::DeviceAvailable { descriptor: device("deck", "deck") }
            );
        }
        other => panic!("unexpected action {other:?}"),
    }
    assert!(state.known_devices().contains("deck"));
    let actions = state.on_worker_event(disconnected("deck"));
    assert_eq!(actions[0], ManagerAction::Advertise);
    match &actions[1] {
        ManagerAction::Publish(message) => assert_eq!(
            message.body,
            HardwareMessageBody::DeviceUnavailable {
                device_ref: device_ref("mirabox-main"),
                reason: Some("disconnected".to_string()),
            }
        ),
        other => panic!("unexpected action {other:?}"),
    }
    assert_eq!(state.known_devices().len(), 0);
    let actions = state.on_worker_event(WorkerEvent::Failed {
        path_key: "path".to_string(),
        error: "broken".to_string(),
    });
    assert!(actions.is_empty());
}

fn input() -> WorkerEvent {
    WorkerEvent::Input {
        device_id: "deck".to_string(),
        body: HardwareMessageBody::ControlInput {
            device_ref: device_ref("mirabox-main"),
            control_id: "0,0".to_string(),
            capability_id: "button.press".to_string(),
            event_type: "press".to_string(),
            value: None,
        },
    }
}

#[test]
fn input_goes_to_the_claiming_session() {
    let mut state = manager();
    state.on_worker_event(connected("deck", 7));
    assert!(state.on_worker_event(input()).is_empty());

    let mut state = claimed_manager();
    let actions = state.on_worker_event(input());
    assert_eq!(actions.len(), 1);
    match &actions[0] {
        ManagerAction::Publish(message) => {
            assert_eq!(
                message.recipient,
                Some(("controller:main".to_string(), "s1".to_string()))
            );
            assert_eq!(message.session_id, "manager-session");
        }
        other => panic!("unexpected action {other:?}"),
    }
    let not_input = WorkerEvent::Input {
        device_id: "deck".to_string(),
        body: set_frame(),
    };
    assert!(state.on_worker_event(not_input).is_empty());

    state.on_worker_event(disconnected("deck"));
    assert!(state.on_worker_event(input()).is_empty());
    assert_eq!(
        state.route_inbound_command(command_from("main", "s1")),
        Admission::Drop(DropReason::UnknownDevice)
    );
}

fn terms(claim_id: &str, devices: Vec<&str>) -> ClaimTerms {
    ClaimTerms {
        claim_id: claim_id.to_string(),
        controller_endpoint: "controller:main".to_string(),
        manager_endpoint: "hardware_manager:mirabox-main".to_string(),
        manager_advertisement_id: "hardware-mirabox-main-manager-session".to_string(),
        device_ids: devices.into_iter().map(str::to_string).collect(),
    }
}

#[test]
fn contracts_route_the_devices_that_are_there() {
    let mut state = manager();
    state.on_worker_event(connected("a", 1));
    state.on_worker_event(connected("b", 2));
    state.on_worker_event(connected("c", 3));

    let mut scan = ClaimScan::new(state.known_devices());
    scan.add_contract("k1", &terms("1", vec!["a", "gone"]), true, Some("s1"));
    scan.add_contract("k2", &terms("2", vec!["a", "b"]), false, Some("s1"));
    scan.add_contract("k3", &terms("3", vec!["c"]), true, None);
    let resets = state.reconcile(scan);
    assert_eq!(resets, vec![("b".to_string(), 2)]);
    let command = |device: &str| InboundMessage {
        subject_device_id: Some(device.to_string()),
        ..command_from("main", "s1")
    };
    assert!(matches!(
        state.route_inbound_command(command("a")),
        Admission::Deliver { channel: 1, .. }
    ));
    assert_eq!(
        state.route_inbound_command(command("c")),
        Admission::Drop(DropReason::NotTheClaimant)
    );

    let mut scan = ClaimScan::new(state.known_devices());
    scan.add_contract("k1", &terms("1", vec!["a"]), true, Some("s2"));
    assert_eq!(state.reconcile(scan), vec![("a".to_string(), 1)]);

    let scan = ClaimScan::new(state.known_devices());
    assert_eq!(state.reconcile(scan), vec![("a".to_string(), 1)]);
}

#[test]
fn terms_are_about_one_advertisement_of_one_manager() {
    let terms = terms("1", vec![]);
    let endpoint = "hardware_manager:mirabox-main";
    let advertisement = "hardware-mirabox-main-manager-session";
    assert!(ClaimScan::concerns(&terms, endpoint, advertisement));
    assert!(!ClaimScan::concerns(&terms, "hardware_manager:other", advertisement));
    assert!(!ClaimScan::concerns(&terms, endpoint, "hardware-mirabox-main-old"));
}

#[test]
fn participants_are_named() {
    let participants = vec!["controller:main".to_string(), "hardware_manager:m".to_string()];
    assert!(is_participant(&participants, "hardware_manager:m"));
    assert!(!is_participant(&participants, "hardware_manager"));
    assert!(!is_participant(&Vec::new(), "hardware_manager:m"));
}

#[test]
fn usage_pages_are_told_by_some_platforms() {
    assert_eq!(usage_page(true, 65440), Some(65440));
    assert_eq!(usage_page(true, 0), None);
    assert_eq!(usage_page(false, 65440), None);
}

#[test]
fn failures_wait_longer_and_longer() {
    let mut waits = vec![1];
    for _ in 0..5 {
        waits.push(next_backoff(*waits.last().unwrap()));
    }
    assert_eq!(waits, vec![1, 2, 4, 8, 10, 10]);
    assert_eq!(next_backoff(u64::MAX), 10);
}

fn row(path: &[u8], serial: &str, interface: Option<i32>, usage_page: Option<u16>) -> HidDeviceCandidate {
    HidDeviceCandidate {
        path: path.to_vec(),
        vendor_id: 2816,
        product_id: 4097,
        serial_number: serial.to_string(),
        usage_page,
        usage: None,
        interface_number: interface,
    }
}

fn layouts() -> Vec<Layout> {
    vec![Layout {
        name: "MSD_TWO".to_string(),
        candidate: "vendor_id == 2816 and product_id == 4097 and usage_page != 1".to_string(),
        match_expr: "search(\"MSD_TWO\", firmware)".to_string(),
        protocol_version: 3,
        init_sequence: Vec::new(),
        teardown_sequence: Vec::new(),
        heartbeats: Vec::new(),
        controls: Vec::new(),
        image_config: TextMap::new(),
    }]
}

#[test]
fn discovery_filters_non_candidate_hid_rows() {
    let rows = vec![
        row(b"fake-path", "0300D0785616", Some(0), None),
        row(b"keyboard", "0300D0785616", Some(1), Some(1)),
    ];
    let descriptors = canonical_devices(&layouts(), &rows);
    assert_eq!(descriptors.len(), 1);
    assert_eq!(descriptors[0].path, b"fake-path");
}

#[test]
fn every_device_has_one_entry() {
    let rows = vec![
        row(b"z2", "two", Some(1), None),
        row(b"z1", "two", Some(0), None),
        row(b"b", "one", None, None),
        row(b"c", "one", Some(5), Some(9)),
        row(b"a", "one", Some(5), None),
        row(b"m", "three", Some(0), Some(7)),
        row(b"m", "three", Some(0), Some(8)),
        row(b"k", "four", Some(0), Some(1)),
    ];
    let devices = canonical_devices(&layouts(), &rows);
    let found: Vec<(&[u8], Option<u16>)> = devices
        .iter()
        .map(|device| (device.path.as_slice(), device.usage_page))
        .collect();
    assert_eq!(
        found,
        vec![
            (b"a".as_slice(), None),
            (b"m".as_slice(), Some(7)),
            (b"z1".as_slice(), None)
        ]
    );
}

#[test]
fn devices_are_launched_once() {
    let devices = vec![
        row(b"a", "1", None, None),
        row(b"b", "2", None, None),
        row(b"a", "3", None, None),
    ];
    let mut supervisor = Supervisor::new();
    assert_eq!(supervisor.on_discovery(&devices), vec![0, 1]);
    assert!(supervisor.on_discovery(&devices).is_empty());
    supervisor.on_event(&WorkerEvent::Connected {
        path_key: "61".to_string(),
        device_id: "a".to_string(),
        channel: 1,
        device: device("a", "a"),
    });
    assert!(supervisor.on_discovery(&devices).is_empty());
    supervisor.on_event(&WorkerEvent::Failed {
        path_key: "62".to_string(),
        error: "broken".to_string(),
    });
    assert_eq!(supervisor.on_discovery(&devices), vec![1]);
    supervisor.on_event(&WorkerEvent::Disconnected {
        path_key: "61".to_string(),
        device_id: "a".to_string(),
    });
    supervisor.on_event(&input());
    assert_eq!(supervisor.on_discovery(&devices), vec![0]);
}

#[test]
fn only_contracts_that_count_are_considered() {
    let endpoint = "hardware_manager:mirabox-main";
    let advertisement = "hardware-mirabox-main-manager-session";
    let takes_part = vec!["controller:main".to_string(), endpoint.to_string()];
    let elsewhere = vec!["controller:main".to_string(), "hardware_manager:other".to_string()];
    let mut state = manager();
    state.on_worker_event(connected("a", 1));
    state.on_worker_event(connected("b", 2));
    state.on_worker_event(connected("c", 3));

    let mut scan = ClaimScan::new(state.known_devices());
    let mut stale = terms("4", vec!["c"]);
    stale.manager_advertisement_id = "hardware-mirabox-main-old".to_string();
    let mut foreign = terms("5", vec!["c"]);
    foreign.manager_endpoint = "hardware_manager:other".to_string();
    let s1 = Some("s1");
    scan.consider(&takes_part, endpoint, advertisement, "k1", &terms("1", vec!["a"]), true, s1);
    scan.consider(&elsewhere, endpoint, advertisement, "k2", &terms("2", vec!["b"]), true, s1);
    scan.consider(&elsewhere, endpoint, advertisement, "k3", &terms("3", vec!["b"]), false, s1);
    scan.consider(&takes_part, endpoint, advertisement, "k4", &stale, true, s1);
    scan.consider(&takes_part, endpoint, advertisement, "k5", &foreign, false, s1);
    assert!(state.reconcile(scan).is_empty());
    let command = |device: &str| InboundMessage {
        subject_device_id: Some(device.to_string()),
        ..command_from("main", "s1")
    };
    assert!(matches!(
        state.route_inbound_command(command("a")),
        Admission::Deliver { channel: 1, .. }
    ));
    for device in ["b", "c"] {
        assert_eq!(
            state.route_inbound_command(command(device)),
            Admission::Drop(DropReason::NotTheClaimant)
        );
    }

    let mut scan = ClaimScan::new(state.known_devices());
    scan.consider(&takes_part, endpoint, advertisement, "k1", &terms("1", vec!["a"]), true, s1);
    scan.consider(&takes_part, endpoint, advertisement, "k6", &terms("6", vec!["b"]), false, s1);
    assert_eq!(state.reconcile(scan), vec![("b".to_string(), 2)]);
}

#[test]
fn outcomes_of_looking_after_a_token() {
    let raced = Some("key x: revision changed to 3");
    for conflict in [None, Some("key x is gone"), raced] {
        assert_eq!(lease_outcome(LeaseAction::Attach, true, conflict), LeaseOutcome::Attached);
        assert_eq!(lease_outcome(LeaseAction::Attach, false, conflict), LeaseOutcome::AttachFailed);
        assert_eq!(lease_outcome(LeaseAction::Refresh, true, conflict), LeaseOutcome::Refreshed);
    }
    assert_eq!(lease_outcome(LeaseAction::Refresh, false, raced), LeaseOutcome::Raced);
    assert_eq!(
        lease_outcome(LeaseAction::Refresh, false, Some("key x is gone")),
        LeaseOutcome::RefreshFailed
    );
    assert_eq!(lease_outcome(LeaseAction::Refresh, false, None), LeaseOutcome::RefreshFailed);
}
