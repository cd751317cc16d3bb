use deckr_mirabox_manager::lanes::DeviceDescriptor;
use deckr_mirabox_manager::state::{
    controller_presence_prefix, decode_key_token, device_claim_prefix, encode_key_token,
    hardware_inventory_key, hardware_manager_address, parse_device_claim_key,
    parse_presence_endpoint_key, presence_endpoint_key, timestamp_at, timestamp_now, EndpointAddress,
    EndpointPresence, HardwareInventory, HardwareInventoryDevice, STATE_TTL_SECONDS, VERSION,
};
use deckr_mirabox_manager::text_map::TextMap;

#[test]
fn key_tokens_match_deckr_rules() {
    assert_eq!(encode_key_token("deck_1"), "deck_1");
    assert_eq!(decode_key_token("deck_1").unwrap(), "deck_1");

    let encoded = encode_key_token("b64_native");
    assert!(encoded.starts_with("b64_"));
    assert_eq!(decode_key_token(&encoded).unwrap(), "b64_native");

    let encoded = encode_key_token("deck:one");
    assert!(encoded.starts_with("b64_"));
    assert_eq!(decode_key_token(&encoded).unwrap(), "deck:one");
}

#[test]
fn key_shapes_match_deckr_current_state() {
    assert_eq!(
        presence_endpoint_key("hardware_messages", "hardware_manager:mirabox-main").unwrap(),
        "presence.endpoint.hardware_messages.hardware_manager.mirabox-main"
    );
    assert_eq!(
        presence_endpoint_key("services", "action_provider:python-dev.deckr.sonos").unwrap(),
        "presence.endpoint.services.action_provider.b64_cHl0aG9uLWRldi5kZWNrci5zb25vcw"
    );
    assert_eq!(
        hardware_inventory_key("mirabox-main"),
        "inventory.hardware.mirabox-main"
    );
    assert_eq!(
        device_claim_prefix("mirabox-main"),
        "claim.device.mirabox-main."
    );
    assert_eq!(
        parse_device_claim_key("claim.device.mirabox-main.deck").unwrap(),
        ("mirabox-main".to_string(), "deck".to_string())
    );
}

#[test]
fn endpoint_addresses_follow_core_family_rules() {
    assert!(EndpointAddress::parse("controller:main").is_some());
    assert!(EndpointAddress::parse("service:sonos-home").is_some());
    assert!(EndpointAddress::parse("action_provider:python-dev.deckr.sonos").is_some());
    assert!(EndpointAddress::parse("driver:mirabox-main").is_none());
    assert!(EndpointAddress::parse("controller:").is_none());
    assert!(EndpointAddress::parse("controller: main").is_none());
    assert!(EndpointAddress::parse("action_provider:dev.deckr.controller.builtin").is_none());
}

#[test]
fn addresses_fall_into_family_and_id() {
    let address = EndpointAddress::parse("hardware_manager:mirabox-main").unwrap();
    assert_eq!(address.address, "hardware_manager:mirabox-main");
    assert_eq!(address.family, "hardware_manager");
    assert_eq!(address.endpoint_id, "mirabox-main");
    for refused in [
        "",
        "controller",
        " controller:main",
        "controller:main\u{3000}",
        "controller:a:b",
        "action_provider:-x",
        "action_provider:a b",
    ] {
        assert!(EndpointAddress::parse(refused).is_none(), "{}", refused);
    }
    assert!(EndpointAddress::parse("controller:a b").is_some());
}

#[test]
fn tokens_stand_for_every_text() {
    for raw in ["", "deck", "a.b", "b64_", "-x", "_x", "x_-", "größe", "deck\n", "日本"] {
        let token = encode_key_token(raw);
        assert!(!token.is_empty());
        assert!(!token.contains('.'));
        assert_eq!(decode_key_token(&token).as_deref(), Some(raw));
    }
    assert_eq!(encode_key_token(""), "b64_");
    assert_eq!(encode_key_token("a.b"), "b64_YS5i");
    assert_eq!(encode_key_token("deck\n"), "b64_ZGVjawo");
}

#[test]
fn tokens_that_stand_for_nothing() {
    assert_eq!(decode_key_token("b64_*"), None);
    assert_eq!(decode_key_token("b64_YQ=="), None);
    assert_eq!(decode_key_token("b64_gA"), None);
}

#[test]
fn presence_keys_tell_lane_and_endpoint() {
    for (lane, endpoint) in [
        ("hardware_messages", "controller:main"),
        ("a.b", "service:x y"),
        ("", "action_provider:a.b"),
    ] {
        let key = presence_endpoint_key(lane, endpoint).unwrap();
        let (found_lane, found) = parse_presence_endpoint_key(&key).unwrap();
        assert_eq!(found_lane, lane);
        assert_eq!(found.address, endpoint);
    }
    assert!(presence_endpoint_key("lane", "nobody").is_none());
    for key in [
        "presence.endpoint.lane.controller",
        "presence.endpoint.lane.controller.main.more",
        "presence.other.lane.controller.main",
        "presence.endpoint.lane.driver.main",
        "presence.endpoint.b64_*.controller.main",
    ] {
        assert!(parse_presence_endpoint_key(key).is_none(), "{}", key);
    }
}

#[test]
fn controllers_lie_under_their_prefix() {
    assert_eq!(
        controller_presence_prefix(),
        "presence.endpoint.hardware_messages.controller."
    );
    let key = presence_endpoint_key("hardware_messages", "controller:a.b").unwrap();
    assert!(key.starts_with(&controller_presence_prefix()));
}

#[test]
fn claim_keys_tell_manager_and_device() {
    for (manager, device) in [("mirabox-main", "deck"), ("a.b", "0B00:1001:x"), ("", "")] {
        let key = format!("{}{}", device_claim_prefix(manager), encode_key_token(device));
        assert_eq!(
            parse_device_claim_key(&key),
            Some((manager.to_string(), device.to_string()))
        );
    }
    assert_eq!(parse_device_claim_key("claim.device.m"), None);
    assert_eq!(parse_device_claim_key("claim.other.m.d"), None);
    assert_eq!(parse_device_claim_key("claim.device.m.d.e"), None);
}

#[test]
fn managers_have_addresses() {
    assert_eq!(
        hardware_manager_address("mirabox-main"),
        "hardware_manager:mirabox-main"
    );
}

#[test]
fn timestamps_are_in_utc() {
    let now = timestamp_now();
    assert_eq!(now.len(), 20);
    assert!(now.ends_with('Z'));
}

#[test]
fn presence_of_a_manager() {
    let presence = EndpointPresence::manager("mirabox-main", "session");
    assert_eq!(presence.endpoint, "hardware_manager:mirabox-main");
    assert_eq!(presence.lane, "hardware_messages");
    assert_eq!(presence.session_id, "session");
    assert_eq!(presence.ttl_seconds, STATE_TTL_SECONDS);
    assert_eq!(
        presence.metadata.get("runtime").map(String::as_str),
        Some("deckr-mirabox-manager")
    );
    assert_eq!(
        presence.metadata.get("version").map(String::as_str),
        Some(VERSION)
    );
    assert_eq!(presence.metadata.len(), 2);
    let dated = EndpointPresence::manager_at("m", "s", "2026-04-29T00:00:00Z".to_string());
    assert_eq!(dated.timestamp, "2026-04-29T00:00:00Z");
}

#[test]
fn inventory_of_a_manager() {
    let device = DeviceDescriptor {
        device_id: "deck".to_string(),
        fingerprint: "print".to_string(),
        display_name: "MiraBox".to_string(),
        manufacturer: None,
        model: None,
        serial_number: None,
        controls: Vec::new(),
        capabilities: Vec::new(),
    };
    let entry = HardwareInventoryDevice::from_device("mirabox-main", &device);
    assert_eq!(entry.device_ref.manager_id, "mirabox-main");
    assert_eq!(entry.device_ref.device_id, "deck");
    assert_eq!(entry.device_ref.fingerprint.as_deref(), Some("print"));
    assert_eq!(entry.descriptor, device);
    let mut devices = TextMap::new();
    devices.insert("deck".to_string(), entry);
    let inventory = HardwareInventory::new("mirabox-main", "session", devices);
    assert_eq!(inventory.manager_id, "mirabox-main");
    assert_eq!(inventory.manager_endpoint, "hardware_manager:mirabox-main");
    assert_eq!(inventory.session_id, "session");
    assert!(inventory.labels.is_empty());
    assert!(inventory.devices.contains_key("deck"));
    assert!(inventory.timestamp.ends_with('Z'));
}

#[test]
fn timestamps_tell_the_second() {
    assert_eq!(timestamp_at((0, 0)), "1970-01-01T00:00:00Z");
    assert_eq!(timestamp_at((1_777_204_800, 999_999_999)), "2026-04-26T12:00:00Z");
    assert_eq!(timestamp_at((253_402_300_799, 0)), "9999-12-31T23:59:59Z");
    assert_eq!(timestamp_at((253_402_300_800, 0)), "+10000-01-01T00:00:00Z");
    assert_eq!(timestamp_at((-1, 0)), "1969-12-31T23:59:59Z");
    assert_eq!(timestamp_at((59, 1_000_000_000)), "1970-01-01T00:00:60Z");
    assert!(timestamp_now().as_str() > "2020-01-01T00:00:00Z");
}

#[test]
fn key_tokens_keep_to_an_alphabet() {
    for raw in ["deck_1", "b64_native", "deck:one", "a.b", "", "\u{e9}t\u{e9}", "??>>~~", "a b/c+d"] {
        let token = encode_key_token(raw);
        assert!(!token.is_empty());
        assert!(
            token.chars().all(|c| c.is_ascii_alphanumeric() || c == '-' || c == '_'),
            "{}",
            token
        );
        assert_eq!(decode_key_token(&token).unwrap(), raw);
    }
}
