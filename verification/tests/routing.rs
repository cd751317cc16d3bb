use deckr_mirabox_manager::routing::{ClaimRoute, ClaimRoutes, RoutingState};
use deckr_mirabox_manager::state::DeviceClaim;
use deckr_mirabox_manager::text_map::{TextMap, TextSet};

fn claim(endpoint: &str, session: &str) -> DeviceClaim {
    DeviceClaim {
        claimed_by_endpoint: endpoint.to_string(),
        claimed_by_session_id: session.to_string(),
        timestamp: "2026-04-29T00:00:00Z".to_string(),
        ttl_seconds: 15,
    }
}

fn claims(entries: Vec<(&str, DeviceClaim)>) -> TextMap<DeviceClaim> {
    let mut map = TextMap::new();
    for (device, claim) in entries {
        map.insert(device.to_string(), claim);
    }
    map
}

fn sessions(entries: Vec<(&str, &str)>) -> TextMap<String> {
    let mut map = TextMap::new();
    for (endpoint, session) in entries {
        map.insert(endpoint.to_string(), session.to_string());
    }
    map
}

fn devices(names: Vec<&str>) -> TextSet {
    let mut set = TextSet::new();
    for name in names {
        set.insert(name.to_string());
    }
    set
}

#[test]
fn claim_requires_matching_controller_presence() {
    let mut routing = RoutingState::default();
    routing.reconcile_snapshot(
        claims(vec![("deck", claim("controller:main", "s1"))]),
        sessions(vec![]),
        TextSet::new(),
    );
    assert_eq!(routing.claim_recipient("deck"), None);

    routing.reconcile_snapshot(
        claims(vec![("deck", claim("controller:main", "s1"))]),
        sessions(vec![("controller:main", "s1")]),
        TextSet::new(),
    );
    assert_eq!(routing.claim_recipient("deck"), Some("controller:main"));
}

#[test]
fn delete_and_session_mismatch_reset_devices() {
    let mut routing = RoutingState::default();
    routing.reconcile_snapshot(
        claims(vec![("deck", claim("controller:main", "s1"))]),
        sessions(vec![("controller:main", "s1")]),
        TextSet::new(),
    );

    let reset = routing.reconcile_snapshot(TextMap::new(), TextMap::new(), TextSet::new());
    assert!(reset.contains("deck"));

    routing.reconcile_snapshot(
        claims(vec![("deck", claim("controller:main", "s1"))]),
        sessions(vec![("controller:main", "s1")]),
        TextSet::new(),
    );
    let reset = routing.reconcile_snapshot(
        claims(vec![("deck", claim("controller:main", "s1"))]),
        sessions(vec![("controller:main", "s2")]),
        TextSet::new(),
    );
    assert!(reset.contains("deck"));
    assert_eq!(routing.claim_recipient("deck"), None);
}

#[test]
fn transferred_claim_resets_device() {
    let mut routing = RoutingState::default();
    routing.reconcile_snapshot(
        claims(vec![("deck", claim("controller:main", "s1"))]),
        sessions(vec![("controller:main", "s1")]),
        TextSet::new(),
    );
    let reset = routing.reconcile_snapshot(
        claims(vec![("deck", claim("controller:other", "s2"))]),
        sessions(vec![("controller:other", "s2")]),
        TextSet::new(),
    );
    assert!(reset.contains("deck"));
    assert_eq!(routing.claim_recipient("deck"), Some("controller:other"));
}

#[test]
fn invalid_claim_resets_and_is_not_recorded() {
    let mut routing = RoutingState::default();
    let reset = routing.reconcile_snapshot(TextMap::new(), TextMap::new(), devices(vec!["deck"]));
    assert!(reset.contains("deck"));
    assert_eq!(routing.claim_recipient("deck"), None);
}

#[test]
fn unchanged_claims_reset_nothing() {
    let mut routing = RoutingState::new();
    let snapshot = || {
        (
            claims(vec![
                ("a", claim("controller:main", "s1")),
                ("b", claim("controller:gone", "s1")),
            ]),
            sessions(vec![("controller:main", "s1")]),
        )
    };
    let (first_claims, first_sessions) = snapshot();
    let reset = routing.reconcile_snapshot(first_claims, first_sessions, TextSet::new());
    assert!(!reset.contains("a"));
    assert!(reset.contains("b"));
    let (next_claims, next_sessions) = snapshot();
    let reset = routing.reconcile_snapshot(next_claims, next_sessions, TextSet::new());
    assert_eq!(reset.len(), 0);
}

#[test]
fn removed_devices_have_no_recipient() {
    let mut routing = RoutingState::new();
    routing.reconcile_snapshot(
        claims(vec![
            ("a", claim("controller:main", "s1")),
            ("b", claim("controller:main", "s1")),
        ]),
        sessions(vec![("controller:main", "s1")]),
        TextSet::new(),
    );
    routing.remove_device("a");
    assert_eq!(routing.claim_recipient("a"), None);
    assert_eq!(routing.claim_recipient("b"), Some("controller:main"));
}

fn route(endpoint: &str, session: &str, claim_id: &str) -> ClaimRoute {
    ClaimRoute {
        controller_endpoint: endpoint.to_string(),
        controller_session_id: session.to_string(),
        contract_key: "contracts.claim.1.meta".to_string(),
        claim_id: claim_id.to_string(),
    }
}

fn routes(entries: Vec<(&str, ClaimRoute)>) -> TextMap<ClaimRoute> {
    let mut map = TextMap::new();
    for (device, route) in entries {
        map.insert(device.to_string(), route);
    }
    map
}

#[test]
fn routes_that_lead_elsewhere_reset_their_devices() {
    let mut table = ClaimRoutes::new();
    let reset = table.reconcile_snapshot(
        routes(vec![
            ("stays", route("controller:main", "s1", "1")),
            ("moves", route("controller:main", "s1", "1")),
            ("renews", route("controller:main", "s1", "1")),
            ("goes", route("controller:main", "s1", "1")),
        ]),
        TextSet::new(),
    );
    assert_eq!(reset.len(), 0);
    let reset = table.reconcile_snapshot(
        routes(vec![
            ("stays", route("controller:main", "s1", "2")),
            ("moves", route("controller:other", "s1", "1")),
            ("renews", route("controller:main", "s2", "1")),
            ("comes", route("controller:main", "s1", "1")),
        ]),
        devices(vec!["broken"]),
    );
    let mut names: Vec<String> = (0..reset.len()).map(|i| reset.item_at(i).clone()).collect();
    names.sort();
    assert_eq!(names, vec!["broken", "goes", "moves", "renews"]);
    assert_eq!(table.claim_recipient("stays"), Some(&route("controller:main", "s1", "2")));
    assert_eq!(table.claim_recipient("goes"), None);
    table.remove_device("stays");
    assert_eq!(table.claim_recipient("stays"), None);
}
