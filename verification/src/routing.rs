//! Which controller a device's input goes to, and whose commands it takes.

use vstd::prelude::*;

use crate::state::{DeviceClaim, DeviceClaimModel};
use crate::text::same_text;
use crate::text_map::{lemma_push_contains, TextMap, TextSet};

verus! {

/// The claims by device.
pub type Claims = Map<Seq<char>, DeviceClaimModel>;

/// The sessions of the controllers that are present, by endpoint.
pub type Sessions = Map<Seq<char>, Seq<char>>;

/// The endpoint that a claim leads to: the claiming controller, if it is present with the session
/// in which it made the claim.
pub open spec fn recipient_of(claim: DeviceClaimModel, sessions: Sessions) -> Option<Seq<char>> {
    if sessions.contains_key(claim.claimed_by_endpoint) && sessions[claim.claimed_by_endpoint]
        == claim.claimed_by_session_id {
        Some(claim.claimed_by_endpoint)
    } else {
        None
    }
}

/// Whether two claims are by the same controller in the same session.
pub open spec fn same_claimant(a: DeviceClaimModel, b: DeviceClaimModel) -> bool {
    a.claimed_by_endpoint == b.claimed_by_endpoint && a.claimed_by_session_id
        == b.claimed_by_session_id
}

/// Whether a device that was claimed is to be reset: its claim is gone, is another's, or leads
/// nowhere any more.
pub open spec fn claim_lost(before: RoutingModel, after: RoutingModel, device: Seq<char>) -> bool {
    &&& before.claims.contains_key(device)
    &&& {
        ||| !after.claims.contains_key(device)
        ||| !same_claimant(before.claims[device], after.claims[device])
        ||| before.recipient(device) is Some && after.recipient(device) is None
    }
}

/// Whether a device is newly claimed by a controller that is not there.
pub open spec fn claim_dangles(before: RoutingModel, after: RoutingModel, device: Seq<char>) -> bool {
    &&& !before.claims.contains_key(device)
    &&& after.claims.contains_key(device)
    &&& after.recipient(device) is None
}

/// The devices to reset when one state of the routing follows another.
pub open spec fn resets(before: RoutingModel, after: RoutingModel, invalid: Set<Seq<char>>) -> Set<
    Seq<char>,
> {
    Set::new(
        |device: Seq<char>|
            invalid.contains(device) || claim_lost(before, after, device) || claim_dangles(
                before,
                after,
                device,
            ),
    )
}

/// What the state of the routing is.
pub struct RoutingModel {
    pub claims: Claims,
    pub sessions: Sessions,
}

impl RoutingModel {
    /// The endpoint that the device's claim leads to.
    pub open spec fn recipient(self, device: Seq<char>) -> Option<Seq<char>> {
        if self.claims.contains_key(device) {
            recipient_of(self.claims[device], self.sessions)
        } else {
            None
        }
    }
}

/// The claims on a manager's devices and the controllers that are present.
#[derive(Debug)]
pub struct RoutingState {
    claims: TextMap<DeviceClaim>,
    controller_presence_sessions: TextMap<String>,
    unroutable_devices: TextSet,
}

impl View for RoutingState {
    type V = RoutingModel;

    closed spec fn view(&self) -> RoutingModel {
        RoutingModel {
            claims: self.claims.deep_view(),
            sessions: self.controller_presence_sessions.deep_view(),
        }
    }
}

fn claim_recipient<'a>(
    claim: &'a DeviceClaim,
    controller_presence_sessions: &TextMap<String>,
) -> (r: Option<&'a str>)
    ensures
        match r {
            Some(endpoint) => recipient_of(
                claim.deep_view(),
                controller_presence_sessions.deep_view(),
            ) == Some(endpoint@),
            None => recipient_of(
                claim.deep_view(),
                controller_presence_sessions.deep_view(),
            ) is None,
        },
{
    let session_id = controller_presence_sessions.get(claim.claimed_by_endpoint.as_str())?;
    if same_text(session_id.as_str(), claim.claimed_by_session_id.as_str()) {
        Some(claim.claimed_by_endpoint.as_str())
    } else {
        None
    }
}

fn has_same_claimant(a: &DeviceClaim, b: &DeviceClaim) -> (r: bool)
    ensures
        r == same_claimant(a.deep_view(), b.deep_view()),
{
    same_text(a.claimed_by_endpoint.as_str(), b.claimed_by_endpoint.as_str()) && same_text(
        a.claimed_by_session_id.as_str(),
        b.claimed_by_session_id.as_str(),
    )
}

impl RoutingState {
    /// The unroutable devices are the claimed ones whose claim leads nowhere.
    #[verifier::type_invariant]
    spec fn well_formed(self) -> bool {
        forall|device: Seq<char>| #[trigger]
            self.unroutable_devices@.contains(device) <==> self@.claims.contains_key(device)
                && self@.recipient(device) is None
    }

    /// No claims and no controllers.
    pub fn new() -> (r: Self)
        ensures
            r@ == (RoutingModel { claims: Map::empty(), sessions: Map::empty() }),
    {
        let claims: TextMap<DeviceClaim> = TextMap::new();
        let sessions: TextMap<String> = TextMap::new();
        assert(claims.deep_view() =~= Map::<Seq<char>, DeviceClaimModel>::empty());
        assert(sessions.deep_view() =~= Map::<Seq<char>, Seq<char>>::empty());
        RoutingState {
            claims,
            controller_presence_sessions: sessions,
            unroutable_devices: TextSet::new(),
        }
    }

    /// The endpoint that the device's claim leads to.
    pub fn claim_recipient(&self, device_id: &str) -> (r: Option<&str>)
        ensures
            match r {
                Some(endpoint) => self@.recipient(device_id@) == Some(endpoint@),
                None => self@.recipient(device_id@) is None,
            },
    {
        let claim = self.claims.get(device_id)?;
        claim_recipient(claim, &self.controller_presence_sessions)
    }

    /// Takes over a new state, and tells which devices are to be reset for it.
    pub fn reconcile_snapshot(
        &mut self,
        next_claims: TextMap<DeviceClaim>,
        next_controller_sessions: TextMap<String>,
        invalid_claim_devices: TextSet,
    ) -> (r: TextSet)
        ensures
            final(self)@ == (RoutingModel {
                claims: next_claims.deep_view(),
                sessions: next_controller_sessions.deep_view(),
            }),
            r@ == resets(old(self)@, final(self)@, invalid_claim_devices@),
    {
        let devices_to_reset = self.devices_to_reset_for_snapshot(
            &next_claims,
            &next_controller_sessions,
            &invalid_claim_devices,
        );
        let unroutable_devices = unroutable(&next_claims, &next_controller_sessions);
        *self = RoutingState {
            claims: next_claims,
            controller_presence_sessions: next_controller_sessions,
            unroutable_devices,
        };
        devices_to_reset
    }

    /// Forgets the device's claim.
    pub fn remove_device(&mut self, device_id: &str)
        ensures
            final(self)@.claims == old(self)@.claims.remove(device_id@),
            final(self)@.sessions == old(self)@.sessions,
    {
        proof {
            use_type_invariant(&*self);
        }
        let mut state = RoutingState::new();
        std::mem::swap(&mut state, self);
        let ghost before = state@;
        let RoutingState {
            claims: mut claims,
            controller_presence_sessions: sessions,
            unroutable_devices: mut unroutable_devices,
        } = state;
        claims.remove(device_id);
        unroutable_devices.remove(device_id);
        assert(claims.deep_view() =~= before.claims.remove(device_id@));
        *self = RoutingState {
            claims,
            controller_presence_sessions: sessions,
            unroutable_devices,
        };
    }

    fn devices_to_reset_for_snapshot(
        &self,
        next_claims: &TextMap<DeviceClaim>,
        next_controller_sessions: &TextMap<String>,
        invalid_claim_devices: &TextSet,
    ) -> (r: TextSet)
        ensures
            r@ == resets(
                self@,
                RoutingModel {
                    claims: next_claims.deep_view(),
                    sessions: next_controller_sessions.deep_view(),
                },
                invalid_claim_devices@,
            ),
    {
        let ghost after = RoutingModel {
            claims: next_claims.deep_view(),
            sessions: next_controller_sessions.deep_view(),
        };
        let ghost before = self@;
        let ghost invalid = invalid_claim_devices@;
        let mut devices_to_reset = invalid_claim_devices.duplicate();
        let n = self.claims.len();
        let mut i: usize = 0;
        while i < n
            invariant
                i <= n == self.claims.keys().len(),
                before == self@,
                after == (RoutingModel {
                    claims: next_claims.deep_view(),
                    sessions: next_controller_sessions.deep_view(),
                }),
                forall|device: Seq<char>| #[trigger]
                    devices_to_reset@.contains(device) <==> invalid.contains(device) || (
                    self.claims.keys().take(i as int).contains(device) && claim_lost(
                        before,
                        after,
                        device,
                    )),
            decreases n - i,
        {
            let device_id = self.claims.key_at(i);
            let old_claim = self.claims.value_at(i);
            let lost = match next_claims.get(device_id.as_str()) {
                None => true,
                Some(next_claim) => !has_same_claimant(old_claim, next_claim) || (claim_recipient(
                    old_claim,
                    &self.controller_presence_sessions,
                ).is_some() && claim_recipient(next_claim, next_controller_sessions).is_none()),
            };
            assert(lost == claim_lost(before, after, device_id@));
            let ghost held = devices_to_reset@;
            if lost {
                devices_to_reset.insert(device_id.clone());
            }
            proof {
                let keys = self.claims.keys();
                assert(keys.take(i + 1) =~= keys.take(i as int).push(device_id@));
                assert forall|device: Seq<char>| #[trigger]
                    devices_to_reset@.contains(device) <==> invalid.contains(device) || (
                    keys.take(i + 1).contains(device) && claim_lost(before, after, device)) by {
                    lemma_push_contains(keys.take(i as int), device_id@, device);
                    assert(held.contains(device) <==> invalid.contains(device) || (keys.take(
                        i as int,
                    ).contains(device) && claim_lost(before, after, device)));
                }
            }
            i += 1;
        }
        let ghost old_keys = self.claims.keys();
        proof {
            assert(old_keys.take(n as int) =~= old_keys);
        }
        let ghost lost_devices = devices_to_reset@;
        let m = next_claims.len();
        let mut j: usize = 0;
        while j < m
            invariant
                j <= m == next_claims.keys().len(),
                before == self@,
                after == (RoutingModel {
                    claims: next_claims.deep_view(),
                    sessions: next_controller_sessions.deep_view(),
                }),
                forall|device: Seq<char>| #[trigger]
                    devices_to_reset@.contains(device) <==> lost_devices.contains(device) || (
                    next_claims.keys().take(j as int).contains(device) && claim_dangles(
                        before,
                        after,
                        device,
                    )),
            decreases m - j,
        {
            let device_id = next_claims.key_at(j);
            let next_claim = next_claims.value_at(j);
            let dangles = !self.claims.contains_key(device_id.as_str()) && claim_recipient(
                next_claim,
                next_controller_sessions,
            ).is_none();
            assert(dangles == claim_dangles(before, after, device_id@));
            let ghost held = devices_to_reset@;
            if dangles {
                devices_to_reset.insert(device_id.clone());
            }
            proof {
                let keys = next_claims.keys();
                assert(keys.take(j + 1) =~= keys.take(j as int).push(device_id@));
                assert forall|device: Seq<char>| #[trigger]
                    devices_to_reset@.contains(device) <==> lost_devices.contains(device) || (
                    keys.take(j + 1).contains(device) && claim_dangles(before, after, device)) by {
                    lemma_push_contains(keys.take(j as int), device_id@, device);
                    assert(held.contains(device) <==> lost_devices.contains(device) || (keys.take(
                        j as int,
                    ).contains(device) && claim_dangles(before, after, device)));
                }
            }
            j += 1;
        }
        proof {
            assert(next_claims.keys().take(m as int) =~= next_claims.keys());
            assert forall|device: Seq<char>| #[trigger]
                devices_to_reset@.contains(device) == resets(before, after, invalid).contains(
                    device,
                ) by {
                assert(lost_devices.contains(device) <==> invalid.contains(device) || (
                old_keys.contains(device) && claim_lost(before, after, device)));
                assert(self.claims@.contains_key(device) <==> old_keys.contains(device));
                assert(next_claims@.contains_key(device) <==> next_claims.keys().contains(device));
            }
            assert(devices_to_reset@ =~= resets(before, after, invalid));
        }
        devices_to_reset
    }
}

impl Default for RoutingState {
    fn default() -> (r: Self)
        ensures
            r@ == (RoutingModel { claims: Map::empty(), sessions: Map::empty() }),
    {
        RoutingState::new()
    }
}

/// The claimed devices whose claim leads nowhere.
fn unroutable(claims: &TextMap<DeviceClaim>, sessions: &TextMap<String>) -> (r: TextSet)
    ensures
        forall|device: Seq<char>| #[trigger]
            r@.contains(device) <==> claims.deep_view().contains_key(device) && recipient_of(
                claims.deep_view()[device],
                sessions.deep_view(),
            ) is None,
{
    let mut devices = TextSet::new();
    let n = claims.len();
    let mut i: usize = 0;
    while i < n
        invariant
            i <= n == claims.keys().len(),
            forall|device: Seq<char>| #[trigger]
                devices@.contains(device) <==> claims.keys().take(i as int).contains(device)
                    && recipient_of(claims.deep_view()[device], sessions.deep_view()) is None,
        decreases n - i,
    {
        let device_id = claims.key_at(i);
        let ghost held = devices@;
        if claim_recipient(claims.value_at(i), sessions).is_none() {
            devices.insert(device_id.clone());
        }
        proof {
            let keys = claims.keys();
            assert(keys.take(i + 1) =~= keys.take(i as int).push(device_id@));
            assert forall|device: Seq<char>| #[trigger]
                devices@.contains(device) <==> keys.take(i + 1).contains(device) && recipient_of(
                    claims.deep_view()[device],
                    sessions.deep_view(),
                ) is None by {
                lemma_push_contains(keys.take(i as int), device_id@, device);
                assert(held.contains(device) <==> keys.take(i as int).contains(device)
                    && recipient_of(claims.deep_view()[device], sessions.deep_view()) is None);
            }
        }
        i += 1;
    }
    proof {
        assert(claims.keys().take(n as int) =~= claims.keys());
        assert forall|device: Seq<char>| #[trigger]
            devices@.contains(device) <==> claims.deep_view().contains_key(device) && recipient_of(
                claims.deep_view()[device],
                sessions.deep_view(),
            ) is None by {
            assert(claims@.contains_key(device) <==> claims.keys().contains(device));
        }
    }
    devices
}

/// A device that is not reset keeps the controller that it had: nothing passes from one controller,
/// or from one session of it, to another without a reset.
pub proof fn no_handover_without_reset(
    before: RoutingModel,
    after: RoutingModel,
    invalid: Set<Seq<char>>,
    device: Seq<char>,
)
    requires
        before.recipient(device) is Some,
        !resets(before, after, invalid).contains(device),
    ensures
        after.recipient(device) == before.recipient(device),
        same_claimant(before.claims[device], after.claims[device]),
{
}

/// A claimed device that leads nowhere and is not reset led nowhere before, under the same claim.
pub proof fn claims_come_to_nothing_with_a_reset(
    before: RoutingModel,
    after: RoutingModel,
    invalid: Set<Seq<char>>,
    device: Seq<char>,
)
    requires
        after.claims.contains_key(device),
        after.recipient(device) is None,
        !resets(before, after, invalid).contains(device),
    ensures
        before.claims.contains_key(device),
        before.recipient(device) is None,
        same_claimant(before.claims[device], after.claims[device]),
{
}

/// Taking over the state that is already there resets the devices with invalid claims and no
/// others.
pub proof fn unchanged_state_resets_nothing(state: RoutingModel, invalid: Set<Seq<char>>)
    ensures
        resets(state, state, invalid) == invalid,
{
    assert(resets(state, state, invalid) =~= invalid);
}

// ---------------------------------------------------------------------------------------------
// Routes by contract
// ---------------------------------------------------------------------------------------------

/// Where a valid contract leads a device: to a session of a controller.
#[derive(Debug, PartialEq, Eq)]
pub struct ClaimRoute {
    pub controller_endpoint: String,
    pub controller_session_id: String,
    pub contract_key: String,
    pub claim_id: String,
}

/// What a route is.
pub struct ClaimRouteModel {
    pub controller_endpoint: Seq<char>,
    pub controller_session_id: Seq<char>,
    pub contract_key: Seq<char>,
    pub claim_id: Seq<char>,
}

impl DeepView for ClaimRoute {
    type V = ClaimRouteModel;

    open spec fn deep_view(&self) -> ClaimRouteModel {
        ClaimRouteModel {
            controller_endpoint: self.controller_endpoint.deep_view(),
            controller_session_id: self.controller_session_id.deep_view(),
            contract_key: self.contract_key.deep_view(),
            claim_id: self.claim_id.deep_view(),
        }
    }
}

impl Clone for ClaimRoute {
    fn clone(&self) -> (r: Self)
        ensures
            r.deep_view() == self.deep_view(),
    {
        ClaimRoute {
            controller_endpoint: self.controller_endpoint.clone(),
            controller_session_id: self.controller_session_id.clone(),
            contract_key: self.contract_key.clone(),
            claim_id: self.claim_id.clone(),
        }
    }
}

/// The routes by device.
pub type Routes = Map<Seq<char>, ClaimRouteModel>;

/// Whether two routes lead to the same session of the same controller.
pub open spec fn same_recipient(a: ClaimRouteModel, b: ClaimRouteModel) -> bool {
    a.controller_endpoint == b.controller_endpoint && a.controller_session_id
        == b.controller_session_id
}

/// Whether the device had a route that is gone or leads elsewhere.
pub open spec fn route_lost(before: Routes, after: Routes, device: Seq<char>) -> bool {
    &&& before.contains_key(device)
    &&& after.contains_key(device) ==> !same_recipient(before[device], after[device])
}

/// The devices to reset when some routes follow others.
pub open spec fn route_resets(before: Routes, after: Routes, invalid: Set<Seq<char>>) -> Set<
    Seq<char>,
> {
    Set::new(|device: Seq<char>| invalid.contains(device) || route_lost(before, after, device))
}

/// The routes of a manager's devices.
#[derive(Debug)]
pub struct ClaimRoutes {
    routes: TextMap<ClaimRoute>,
}

impl View for ClaimRoutes {
    type V = Routes;

    closed spec fn view(&self) -> Routes {
        self.routes.deep_view()
    }
}

impl ClaimRoutes {
    /// No routes.
    pub fn new() -> (r: Self)
        ensures
            r@ == Map::<Seq<char>, ClaimRouteModel>::empty(),
    {
        let routes: TextMap<ClaimRoute> = TextMap::new();
        assert(routes.deep_view() =~= Map::<Seq<char>, ClaimRouteModel>::empty());
        ClaimRoutes { routes }
    }

    /// The route of the device.
    pub fn claim_recipient(&self, device_id: &str) -> (r: Option<&ClaimRoute>)
        ensures
            r.deep_view() == if self@.contains_key(device_id@) {
                Some(self@[device_id@])
            } else {
                None
            },
    {
        self.routes.get(device_id)
    }

    /// Takes over new routes, and tells which devices are to be reset for them.
    pub fn reconcile_snapshot(
        &mut self,
        next_routes: TextMap<ClaimRoute>,
        invalid_claim_devices: TextSet,
    ) -> (r: TextSet)
        ensures
            final(self)@ == next_routes.deep_view(),
            r@ == route_resets(old(self)@, final(self)@, invalid_claim_devices@),
    {
        let ghost before = self@;
        let ghost after = next_routes.deep_view();
        let ghost invalid = invalid_claim_devices@;
        let mut devices_to_reset = invalid_claim_devices;
        let n = self.routes.len();
        let mut i: usize = 0;
        while i < n
            invariant
                i <= n == self.routes.keys().len(),
                *self == *old(self),
                before == self@,
                after == next_routes.deep_view(),
                forall|device: Seq<char>| #[trigger]
                    devices_to_reset@.contains(device) <==> invalid.contains(device) || (
                    self.routes.keys().take(i as int).contains(device) && route_lost(
                        before,
                        after,
                        device,
                    )),
            decreases n - i,
        {
            let device_id = self.routes.key_at(i);
            let route = self.routes.value_at(i);
            let lost = match next_routes.get(device_id.as_str()) {
                None => true,
                Some(next) => !(same_text(
                    route.controller_endpoint.as_str(),
                    next.controller_endpoint.as_str(),
                ) && same_text(
                    route.controller_session_id.as_str(),
                    next.controller_session_id.as_str(),
                )),
            };
            assert(lost == route_lost(before, after, device_id@));
            let ghost held = devices_to_reset@;
            if lost {
                devices_to_reset.insert(device_id.clone());
            }
            proof {
                let keys = self.routes.keys();
                assert(keys.take(i + 1) =~= keys.take(i as int).push(device_id@));
                assert forall|device: Seq<char>| #[trigger]
                    devices_to_reset@.contains(device) <==> invalid.contains(device) || (
                    keys.take(i + 1).contains(device) && route_lost(before, after, device)) by {
                    lemma_push_contains(keys.take(i as int), device_id@, device);
                    assert(held.contains(device) <==> invalid.contains(device) || (keys.take(
                        i as int,
                    ).contains(device) && route_lost(before, after, device)));
                }
            }
            i += 1;
        }
        proof {
            let keys = self.routes.keys();
            assert(keys.take(n as int) =~= keys);
            assert forall|device: Seq<char>| #[trigger]
                devices_to_reset@.contains(device) == route_resets(before, after, invalid).contains(
                    device,
                ) by {
                assert(self.routes@.contains_key(device) <==> keys.contains(device));
            }
            assert(devices_to_reset@ =~= route_resets(before, after, invalid));
        }
        self.routes = next_routes;
        devices_to_reset
    }

    /// Forgets the device's route.
    pub fn remove_device(&mut self, device_id: &str)
        ensures
            final(self)@ == old(self)@.remove(device_id@),
    {
        self.routes.remove(device_id);
        assert(self@ =~= old(self)@.remove(device_id@));
    }
}

/// A device that is not reset keeps its route to the same session of the same controller.
pub proof fn no_reroute_without_reset(
    before: Routes,
    after: Routes,
    invalid: Set<Seq<char>>,
    device: Seq<char>,
)
    requires
        before.contains_key(device),
        !route_resets(before, after, invalid).contains(device),
    ensures
        after.contains_key(device),
        same_recipient(before[device], after[device]),
{
}

/// Which devices are reset when routes follow others: those with invalid contracts, and those that had
/// a route and have none, or have one to another controller or to another session of it. No other
/// device is reset.
pub proof fn routes_that_change_hands_are_reset(
    before: Routes,
    after: Routes,
    invalid: Set<Seq<char>>,
    device: Seq<char>,
)
    ensures
        route_resets(before, after, invalid).contains(device) <==> {
            ||| invalid.contains(device)
            ||| before.contains_key(device) && !after.contains_key(device)
            ||| before.contains_key(device) && after.contains_key(device)
                && before[device].controller_endpoint != after[device].controller_endpoint
            ||| before.contains_key(device) && after.contains_key(device)
                && before[device].controller_session_id != after[device].controller_session_id
        },
{
}

/// A claim leads to the controller that made it, exactly while the controller is present with the
/// session in which it made the claim.
pub proof fn claims_lead_to_present_controllers(
    state: RoutingModel,
    device: Seq<char>,
    endpoint: Seq<char>,
)
    ensures
        state.recipient(device) == Some(endpoint) <==> {
            &&& state.claims.contains_key(device)
            &&& state.claims[device].claimed_by_endpoint == endpoint
            &&& state.sessions.contains_key(endpoint)
            &&& state.sessions[endpoint] == state.claims[device].claimed_by_session_id
        },
{
}

/// Which devices are reset when claims and controllers follow others: those with invalid claims; those
/// whose claim is gone, or was made by another controller or in another session; those whose claim led
/// to its controller and does no more; and those that are newly claimed by a controller that is not
/// there.
pub proof fn claims_that_change_hands_are_reset(
    before: RoutingModel,
    after: RoutingModel,
    invalid: Set<Seq<char>>,
    device: Seq<char>,
)
    ensures
        resets(before, after, invalid).contains(device) <==> {
            let (had, keeps) = (before.claims.contains_key(device), after.claims.contains_key(device));
            ||| invalid.contains(device)
            ||| had && !keeps
            ||| had && keeps && before.claims[device].claimed_by_endpoint
                != after.claims[device].claimed_by_endpoint
            ||| had && keeps && before.claims[device].claimed_by_session_id
                != after.claims[device].claimed_by_session_id
            ||| had && before.recipient(device) is Some && after.recipient(device) is None
            ||| !had && keeps && after.recipient(device) is None
        },
{
}

/// What is told of a value of `ClaimRoute`: each field under its own name.
pub proof fn claim_route_is_told_by_field(value: ClaimRoute)
    ensures
        value.deep_view().controller_endpoint == value.controller_endpoint@,
        value.deep_view().controller_session_id == value.controller_session_id@,
        value.deep_view().contract_key == value.contract_key@,
        value.deep_view().claim_id == value.claim_id@,
{
}

} // verus!
