//! The manager of the devices: what it knows, what it publishes, whom it listens to.

use vstd::prelude::*;

use crate::lanes::{
    DeviceDescriptor, DeviceDescriptorModel, DeviceRef, DeviceRefModel, HardwareMessageBody,
    HardwareMessageBodyModel,
};
use crate::routing::{
    route_resets, routes_that_change_hands_are_reset, ClaimRoute, ClaimRouteModel, ClaimRoutes,
    Routes,
};
use crate::state::{
    address_of, hardware_manager_address, EndpointAddress, EndpointAddressModel,
    HARDWARE_MESSAGES_LANE,
};
use crate::text::{contains, contains_text, joined, push_text, same_text};
use crate::text_map::{lemma_push_contains, TextMap, TextSet};
use crate::worker::{
    requested, runtime_command_from_body, CommandErrorModel, RuntimeCommand, RuntimeCommandModel,
    WorkerEvent, WorkerEventModel,
};

verus! {

/// The longest time between two attempts to connect, in seconds.
pub const MAX_BACKOFF_SECS: u64 = 10;

/// The time to wait after the next failure: twice as long, up to a limit.
pub open spec fn backoff_after(seconds: int) -> int {
    if 2 * seconds < MAX_BACKOFF_SECS {
        2 * seconds
    } else {
        MAX_BACKOFF_SECS as int
    }
}

/// The time to wait doubles until it is ten seconds, and stays there.
pub proof fn backoff_doubles_up_to_ten_seconds(seconds: int)
    requires
        0 < seconds,
    ensures
        0 < backoff_after(seconds) <= 10,
        seconds <= 5 ==> backoff_after(seconds) == seconds + seconds,
        seconds >= 5 ==> backoff_after(seconds) == 10,
        seconds <= 10 ==> backoff_after(seconds) >= seconds,
{
}

/// The time to wait after the next failure: twice as long, up to a limit.
pub fn next_backoff(seconds: u64) -> (r: u64)
    ensures
        r == if 2 * seconds < MAX_BACKOFF_SECS {
            2 * seconds
        } else {
            MAX_BACKOFF_SECS as int
        },
        r == backoff_after(seconds as int),
{
    if seconds < 5 {
        seconds * 2
    } else {
        MAX_BACKOFF_SECS
    }
}

// ---------------------------------------------------------------------------------------------
// Leases
// ---------------------------------------------------------------------------------------------

/// How a manager stands to a contract: whether it holds its token, and whether it has lost the right
/// to one.
#[derive(Debug, Clone, Copy, PartialEq, Eq, Structural)]
pub struct Lease {
    pub has_token: bool,
    pub lost_authority: bool,
}

impl DeepView for Lease {
    type V = Lease;

    open spec fn deep_view(&self) -> Lease {
        *self
    }
}

/// What is to be done to keep the token of a contract.
#[derive(Debug, Clone, Copy, PartialEq, Eq, Structural)]
pub enum LeaseAction {
    /// Nothing: the right to it is lost.
    Nothing,
    /// Renew the token.
    Refresh,
    /// Take the token.
    Attach,
}

/// How renewing or taking a token went.
#[derive(Debug, Clone, Copy, PartialEq, Eq, Structural)]
pub enum LeaseOutcome {
    /// The token was renewed.
    Refreshed,
    /// Someone else renewed the token meanwhile.
    Raced,
    /// The token could not be renewed.
    RefreshFailed,
    /// The token was taken.
    Attached,
    /// The token could not be taken.
    AttachFailed,
}

/// The lease of a manager that holds its token.
pub open spec fn held_lease() -> Lease {
    Lease { has_token: true, lost_authority: false }
}

/// The lease of a manager that has lost its right.
pub open spec fn lost_lease() -> Lease {
    Lease { has_token: false, lost_authority: true }
}

/// What is to be done, and how the manager stands to the contract from then on. A contract that
/// shows the manager attached, while the manager holds no token, was attached by another, or in
/// another life.
pub open spec fn lease_step(lease: Option<Lease>, attached: bool) -> (Option<Lease>, LeaseAction) {
    match lease {
        Some(lease) => if lease.lost_authority {
            (Some(lease), LeaseAction::Nothing)
        } else if lease.has_token {
            (Some(lease), LeaseAction::Refresh)
        } else if attached {
            (Some(lost_lease()), LeaseAction::Nothing)
        } else {
            (Some(lease), LeaseAction::Attach)
        },
        None => if attached {
            (Some(lost_lease()), LeaseAction::Nothing)
        } else {
            (None, LeaseAction::Attach)
        },
    }
}

/// How the manager stands to the contract after what was done.
pub open spec fn lease_after(lease: Option<Lease>, outcome: LeaseOutcome) -> Option<Lease> {
    match outcome {
        LeaseOutcome::Refreshed => Some(held_lease()),
        LeaseOutcome::Attached => Some(held_lease()),
        LeaseOutcome::RefreshFailed => Some(lost_lease()),
        LeaseOutcome::Raced => lease,
        LeaseOutcome::AttachFailed => lease,
    }
}

/// Whether the outcome answers what was to be done.
pub open spec fn answers(outcome: LeaseOutcome, action: LeaseAction) -> bool {
    match action {
        LeaseAction::Nothing => false,
        LeaseAction::Refresh => outcome == LeaseOutcome::Refreshed || outcome == LeaseOutcome::Raced
            || outcome == LeaseOutcome::RefreshFailed,
        LeaseAction::Attach => outcome == LeaseOutcome::Attached || outcome
            == LeaseOutcome::AttachFailed,
    }
}

/// Whether one round of looking after a token can lead from one lease to another.
pub open spec fn lease_round(before: Option<Lease>, after: Option<Lease>) -> bool {
    exists|attached: bool|
        {
            let (lease, action) = #[trigger] lease_step(before, attached);
            ||| after == lease
            ||| exists|outcome: LeaseOutcome|
                answers(outcome, action) && after == #[trigger] lease_after(lease, outcome)
        }
}

/// A manager that has lost the right to its token neither renews nor takes it any more, and stays
/// without it.
pub proof fn lost_authority_is_for_good(before: Option<Lease>, after: Option<Lease>, attached: bool)
    requires
        before matches Some(lease) && lease.lost_authority,
        lease_round(before, after),
    ensures
        lease_step(before, attached).1 == LeaseAction::Nothing,
        after == before,
{
}

/// A token that could not be renewed is not held any more.
pub proof fn failed_renewal_loses_authority(lease: Option<Lease>)
    ensures
        lease_after(lease, LeaseOutcome::RefreshFailed) == Some(lost_lease()),
{
}

/// Whether an error of renewing a token means that another renewed it meanwhile. Only a conflict of
/// states can mean that.
pub fn is_concord_refresh_race(conflict: Option<&str>) -> (r: bool)
    ensures
        r == (conflict matches Some(message) && contains_text(message@, "revision changed"@)),
{
    match conflict {
        Some(message) => contains(message, "revision changed"),
        None => false,
    }
}

/// How it went, by whether it succeeded and, if not, whether another renewed the token meanwhile.
pub open spec fn outcome_of(action: LeaseAction, succeeded: bool, raced: bool) -> LeaseOutcome {
    match action {
        LeaseAction::Attach => if succeeded {
            LeaseOutcome::Attached
        } else {
            LeaseOutcome::AttachFailed
        },
        _ => if succeeded {
            LeaseOutcome::Refreshed
        } else if raced {
            LeaseOutcome::Raced
        } else {
            LeaseOutcome::RefreshFailed
        },
    }
}

/// How renewing or taking a token went. `conflict` is the message of the conflict of states that it
/// failed with, if it failed so.
pub fn lease_outcome(action: LeaseAction, succeeded: bool, conflict: Option<&str>) -> (r:
    LeaseOutcome)
    ensures
        r == outcome_of(
            action,
            succeeded,
            conflict matches Some(message) && contains_text(message@, "revision changed"@),
        ),
        action != LeaseAction::Nothing ==> answers(r, action),
{
    match action {
        LeaseAction::Attach => if succeeded {
            LeaseOutcome::Attached
        } else {
            LeaseOutcome::AttachFailed
        },
        _ => if succeeded {
            LeaseOutcome::Refreshed
        } else if is_concord_refresh_race(conflict) {
            LeaseOutcome::Raced
        } else {
            LeaseOutcome::RefreshFailed
        },
    }
}

// ---------------------------------------------------------------------------------------------
// Contracts
// ---------------------------------------------------------------------------------------------

/// Whether an endpoint is among the participants of a contract.
pub fn is_participant(participants: &Vec<String>, endpoint: &str) -> (r: bool)
    ensures
        r == participants.deep_view().contains(endpoint@),
{
    let mut i: usize = 0;
    while i < participants.len()
        invariant
            i <= participants@.len(),
            forall|j: int| 0 <= j < i ==> #[trigger] participants.deep_view()[j] != endpoint@,
        decreases participants@.len() - i,
    {
        if same_text(participants[i].as_str(), endpoint) {
            assert(participants.deep_view()[i as int] == endpoint@);
            return true;
        }
        i += 1;
    }
    false
}

/// The terms of a contract on devices.
#[derive(Debug, PartialEq, Eq)]
pub struct ClaimTerms {
    pub claim_id: String,
    pub controller_endpoint: String,
    pub manager_endpoint: String,
    pub manager_advertisement_id: String,
    pub device_ids: Vec<String>,
}

/// What the terms of a contract are.
pub struct ClaimTermsModel {
    pub claim_id: Seq<char>,
    pub controller_endpoint: Seq<char>,
    pub manager_endpoint: Seq<char>,
    pub manager_advertisement_id: Seq<char>,
    pub device_ids: Seq<Seq<char>>,
}

impl DeepView for ClaimTerms {
    type V = ClaimTermsModel;

    open spec fn deep_view(&self) -> ClaimTermsModel {
        ClaimTermsModel {
            claim_id: self.claim_id.deep_view(),
            controller_endpoint: self.controller_endpoint.deep_view(),
            manager_endpoint: self.manager_endpoint.deep_view(),
            manager_advertisement_id: self.manager_advertisement_id.deep_view(),
            device_ids: self.device_ids.deep_view(),
        }
    }
}

impl Clone for ClaimTerms {
    fn clone(&self) -> (r: Self)
        ensures
            r.deep_view() == self.deep_view(),
    {
        ClaimTerms {
            claim_id: self.claim_id.clone(),
            controller_endpoint: self.controller_endpoint.clone(),
            manager_endpoint: self.manager_endpoint.clone(),
            manager_advertisement_id: self.manager_advertisement_id.clone(),
            device_ids: self.device_ids.clone(),
        }
    }
}

/// Whether the terms are about the manager as it is advertised now.
pub open spec fn terms_concern(
    terms: ClaimTermsModel,
    endpoint: Seq<char>,
    advertisement_id: Seq<char>,
) -> bool {
    terms.manager_endpoint == endpoint && terms.manager_advertisement_id == advertisement_id
}

/// What is known of a contract on a manager's devices: its terms, whether it is valid, and the
/// session in which the controller holds its token.
pub struct ContractModel {
    pub key: Seq<char>,
    pub terms: ClaimTermsModel,
    pub valid: bool,
    pub controller_session: Option<Seq<char>>,
}

/// The route that a contract gives its devices.
pub open spec fn contract_route(contract: ContractModel) -> ClaimRouteModel {
    ClaimRouteModel {
        controller_endpoint: contract.terms.controller_endpoint,
        controller_session_id: contract.controller_session->0,
        contract_key: contract.key,
        claim_id: contract.terms.claim_id,
    }
}

/// Whether a contract gives the device a route.
pub open spec fn routes_device(contract: ContractModel, device: Seq<char>) -> bool {
    contract.valid && contract.controller_session is Some && contract.terms.device_ids.contains(
        device,
    )
}

/// What a look through the contracts has found so far.
pub struct ScanModel {
    pub known_devices: Set<Seq<char>>,
    pub next_claims: Routes,
    pub invalid_devices: Set<Seq<char>>,
}

/// What has been found after one more contract: an invalid contract marks its devices, a valid one
/// routes them, in place of what an earlier contract said.
pub open spec fn scan_after(scan: ScanModel, contract: ContractModel) -> ScanModel {
    if !contract.valid {
        ScanModel {
            invalid_devices: Set::new(
                |device: Seq<char>|
                    scan.invalid_devices.contains(device) || (contract.terms.device_ids.contains(
                        device,
                    ) && scan.known_devices.contains(device)),
            ),
            ..scan
        }
    } else if contract.controller_session is None {
        scan
    } else {
        ScanModel {
            next_claims: Map::new(
                |device: Seq<char>|
                    scan.next_claims.contains_key(device) || (contract.terms.device_ids.contains(
                        device,
                    ) && scan.known_devices.contains(device)),
                |device: Seq<char>|
                    if contract.terms.device_ids.contains(device) && scan.known_devices.contains(
                        device,
                    ) {
                        contract_route(contract)
                    } else {
                        scan.next_claims[device]
                    },
            ),
            ..scan
        }
    }
}

/// What is found in contracts.
pub open spec fn scanned(known_devices: Set<Seq<char>>, contracts: Seq<ContractModel>) -> ScanModel
    decreases contracts.len(),
{
    if contracts.len() == 0 {
        ScanModel { known_devices, next_claims: Map::empty(), invalid_devices: Set::empty() }
    } else {
        scan_after(scanned(known_devices, contracts.drop_last()), contracts.last())
    }
}

/// The devices whose contracts are all invalid.
pub open spec fn only_invalid(scan: ScanModel) -> Set<Seq<char>> {
    Set::new(
        |device: Seq<char>|
            scan.invalid_devices.contains(device) && !scan.next_claims.contains_key(device),
    )
}

/// A device has a route exactly if it is known and a valid contract gives it one, and the route is
/// that of the last such contract.
pub proof fn routes_come_from_valid_contracts(
    known_devices: Set<Seq<char>>,
    contracts: Seq<ContractModel>,
    device: Seq<char>,
)
    ensures
        scanned(known_devices, contracts).known_devices == known_devices,
        scanned(known_devices, contracts).next_claims.contains_key(device) <==> {
            &&& known_devices.contains(device)
            &&& exists|i: int|
                0 <= i < contracts.len() && routes_device(#[trigger] contracts[i], device)
        },
        scanned(known_devices, contracts).next_claims.contains_key(device) ==> exists|i: int|
            {
                &&& 0 <= i < contracts.len()
                &&& routes_device(#[trigger] contracts[i], device)
                &&& scanned(known_devices, contracts).next_claims[device] == contract_route(
                    contracts[i],
                )
                &&& forall|j: int|
                    i < j < contracts.len() ==> !routes_device(#[trigger] contracts[j], device)
            },
    decreases contracts.len(),
{
    if contracts.len() > 0 {
        let last = contracts.len() - 1;
        let rest = contracts.drop_last();
        routes_come_from_valid_contracts(known_devices, rest, device);
        let before = scanned(known_devices, rest);
        let after = scanned(known_devices, contracts);
        if routes_device(contracts[last], device) {
            if known_devices.contains(device) {
                assert(after.next_claims[device] == contract_route(contracts[last]));
            }
        } else if before.next_claims.contains_key(device) {
            let i = choose|i: int|
                {
                    &&& 0 <= i < rest.len()
                    &&& routes_device(#[trigger] rest[i], device)
                    &&& before.next_claims[device] == contract_route(rest[i])
                    &&& forall|j: int|
                        i < j < rest.len() ==> !routes_device(#[trigger] rest[j], device)
                };
            assert(contracts[i] == rest[i]);
            assert forall|j: int| i < j < contracts.len() implies !routes_device(
                #[trigger] contracts[j],
                device,
            ) by {
                if j < last {
                    assert(contracts[j] == rest[j]);
                }
            }
            assert(after.next_claims[device] == before.next_claims[device]);
        } else {
            if known_devices.contains(device) {
                assert forall|i: int| 0 <= i < contracts.len() implies !routes_device(
                    #[trigger] contracts[i],
                    device,
                ) by {
                    if i < last {
                        assert(contracts[i] == rest[i]);
                    }
                }
            }
            assert(!after.next_claims.contains_key(device));
        }
    }
}

/// A contract as it is found, with those who take part in it.
pub struct FoundContractModel {
    pub participants: Seq<Seq<char>>,
    pub contract: ContractModel,
}

/// Whether a contract counts for the manager: the manager takes part in it, and its terms are about
/// the manager as it is advertised now.
pub open spec fn counts(
    found: FoundContractModel,
    endpoint: Seq<char>,
    advertisement_id: Seq<char>,
) -> bool {
    found.participants.contains(endpoint) && terms_concern(
        found.contract.terms,
        endpoint,
        advertisement_id,
    )
}

/// What has been found after one more contract, which may not count.
pub open spec fn scan_considering(
    scan: ScanModel,
    found: FoundContractModel,
    endpoint: Seq<char>,
    advertisement_id: Seq<char>,
) -> ScanModel {
    if counts(found, endpoint, advertisement_id) {
        scan_after(scan, found.contract)
    } else {
        scan
    }
}

/// What is found in contracts of which some may not count.
pub open spec fn considered(
    known_devices: Set<Seq<char>>,
    contracts: Seq<FoundContractModel>,
    endpoint: Seq<char>,
    advertisement_id: Seq<char>,
) -> ScanModel
    decreases contracts.len(),
{
    if contracts.len() == 0 {
        scanned(known_devices, Seq::empty())
    } else {
        scan_considering(
            considered(known_devices, contracts.drop_last(), endpoint, advertisement_id),
            contracts.last(),
            endpoint,
            advertisement_id,
        )
    }
}

/// The contracts that count.
pub open spec fn counting(
    contracts: Seq<FoundContractModel>,
    endpoint: Seq<char>,
    advertisement_id: Seq<char>,
) -> Seq<ContractModel>
    decreases contracts.len(),
{
    if contracts.len() == 0 {
        Seq::empty()
    } else {
        let rest = counting(contracts.drop_last(), endpoint, advertisement_id);
        if counts(contracts.last(), endpoint, advertisement_id) {
            rest.push(contracts.last().contract)
        } else {
            rest
        }
    }
}

/// A contract in which the manager takes no part, or whose terms are about another manager or
/// another of its advertisements, neither routes a device nor marks it: what is found is what the
/// other contracts say.
pub proof fn only_contracts_that_count_are_scanned(
    known_devices: Set<Seq<char>>,
    contracts: Seq<FoundContractModel>,
    endpoint: Seq<char>,
    advertisement_id: Seq<char>,
)
    ensures
        considered(known_devices, contracts, endpoint, advertisement_id) == scanned(
            known_devices,
            counting(contracts, endpoint, advertisement_id),
        ),
        forall|i: int|
            0 <= i < counting(contracts, endpoint, advertisement_id).len() ==> exists|j: int|
                {
                    &&& 0 <= j < contracts.len()
                    &&& counts(#[trigger] contracts[j], endpoint, advertisement_id)
                    &&& contracts[j].contract == #[trigger] counting(
                        contracts,
                        endpoint,
                        advertisement_id,
                    )[i]
                },
    decreases contracts.len(),
{
    if contracts.len() > 0 {
        let last = contracts.len() - 1;
        let rest = contracts.drop_last();
        only_contracts_that_count_are_scanned(known_devices, rest, endpoint, advertisement_id);
        let all = counting(contracts, endpoint, advertisement_id);
        let earlier = counting(rest, endpoint, advertisement_id);
        if counts(contracts[last], endpoint, advertisement_id) {
            assert(all.drop_last() =~= earlier);
        }
        assert forall|i: int| 0 <= i < all.len() implies exists|j: int|
            {
                &&& 0 <= j < contracts.len()
                &&& counts(#[trigger] contracts[j], endpoint, advertisement_id)
                &&& contracts[j].contract == #[trigger] all[i]
            } by {
            if i < earlier.len() {
                assert(all[i] == earlier[i]);
                let j = choose|j: int|
                    {
                        &&& 0 <= j < rest.len()
                        &&& counts(#[trigger] rest[j], endpoint, advertisement_id)
                        &&& rest[j].contract == earlier[i]
                    };
                assert(contracts[j] == rest[j]);
            } else {
                assert(contracts[last].contract == all[i]);
            }
        }
    }
}

/// A look through the contracts on a manager's devices.
#[derive(Debug)]
pub struct ClaimScan {
    known_devices: TextSet,
    next_claims: TextMap<ClaimRoute>,
    invalid_claim_devices: TextSet,
}

impl View for ClaimScan {
    type V = ScanModel;

    closed spec fn view(&self) -> ScanModel {
        ScanModel {
            known_devices: self.known_devices@,
            next_claims: self.next_claims.deep_view(),
            invalid_devices: self.invalid_claim_devices@,
        }
    }
}

impl ClaimScan {
    /// Before the first contract.
    pub fn new(known_devices: TextSet) -> (r: Self)
        ensures
            r@ == scanned(known_devices@, Seq::empty()),
    {
        let next_claims: TextMap<ClaimRoute> = TextMap::new();
        assert(next_claims.deep_view() =~= Map::<Seq<char>, ClaimRouteModel>::empty());
        ClaimScan { known_devices, next_claims, invalid_claim_devices: TextSet::new() }
    }

    /// Whether the terms are about the manager as it is advertised now.
    pub fn concerns(terms: &ClaimTerms, endpoint: &str, advertisement_id: &str) -> (r: bool)
        ensures
            r == terms_concern(terms.deep_view(), endpoint@, advertisement_id@),
    {
        same_text(terms.manager_endpoint.as_str(), endpoint) && same_text(
            terms.manager_advertisement_id.as_str(),
            advertisement_id,
        )
    }

    /// Takes a contract into account.
    pub fn add_contract(
        &mut self,
        key: &str,
        terms: &ClaimTerms,
        valid: bool,
        controller_session: Option<&str>,
    )
        ensures
            final(self)@ == scan_after(
                old(self)@,
                ContractModel {
                    key: key@,
                    terms: terms.deep_view(),
                    valid,
                    controller_session: controller_session.deep_view(),
                },
            ),
    {
        let ghost before = self@;
        let ghost contract = ContractModel {
            key: key@,
            terms: terms.deep_view(),
            valid,
            controller_session: controller_session.deep_view(),
        };
        let ghost ids = terms.deep_view().device_ids;
        let n: usize = terms.device_ids.len();
        let mut i: usize = 0;
        if !valid {
            while i < n
                invariant
                    i <= n == terms.device_ids@.len(),
                    ids == terms.device_ids.deep_view(),
                    self@.known_devices == before.known_devices,
                    self@.next_claims == before.next_claims,
                    forall|device: Seq<char>| #[trigger]
                        self@.invalid_devices.contains(device) <==> before.invalid_devices.contains(
                            device,
                        ) || (ids.take(i as int).contains(device) && before.known_devices.contains(
                            device,
                        )),
                decreases n - i,
            {
                let device_id = &terms.device_ids[i];
                let ghost held = self@.invalid_devices;
                assert(ids[i as int] == device_id@);
                if self.known_devices.contains(device_id.as_str()) {
                    self.invalid_claim_devices.insert(device_id.clone());
                }
                proof {
                    assert(ids.take(i + 1) =~= ids.take(i as int).push(device_id@));
                    assert forall|device: Seq<char>| #[trigger]
                        self@.invalid_devices.contains(device) <==> before.invalid_devices.contains(
                            device,
                        ) || (ids.take(i + 1).contains(device) && before.known_devices.contains(
                            device,
                        )) by {
                        lemma_push_contains(ids.take(i as int), device_id@, device);
                        assert(held.contains(device) <==> before.invalid_devices.contains(device)
                            || (ids.take(i as int).contains(device)
                            && before.known_devices.contains(device)));
                    }
                }
                i += 1;
            }
            proof {
                assert(ids.take(n as int) =~= ids);
                assert(self@.invalid_devices =~= scan_after(before, contract).invalid_devices);
            }
            return;
        }
        let session = match controller_session {
            Some(session) => session,
            None => return,
        };
        while i < n
            invariant
                i <= n == terms.device_ids@.len(),
                ids == terms.device_ids.deep_view(),
                ids == contract.terms.device_ids,
                contract.key == key@,
                contract.terms == terms.deep_view(),
                contract.controller_session == Some(session@),
                self@.known_devices == before.known_devices,
                self@.invalid_devices == before.invalid_devices,
                forall|device: Seq<char>| #[trigger]
                    self@.next_claims.contains_key(device) <==> before.next_claims.contains_key(
                        device,
                    ) || (ids.take(i as int).contains(device) && before.known_devices.contains(
                        device,
                    )),
                forall|device: Seq<char>|
                    self@.next_claims.contains_key(device) ==> #[trigger] self@.next_claims[device]
                        == if ids.take(i as int).contains(device) && before.known_devices.contains(
                        device,
                    ) {
                        contract_route(contract)
                    } else {
                        before.next_claims[device]
                    },
            decreases n - i,
        {
            let device_id = &terms.device_ids[i];
            let ghost held = self@.next_claims;
            assert(ids[i as int] == device_id@);
            let route = ClaimRoute {
                controller_endpoint: terms.controller_endpoint.clone(),
                controller_session_id: session.to_owned(),
                contract_key: key.to_owned(),
                claim_id: terms.claim_id.clone(),
            };
            assert(route.deep_view() == contract_route(contract));
            if self.known_devices.contains(device_id.as_str()) {
                self.next_claims.insert(device_id.clone(), route);
                assert(self@.next_claims =~= held.insert(device_id@, contract_route(contract)));
            }
            proof {
                assert(ids.take(i + 1) =~= ids.take(i as int).push(device_id@));
                assert forall|device: Seq<char>| #[trigger]
                    self@.next_claims.contains_key(device) <==> before.next_claims.contains_key(
                        device,
                    ) || (ids.take(i + 1).contains(device) && before.known_devices.contains(
                        device,
                    )) by {
                    lemma_push_contains(ids.take(i as int), device_id@, device);
                    assert(held.contains_key(device) <==> before.next_claims.contains_key(device)
                        || (ids.take(i as int).contains(device) && before.known_devices.contains(
                        device,
                    )));
                }
                assert forall|device: Seq<char>|
                    self@.next_claims.contains_key(
                        device,
                    ) implies #[trigger] self@.next_claims[device] == if ids.take(i + 1).contains(
                    device,
                ) && before.known_devices.contains(device) {
                    contract_route(contract)
                } else {
                    before.next_claims[device]
                } by {
                    lemma_push_contains(ids.take(i as int), device_id@, device);
                    if held.contains_key(device) {
                        assert(held[device] == if ids.take(i as int).contains(device)
                            && before.known_devices.contains(device) {
                            contract_route(contract)
                        } else {
                            before.next_claims[device]
                        });
                    }
                }
            }
            i += 1;
        }
        proof {
            assert(ids.take(n as int) =~= ids);
            let after = scan_after(before, contract);
            assert(self@.next_claims =~= after.next_claims);
        }
    }

    /// Takes a contract into account if it counts for the manager, and leaves it out otherwise.
    pub fn consider(
        &mut self,
        participants: &Vec<String>,
        endpoint: &str,
        advertisement_id: &str,
        key: &str,
        terms: &ClaimTerms,
        valid: bool,
        controller_session: Option<&str>,
    )
        ensures
            final(self)@ == scan_considering(
                old(self)@,
                FoundContractModel {
                    participants: participants.deep_view(),
                    contract: ContractModel {
                        key: key@,
                        terms: terms.deep_view(),
                        valid,
                        controller_session: controller_session.deep_view(),
                    },
                },
                endpoint@,
                advertisement_id@,
            ),
    {
        if is_participant(participants, endpoint) && Self::concerns(
            terms,
            endpoint,
            advertisement_id,
        ) {
            self.add_contract(key, terms, valid, controller_session);
        }
    }
}

// ---------------------------------------------------------------------------------------------
// What the manager publishes
// ---------------------------------------------------------------------------------------------

/// A message that a manager sends about a device: to one session of a controller, or to all controllers.
#[derive(Debug, PartialEq, Eq)]
pub struct OutboundMessage {
    pub manager_id: String,
    pub session_id: String,
    pub device_id: String,
    pub recipient: Option<(String, String)>,
    pub body: HardwareMessageBody,
}

/// What a message to controllers is.
pub struct OutboundMessageModel {
    pub manager_id: Seq<char>,
    pub session_id: Seq<char>,
    pub device_id: Seq<char>,
    pub recipient: Option<(Seq<char>, Seq<char>)>,
    pub body: HardwareMessageBodyModel,
}

impl DeepView for OutboundMessage {
    type V = OutboundMessageModel;

    open spec fn deep_view(&self) -> OutboundMessageModel {
        OutboundMessageModel {
            manager_id: self.manager_id.deep_view(),
            session_id: self.session_id.deep_view(),
            device_id: self.device_id.deep_view(),
            recipient: self.recipient.deep_view(),
            body: self.body.deep_view(),
        }
    }
}

/// What the manager does.
#[derive(Debug, PartialEq, Eq)]
pub enum ManagerAction {
    /// Advertise the devices anew.
    Advertise,
    /// Send a message.
    Publish(OutboundMessage),
}

/// What an action is.
pub enum ManagerActionModel {
    Advertise,
    Publish(OutboundMessageModel),
}

impl DeepView for ManagerAction {
    type V = ManagerActionModel;

    open spec fn deep_view(&self) -> ManagerActionModel {
        match self {
            ManagerAction::Advertise => ManagerActionModel::Advertise,
            ManagerAction::Publish(message) => ManagerActionModel::Publish(message.deep_view()),
        }
    }
}

/// How often a device can be claimed.
#[derive(Debug, Clone, Copy, PartialEq, Eq, Structural)]
pub struct ProfileCapacity {
    pub total_instances: u64,
    pub claimed_instances: u64,
    pub available_instances: u64,
}

impl DeepView for ProfileCapacity {
    type V = ProfileCapacity;

    open spec fn deep_view(&self) -> ProfileCapacity {
        *self
    }
}

/// A device as it is advertised.
#[derive(Debug)]
pub struct HardwareAdvertisementDevice {
    pub capacity: ProfileCapacity,
    pub device_ref: DeviceRef,
    pub descriptor: DeviceDescriptor,
}

/// What an advertised device is.
pub struct HardwareAdvertisementDeviceModel {
    pub capacity: ProfileCapacity,
    pub device_ref: DeviceRefModel,
    pub descriptor: DeviceDescriptorModel,
}

impl DeepView for HardwareAdvertisementDevice {
    type V = HardwareAdvertisementDeviceModel;

    open spec fn deep_view(&self) -> HardwareAdvertisementDeviceModel {
        HardwareAdvertisementDeviceModel {
            capacity: self.capacity.deep_view(),
            device_ref: self.device_ref.deep_view(),
            descriptor: self.descriptor.deep_view(),
        }
    }
}

/// What a manager advertises.
#[derive(Debug)]
pub struct HardwareBeaconPayload {
    pub manager_id: String,
    pub manager_endpoint: EndpointAddress,
    pub session_id: String,
    pub labels: TextMap<String>,
    pub devices: TextMap<HardwareAdvertisementDevice>,
}

/// What an advertisement is.
pub struct HardwareBeaconPayloadModel {
    pub manager_id: Seq<char>,
    pub manager_endpoint: EndpointAddressModel,
    pub session_id: Seq<char>,
    pub labels: Map<Seq<char>, Seq<char>>,
    pub devices: Map<Seq<char>, HardwareAdvertisementDeviceModel>,
}

impl DeepView for HardwareBeaconPayload {
    type V = HardwareBeaconPayloadModel;

    open spec fn deep_view(&self) -> HardwareBeaconPayloadModel {
        HardwareBeaconPayloadModel {
            manager_id: self.manager_id@,
            manager_endpoint: self.manager_endpoint.deep_view(),
            session_id: self.session_id@,
            labels: self.labels.deep_view(),
            devices: self.devices.deep_view(),
        }
    }
}

/// A device as it is advertised: it can be claimed once.
pub open spec fn advertised_device(
    manager_id: Seq<char>,
    device_id: Seq<char>,
    descriptor: DeviceDescriptorModel,
) -> HardwareAdvertisementDeviceModel {
    HardwareAdvertisementDeviceModel {
        capacity: ProfileCapacity {
            total_instances: 1,
            claimed_instances: 0,
            available_instances: 1,
        },
        device_ref: DeviceRefModel {
            manager_id,
            device_id,
            fingerprint: Some(descriptor.fingerprint),
        },
        descriptor,
    }
}

// ---------------------------------------------------------------------------------------------
// What the manager hears
// ---------------------------------------------------------------------------------------------

/// A message that has come in. The body is missing where it could not be read.
#[derive(Debug)]
pub struct InboundMessage {
    pub lane: String,
    pub expired: bool,
    pub body: Option<HardwareMessageBody>,
    pub subject_device_id: Option<String>,
    pub subject_manager_id: Option<String>,
    pub recipient_endpoint: Option<String>,
    pub sender: String,
    pub sender_session_id: String,
}

/// What a message that has come in is.
pub struct InboundMessageModel {
    pub lane: Seq<char>,
    pub expired: bool,
    pub body: Option<HardwareMessageBodyModel>,
    pub subject_device_id: Option<Seq<char>>,
    pub subject_manager_id: Option<Seq<char>>,
    pub recipient_endpoint: Option<Seq<char>>,
    pub sender: Seq<char>,
    pub sender_session_id: Seq<char>,
}

impl DeepView for InboundMessage {
    type V = InboundMessageModel;

    open spec fn deep_view(&self) -> InboundMessageModel {
        InboundMessageModel {
            lane: self.lane@,
            expired: self.expired,
            body: self.body.deep_view(),
            subject_device_id: self.subject_device_id.deep_view(),
            subject_manager_id: self.subject_manager_id.deep_view(),
            recipient_endpoint: self.recipient_endpoint.deep_view(),
            sender: self.sender@,
            sender_session_id: self.sender_session_id@,
        }
    }
}

/// Why a message is dropped.
#[derive(Debug, Clone, Copy, PartialEq, Eq, Structural)]
pub enum DropReason {
    /// It is of another lane.
    OtherLane,
    /// Its time is over.
    Expired,
    /// Its body cannot be read.
    UnreadableBody,
    /// It asks nothing.
    NotACommand,
    /// It names no device.
    NoDevice,
    /// It names no manager.
    NoManager,
    /// It asks what no device can do.
    UnsupportedCommand,
    /// It is for another.
    OtherRecipient,
    /// It is about another manager's device.
    OtherManager,
    /// It is about a device that is not there.
    UnknownDevice,
    /// It comes from a controller, or from a session of it, that the device is not routed to.
    NotTheClaimant,
    /// It is about a device that cannot be reached.
    ClosedDevice,
}

/// What becomes of a message that has come in.
#[derive(Debug, PartialEq, Eq)]
pub enum Admission {
    /// The device is asked, by the channel.
    Deliver { channel: u64, command: RuntimeCommand },
    /// The message is dropped.
    Drop(DropReason),
}

/// What becomes of a message.
pub enum AdmissionModel {
    Deliver { channel: u64, command: RuntimeCommandModel },
    Drop(DropReason),
}

impl DeepView for Admission {
    type V = AdmissionModel;

    open spec fn deep_view(&self) -> AdmissionModel {
        match self {
            Admission::Deliver { channel, command } => AdmissionModel::Deliver {
                channel: *channel,
                command: command.deep_view(),
            },
            Admission::Drop(reason) => AdmissionModel::Drop(*reason),
        }
    }
}

// ---------------------------------------------------------------------------------------------
// What the manager knows
// ---------------------------------------------------------------------------------------------

/// What the state of a manager is.
pub struct ManagerModel {
    pub manager_id: Seq<char>,
    pub session_id: Seq<char>,
    pub devices: Map<Seq<char>, DeviceDescriptorModel>,
    pub channels: Map<Seq<char>, u64>,
    pub routes: Routes,
    pub leases: Map<Seq<char>, Lease>,
    pub advertisement_dirty: bool,
}

impl ManagerModel {
    /// The address of the manager.
    pub open spec fn endpoint(self) -> Seq<char> {
        "hardware_manager:"@ + self.manager_id
    }

    /// The name of the manager's advertisement, another in each session.
    pub open spec fn advertisement_id(self) -> Seq<char> {
        "hardware-"@ + self.manager_id + seq!['-'] + self.session_id
    }

    /// The lease of a contract.
    pub open spec fn lease(self, key: Seq<char>) -> Option<Lease> {
        if self.leases.contains_key(key) {
            Some(self.leases[key])
        } else {
            None
        }
    }

    /// The state with another lease of a contract.
    pub open spec fn with_lease(self, key: Seq<char>, lease: Option<Lease>) -> ManagerModel {
        ManagerModel {
            leases: match lease {
                Some(lease) => self.leases.insert(key, lease),
                None => self.leases,
            },
            ..self
        }
    }
}

/// What the manager advertises.
pub open spec fn payload_of(state: ManagerModel) -> Option<HardwareBeaconPayloadModel> {
    match address_of(state.endpoint()) {
        Some(address) => Some(
            HardwareBeaconPayloadModel {
                manager_id: state.manager_id,
                manager_endpoint: address,
                session_id: state.session_id,
                labels: Map::empty(),
                devices: Map::new(
                    |device_id: Seq<char>| state.devices.contains_key(device_id),
                    |device_id: Seq<char>|
                        advertised_device(
                            state.manager_id,
                            device_id,
                            state.devices[device_id],
                        ),
                ),
            },
        ),
        None => None,
    }
}

/// A message to all controllers.
pub open spec fn broadcast(
    state: ManagerModel,
    device_id: Seq<char>,
    body: HardwareMessageBodyModel,
) -> ManagerActionModel {
    ManagerActionModel::Publish(
        OutboundMessageModel {
            manager_id: state.manager_id,
            session_id: state.session_id,
            device_id,
            recipient: None,
            body,
        },
    )
}

/// What the manager does about an event, and what it knows from then on. Input goes to the session
/// of the controller that the device is routed to, and to no one where the device is not routed.
pub open spec fn event_effect(state: ManagerModel, event: WorkerEventModel) -> (
    ManagerModel,
    Seq<ManagerActionModel>,
) {
    match event {
        WorkerEventModel::Connected { device_id, channel, device, .. } => (
            ManagerModel {
                devices: state.devices.insert(device_id, device),
                channels: state.channels.insert(device_id, channel),
                ..state
            },
            seq![
                ManagerActionModel::Advertise,
                broadcast(
                    state,
                    device_id,
                    HardwareMessageBodyModel::DeviceAvailable { descriptor: device },
                ),
            ],
        ),
        WorkerEventModel::Input { device_id, body } => (
            state,
            match body {
                HardwareMessageBodyModel::ControlInput { device_ref, .. } => if state.routes.contains_key(
                    device_id,
                ) {
                    seq![
                        ManagerActionModel::Publish(
                            OutboundMessageModel {
                                manager_id: device_ref.manager_id,
                                session_id: state.session_id,
                                device_id,
                                recipient: Some(
                                    (
                                        state.routes[device_id].controller_endpoint,
                                        state.routes[device_id].controller_session_id,
                                    ),
                                ),
                                body,
                            },
                        ),
                    ]
                } else {
                    Seq::empty()
                },
                _ => Seq::empty(),
            },
        ),
        WorkerEventModel::Disconnected { device_id, .. } => (
            ManagerModel {
                devices: state.devices.remove(device_id),
                channels: state.channels.remove(device_id),
                routes: state.routes.remove(device_id),
                ..state
            },
            seq![
                ManagerActionModel::Advertise,
                broadcast(
                    state,
                    device_id,
                    HardwareMessageBodyModel::DeviceUnavailable {
                        device_ref: DeviceRefModel {
                            manager_id: state.manager_id,
                            device_id,
                            fingerprint: None,
                        },
                        reason: Some("disconnected"@),
                    },
                ),
            ],
        ),
        WorkerEventModel::Failed { .. } => (state, Seq::empty()),
    }
}

/// What becomes of a message that has come in.
pub open spec fn admitted(state: ManagerModel, message: InboundMessageModel) -> AdmissionModel {
    if message.lane != HARDWARE_MESSAGES_LANE@ {
        AdmissionModel::Drop(DropReason::OtherLane)
    } else if message.expired {
        AdmissionModel::Drop(DropReason::Expired)
    } else if message.body is None {
        AdmissionModel::Drop(DropReason::UnreadableBody)
    } else if !(message.body->0 is ControlCommand) {
        AdmissionModel::Drop(DropReason::NotACommand)
    } else if message.subject_device_id is None {
        AdmissionModel::Drop(DropReason::NoDevice)
    } else if message.subject_manager_id is None {
        AdmissionModel::Drop(DropReason::NoManager)
    } else {
        match requested(message.body->0) {
            Err(_) => AdmissionModel::Drop(DropReason::UnsupportedCommand),
            Ok(command) => delivered(
                state,
                message,
                message.subject_manager_id->0,
                message.subject_device_id->0,
                command,
            ),
        }
    }
}

/// What becomes of a request to a device.
pub open spec fn delivered(
    state: ManagerModel,
    message: InboundMessageModel,
    manager_id: Seq<char>,
    device_id: Seq<char>,
    command: RuntimeCommandModel,
) -> AdmissionModel {
    if message.recipient_endpoint != Some(state.endpoint()) {
        AdmissionModel::Drop(DropReason::OtherRecipient)
    } else if manager_id != state.manager_id {
        AdmissionModel::Drop(DropReason::OtherManager)
    } else if !state.devices.contains_key(device_id) {
        AdmissionModel::Drop(DropReason::UnknownDevice)
    } else if !state.routes.contains_key(device_id) || state.routes[device_id].controller_endpoint
        != message.sender || state.routes[device_id].controller_session_id
        != message.sender_session_id {
        AdmissionModel::Drop(DropReason::NotTheClaimant)
    } else if !state.channels.contains_key(device_id) {
        AdmissionModel::Drop(DropReason::ClosedDevice)
    } else {
        AdmissionModel::Deliver { channel: state.channels[device_id], command }
    }
}

/// Whether the orders are those to reset, once each and by its channel, every device that can be
/// reached and that new routes and invalid contracts call to be reset.
pub open spec fn orders_resets(
    state: ManagerModel,
    routes: Routes,
    invalid: Set<Seq<char>>,
    orders: Seq<(String, u64)>,
) -> bool {
    &&& forall|i: int|
        0 <= i < orders.len() ==> {
            &&& route_resets(state.routes, routes, invalid).contains((#[trigger] orders[i]).0@)
            &&& state.channels.contains_key(orders[i].0@)
            &&& orders[i].1 == state.channels[orders[i].0@]
        }
    &&& forall|device: Seq<char>|
        #[trigger] route_resets(state.routes, routes, invalid).contains(device)
            && state.channels.contains_key(device) ==> exists|i: int|
            0 <= i < orders.len() && (#[trigger] orders[i]).0@ == device
    &&& forall|i: int, j: int|
        0 <= i < j < orders.len() ==> (#[trigger] orders[i]).0@ != (#[trigger] orders[j]).0@
}

/// The state of a manager.
#[derive(Debug)]
pub struct ManagerState {
    manager_id: String,
    endpoint: String,
    session_id: String,
    advertisement_id: String,
    devices: TextMap<DeviceDescriptor>,
    command_map: TextMap<u64>,
    routing: ClaimRoutes,
    concord_tokens: TextMap<Lease>,
    advertisement_dirty: bool,
}

impl View for ManagerState {
    type V = ManagerModel;

    closed spec fn view(&self) -> ManagerModel {
        ManagerModel {
            manager_id: self.manager_id@,
            session_id: self.session_id@,
            devices: self.devices.deep_view(),
            channels: self.command_map@,
            routes: self.routing@,
            leases: self.concord_tokens@,
            advertisement_dirty: self.advertisement_dirty,
        }
    }
}

impl ManagerState {
    /// The address and the advertisement are those of the manager and its session, and every device
    /// can be reached.
    #[verifier::type_invariant]
    spec fn well_formed(self) -> bool {
        &&& self.endpoint@ == self@.endpoint()
        &&& self.advertisement_id@ == self@.advertisement_id()
        &&& self.devices@.dom() == self.command_map@.dom()
    }

    /// A manager without devices.
    pub fn new(manager_id: String, session_id: String) -> (r: Self)
        ensures
            r@ == (ManagerModel {
                manager_id: manager_id@,
                session_id: session_id@,
                devices: Map::empty(),
                channels: Map::empty(),
                routes: Map::empty(),
                leases: Map::empty(),
                advertisement_dirty: false,
            }),
    {
        let endpoint = hardware_manager_address(manager_id.as_str());
        let mut advertisement_id = joined("hardware-", manager_id.as_str());
        advertisement_id.push('-');
        push_text(&mut advertisement_id, session_id.as_str());
        let devices: TextMap<DeviceDescriptor> = TextMap::new();
        let command_map: TextMap<u64> = TextMap::new();
        proof {
            assert(advertisement_id@ =~= "hardware-"@ + manager_id@ + seq!['-'] + session_id@);
            assert(devices.deep_view() =~= Map::<Seq<char>, DeviceDescriptorModel>::empty());
            assert(devices@.dom() =~= command_map@.dom());
        }
        ManagerState {
            manager_id,
            endpoint,
            session_id,
            advertisement_id,
            devices,
            command_map,
            routing: ClaimRoutes::new(),
            concord_tokens: TextMap::new(),
            advertisement_dirty: false,
        }
    }

    /// The name of the manager.
    pub fn manager_id(&self) -> (r: &String)
        ensures
            r@ == self@.manager_id,
    {
        &self.manager_id
    }

    /// The session of the manager.
    pub fn session_id(&self) -> (r: &String)
        ensures
            r@ == self@.session_id,
    {
        &self.session_id
    }

    /// The address of the manager.
    pub fn endpoint(&self) -> (r: &String)
        ensures
            r@ == self@.endpoint(),
    {
        proof {
            use_type_invariant(self);
        }
        &self.endpoint
    }

    /// The name of the manager's advertisement.
    pub fn advertisement_id(&self) -> (r: &String)
        ensures
            r@ == self@.advertisement_id(),
    {
        proof {
            use_type_invariant(self);
        }
        &self.advertisement_id
    }

    /// The ids of the devices that are there. Each of them can be reached.
    pub fn known_devices(&self) -> (r: TextSet)
        ensures
            r@ == self@.devices.dom(),
            r@ == self@.channels.dom(),
    {
        proof {
            use_type_invariant(self);
        }
        let mut known = TextSet::new();
        let n = self.devices.len();
        let mut i: usize = 0;
        while i < n
            invariant
                i <= n == self.devices.keys().len(),
                forall|device: Seq<char>| #[trigger]
                    known@.contains(device) <==> self.devices.keys().take(i as int).contains(
                        device,
                    ),
            decreases n - i,
        {
            let ghost held = known@;
            let device_id = self.devices.key_at(i);
            known.insert(device_id.clone());
            proof {
                let keys = self.devices.keys();
                assert(keys.take(i + 1) =~= keys.take(i as int).push(device_id@));
                assert forall|device: Seq<char>| #[trigger]
                    known@.contains(device) <==> keys.take(i + 1).contains(device) by {
                    lemma_push_contains(keys.take(i as int), device_id@, device);
                    assert(held.contains(device) <==> keys.take(i as int).contains(device));
                }
            }
            i += 1;
        }
        proof {
            assert(self.devices.keys().take(n as int) =~= self.devices.keys());
            assert forall|device: Seq<char>| #[trigger]
                known@.contains(device) == self@.devices.dom().contains(device) by {
                assert(self.devices@.contains_key(device) <==> self.devices.keys().contains(
                    device,
                ));
            }
            assert(known@ =~= self@.devices.dom());
            assert(self@.devices.dom() =~= self.devices@.dom());
        }
        known
    }

    /// What the manager advertises, if its address is one.
    pub fn hardware_payload(&self) -> (r: Option<HardwareBeaconPayload>)
        ensures
            r.deep_view() == payload_of(self@),
    {
        proof {
            use_type_invariant(self);
        }
        let manager_endpoint = EndpointAddress::parse(self.endpoint.as_str())?;
        let mut devices: TextMap<HardwareAdvertisementDevice> = TextMap::new();
        let ghost whole = payload_of(self@)->0.devices;
        let ghost keys = self.devices.keys();
        let n = self.devices.len();
        let mut i: usize = 0;
        while i < n
            invariant
                i <= n == self.devices.keys().len(),
                keys == self.devices.keys(),
                payload_of(self@) is Some,
                whole == payload_of(self@)->0.devices,
                forall|device: Seq<char>| #[trigger]
                    devices@.contains_key(device) <==> keys.take(i as int).contains(device),
                forall|device: Seq<char>|
                    devices@.contains_key(device) ==> (#[trigger] devices@[device]).deep_view()
                        == whole[device],
            decreases n - i,
        {
            let ghost held = devices@;
            let device_id = self.devices.key_at(i);
            let descriptor = self.devices.value_at(i);
            let device = HardwareAdvertisementDevice {
                capacity: ProfileCapacity {
                    total_instances: 1,
                    claimed_instances: 0,
                    available_instances: 1,
                },
                device_ref: DeviceRef {
                    manager_id: self.manager_id.clone(),
                    device_id: device_id.clone(),
                    fingerprint: Some(descriptor.fingerprint.clone()),
                },
                descriptor: descriptor.clone(),
            };
            assert(device.deep_view() == whole[device_id@]);
            devices.insert(device_id.clone(), device);
            proof {
                assert(keys.take(i + 1) =~= keys.take(i as int).push(device_id@));
                assert forall|device: Seq<char>| #[trigger]
                    devices@.contains_key(device) <==> keys.take(i + 1).contains(device) by {
                    lemma_push_contains(keys.take(i as int), device_id@, device);
                    assert(held.contains_key(device) <==> keys.take(i as int).contains(device));
                }
            }
            i += 1;
        }
        let labels: TextMap<String> = TextMap::new();
        proof {
            assert(keys.take(n as int) =~= keys);
            assert(labels.deep_view() =~= Map::<Seq<char>, Seq<char>>::empty());
            assert forall|device: Seq<char>| #[trigger]
                devices.deep_view().contains_key(device) == whole.contains_key(device) by {
                assert(devices@.contains_key(device) <==> keys.contains(device));
                assert(self.devices@.contains_key(device) <==> keys.contains(device));
            }
            assert forall|device: Seq<char>|
                devices.deep_view().contains_key(device) implies #[trigger] devices.deep_view()[device]
                == whole[device] by {
                assert(devices@.contains_key(device));
                assert(devices@[device].deep_view() == whole[device]);
            }
            assert(devices.deep_view() =~= whole);
        }
        Some(
            HardwareBeaconPayload {
                manager_id: self.manager_id.clone(),
                manager_endpoint,
                session_id: self.session_id.clone(),
                labels,
                devices,
            },
        )
    }

    /// Takes note of whether the devices could be advertised.
    pub fn on_advertised(&mut self, published: bool)
        ensures
            final(self)@ == (ManagerModel { advertisement_dirty: !published, ..old(self)@ }),
    {
        proof {
            use_type_invariant(&*self);
        }
        self.advertisement_dirty = !published;
    }

    /// What the manager does about an event.
    pub fn on_worker_event(&mut self, event: WorkerEvent) -> (r: Vec<ManagerAction>)
        ensures
            (final(self)@, r.deep_view()) == event_effect(old(self)@, event.deep_view()),
    {
        proof {
            use_type_invariant(&*self);
        }
        let ghost before = self@;
        let ghost told = event.deep_view();
        let mut actions: Vec<ManagerAction> = Vec::new();
        match event {
            WorkerEvent::Connected { path_key: _, device_id, channel, device } => {
                let descriptor = device.clone();
                self.set_device(device_id.clone(), device, channel);
                actions.push(ManagerAction::Advertise);
                actions.push(
                    ManagerAction::Publish(
                        OutboundMessage {
                            manager_id: self.manager_id.clone(),
                            session_id: self.session_id.clone(),
                            device_id,
                            recipient: None,
                            body: HardwareMessageBody::DeviceAvailable { descriptor },
                        },
                    ),
                );
            },
            WorkerEvent::Input { device_id, body } => {
                let manager_id = match &body {
                    HardwareMessageBody::ControlInput { device_ref, .. } => Some(
                        device_ref.manager_id.clone(),
                    ),
                    _ => None,
                };
                if let Some(manager_id) = manager_id {
                    if let Some(route) = self.routing.claim_recipient(device_id.as_str()) {
                        let recipient = (
                            route.controller_endpoint.clone(),
                            route.controller_session_id.clone(),
                        );
                        actions.push(
                            ManagerAction::Publish(
                                OutboundMessage {
                                    manager_id,
                                    session_id: self.session_id.clone(),
                                    device_id,
                                    recipient: Some(recipient),
                                    body,
                                },
                            ),
                        );
                    }
                }
            },
            WorkerEvent::Disconnected { path_key: _, device_id } => {
                self.forget_device(device_id.as_str());
                actions.push(ManagerAction::Advertise);
                actions.push(
                    ManagerAction::Publish(
                        OutboundMessage {
                            manager_id: self.manager_id.clone(),
                            session_id: self.session_id.clone(),
                            device_id: device_id.clone(),
                            recipient: None,
                            body: HardwareMessageBody::DeviceUnavailable {
                                device_ref: DeviceRef {
                                    manager_id: self.manager_id.clone(),
                                    device_id,
                                    fingerprint: None,
                                },
                                reason: Some("disconnected".to_owned()),
                            },
                        },
                    ),
                );
            },
            WorkerEvent::Failed { path_key: _, error: _ } => {},
        }
        assert(actions.deep_view() =~= event_effect(before, told).1);
        actions
    }

    fn set_device(&mut self, device_id: String, device: DeviceDescriptor, channel: u64)
        ensures
            final(self)@ == (ManagerModel {
                devices: old(self)@.devices.insert(device_id@, device.deep_view()),
                channels: old(self)@.channels.insert(device_id@, channel),
                ..old(self)@
            }),
    {
        proof {
            use_type_invariant(&*self);
        }
        let mut state = ManagerState::new(String::new(), String::new());
        std::mem::swap(&mut state, self);
        let ghost before = state@;
        let ManagerState {
            manager_id,
            endpoint,
            session_id,
            advertisement_id,
            mut devices,
            mut command_map,
            routing,
            concord_tokens,
            advertisement_dirty,
        } = state;
        devices.insert(device_id.clone(), device);
        command_map.insert(device_id, channel);
        assert(devices.deep_view() =~= before.devices.insert(device_id@, device.deep_view()));
        assert(devices@.dom() =~= command_map@.dom());
        *self = ManagerState {
            manager_id,
            endpoint,
            session_id,
            advertisement_id,
            devices,
            command_map,
            routing,
            concord_tokens,
            advertisement_dirty,
        };
    }

    fn forget_device(&mut self, device_id: &str)
        ensures
            final(self)@ == (ManagerModel {
                devices: old(self)@.devices.remove(device_id@),
                channels: old(self)@.channels.remove(device_id@),
                routes: old(self)@.routes.remove(device_id@),
                ..old(self)@
            }),
    {
        proof {
            use_type_invariant(&*self);
        }
        let mut state = ManagerState::new(String::new(), String::new());
        std::mem::swap(&mut state, self);
        let ghost before = state@;
        let ManagerState {
            manager_id,
            endpoint,
            session_id,
            advertisement_id,
            mut devices,
            mut command_map,
            mut routing,
            concord_tokens,
            advertisement_dirty,
        } = state;
        devices.remove(device_id);
        command_map.remove(device_id);
        routing.remove_device(device_id);
        assert(devices.deep_view() =~= before.devices.remove(device_id@));
        assert(devices@.dom() =~= command_map@.dom());
        *self = ManagerState {
            manager_id,
            endpoint,
            session_id,
            advertisement_id,
            devices,
            command_map,
            routing,
            concord_tokens,
            advertisement_dirty,
        };
    }

    /// What becomes of a message that has come in.
    pub fn route_inbound_command(&self, message: InboundMessage) -> (r: Admission)
        ensures
            r.deep_view() == admitted(self@, message.deep_view()),
    {
        proof {
            use_type_invariant(self);
        }
        if !same_text(message.lane.as_str(), HARDWARE_MESSAGES_LANE) {
            return Admission::Drop(DropReason::OtherLane);
        }
        if message.expired {
            return Admission::Drop(DropReason::Expired);
        }
        let body = match message.body {
            Some(body) => body,
            None => return Admission::Drop(DropReason::UnreadableBody),
        };
        if !body.is_command() {
            return Admission::Drop(DropReason::NotACommand);
        }
        let device_id = match &message.subject_device_id {
            Some(device_id) => device_id,
            None => return Admission::Drop(DropReason::NoDevice),
        };
        let manager_id = match &message.subject_manager_id {
            Some(manager_id) => manager_id,
            None => return Admission::Drop(DropReason::NoManager),
        };
        let command = match runtime_command_from_body(body) {
            Ok(command) => command,
            Err(_) => return Admission::Drop(DropReason::UnsupportedCommand),
        };
        let for_me = match &message.recipient_endpoint {
            Some(endpoint) => same_text(endpoint.as_str(), self.endpoint.as_str()),
            None => false,
        };
        if !for_me {
            return Admission::Drop(DropReason::OtherRecipient);
        }
        if !same_text(manager_id.as_str(), self.manager_id.as_str()) {
            return Admission::Drop(DropReason::OtherManager);
        }
        if !self.devices.contains_key(device_id.as_str()) {
            return Admission::Drop(DropReason::UnknownDevice);
        }
        let from_claimant = match self.routing.claim_recipient(device_id.as_str()) {
            Some(route) => same_text(
                route.controller_endpoint.as_str(),
                message.sender.as_str(),
            ) && same_text(
                route.controller_session_id.as_str(),
                message.sender_session_id.as_str(),
            ),
            None => false,
        };
        if !from_claimant {
            return Admission::Drop(DropReason::NotTheClaimant);
        }
        match self.command_map.get(device_id.as_str()) {
            Some(channel) => Admission::Deliver { channel: *channel, command },
            None => Admission::Drop(DropReason::ClosedDevice),
        }
    }

    /// Takes over what a look through the contracts has found, and tells which devices are to be
    /// reset for it and by which channels.
    pub fn reconcile(&mut self, scan: ClaimScan) -> (r: Vec<(String, u64)>)
        ensures
            final(self)@ == (ManagerModel { routes: scan@.next_claims, ..old(self)@ }),
            orders_resets(old(self)@, scan@.next_claims, only_invalid(scan@), r@),
    {
        let ghost found = scan@;
        let ClaimScan { known_devices: _, next_claims, invalid_claim_devices } = scan;
        let mut invalid = TextSet::new();
        let m = invalid_claim_devices.len();
        let mut j: usize = 0;
        while j < m
            invariant
                j <= m == invalid_claim_devices.items().len(),
                found.next_claims == next_claims.deep_view(),
                forall|device: Seq<char>| #[trigger]
                    invalid@.contains(device) <==> invalid_claim_devices.items().take(
                        j as int,
                    ).contains(device) && !found.next_claims.contains_key(device),
            decreases m - j,
        {
            let ghost held = invalid@;
            let device_id = invalid_claim_devices.item_at(j);
            if !next_claims.contains_key(device_id.as_str()) {
                invalid.insert(device_id.clone());
            }
            proof {
                let items = invalid_claim_devices.items();
                assert(items.take(j + 1) =~= items.take(j as int).push(device_id@));
                assert forall|device: Seq<char>| #[trigger]
                    invalid@.contains(device) <==> items.take(j + 1).contains(device)
                        && !found.next_claims.contains_key(device) by {
                    lemma_push_contains(items.take(j as int), device_id@, device);
                    assert(held.contains(device) <==> items.take(j as int).contains(device)
                        && !found.next_claims.contains_key(device));
                }
            }
            j += 1;
        }
        proof {
            let items = invalid_claim_devices.items();
            assert(items.take(m as int) =~= items);
            assert forall|device: Seq<char>| #[trigger]
                invalid@.contains(device) == only_invalid(found).contains(device) by {
                assert(invalid_claim_devices@.contains(device) <==> items.contains(device));
            }
            assert(invalid@ =~= only_invalid(found));
        }
        self.reconcile_routes(next_claims, invalid)
    }

    /// Takes over new routes, and tells which devices are to be reset for them and by which
    /// channels.
    pub fn reconcile_routes(&mut self, next_claims: TextMap<ClaimRoute>, invalid: TextSet) -> (r: Vec<
        (String, u64),
    >)
        ensures
            final(self)@ == (ManagerModel { routes: next_claims.deep_view(), ..old(self)@ }),
            orders_resets(old(self)@, next_claims.deep_view(), invalid@, r@),
    {
        proof {
            use_type_invariant(&*self);
        }
        let ghost before = self@;
        let mut routing = ClaimRoutes::new();
        std::mem::swap(&mut routing, &mut self.routing);
        let resets = routing.reconcile_snapshot(next_claims, invalid);
        self.routing = routing;
        let mut senders: Vec<(String, u64)> = Vec::new();
        let n = resets.len();
        let mut i: usize = 0;
        while i < n
            invariant
                i <= n == resets.items().len(),
                resets.items().no_duplicates(),
                self@.channels == before.channels,
                forall|k: int|
                    0 <= k < senders@.len() ==> resets.items().take(i as int).contains(
                        (#[trigger] senders@[k]).0@,
                    ),
                forall|k: int, l: int|
                    0 <= k < l < senders@.len() ==> (#[trigger] senders@[k]).0@ != (
                    #[trigger] senders@[l]).0@,
                forall|k: int|
                    0 <= k < senders@.len() ==> {
                        &&& resets@.contains((#[trigger] senders@[k]).0@)
                        &&& before.channels.contains_key(senders@[k].0@)
                        &&& senders@[k].1 == before.channels[senders@[k].0@]
                    },
                forall|device: Seq<char>| #[trigger]
                    resets.items().take(i as int).contains(device) && before.channels.contains_key(
                        device,
                    ) ==> exists|k: int|
                        0 <= k < senders@.len() && (#[trigger] senders@[k]).0@ == device,
            decreases n - i,
        {
            let ghost held = senders@;
            let device_id = resets.item_at(i);
            if let Some(channel) = self.command_map.get(device_id.as_str()) {
                senders.push((device_id.clone(), *channel));
                assert(senders@[held.len() as int].0@ == device_id@);
            }
            proof {
                let items = resets.items();
                assert(items.take(i + 1) =~= items.take(i as int).push(device_id@));
                assert(!items.take(i as int).contains(device_id@));
                assert forall|k: int| 0 <= k < senders@.len() implies items.take(i + 1).contains(
                    (#[trigger] senders@[k]).0@,
                ) by {
                    lemma_push_contains(items.take(i as int), device_id@, senders@[k].0@);
                    if k < held.len() {
                        assert(senders@[k] == held[k]);
                    }
                }
                assert forall|device: Seq<char>|
                    #[trigger] items.take(i + 1).contains(device) && before.channels.contains_key(
                        device,
                    ) implies exists|k: int|
                    0 <= k < senders@.len() && (#[trigger] senders@[k]).0@ == device by {
                    lemma_push_contains(items.take(i as int), device_id@, device);
                    if device != device_id@ {
                        assert(items.take(i as int).contains(device));
                        let k = choose|k: int|
                            0 <= k < held.len() && (#[trigger] held[k]).0@ == device;
                        assert(senders@[k] == held[k]);
                    }
                }
            }
            i += 1;
        }
        proof {
            let items = resets.items();
            assert(items.take(n as int) =~= items);
            assert forall|device: Seq<char>|
                #[trigger] resets@.contains(device) && before.channels.contains_key(
                    device,
                ) implies exists|k: int|
                0 <= k < senders@.len() && (#[trigger] senders@[k]).0@ == device by {
                assert(items.contains(device));
                assert(items.take(n as int).contains(device));
            }
        }
        senders
    }

    /// What is to be done to keep the token of a contract. A contract may show the manager attached
    /// already.
    pub fn begin_lease(&mut self, contract_key: &str, attached: bool) -> (r: LeaseAction)
        ensures
            final(self)@ == old(self)@.with_lease(
                contract_key@,
                lease_step(old(self)@.lease(contract_key@), attached).0,
            ),
            r == lease_step(old(self)@.lease(contract_key@), attached).1,
    {
        let ghost before = self@;
        let existing = match self.concord_tokens.get(contract_key) {
            Some(lease) => Some(*lease),
            None => None,
        };
        let mut lost = false;
        let mut action = LeaseAction::Attach;
        match existing {
            Some(lease) => {
                if lease.lost_authority {
                    action = LeaseAction::Nothing;
                } else if lease.has_token {
                    action = LeaseAction::Refresh;
                } else if attached {
                    lost = true;
                }
            },
            None => {
                if attached {
                    lost = true;
                }
            },
        }
        if lost {
            self.set_lease(contract_key, Lease { has_token: false, lost_authority: true });
            return LeaseAction::Nothing;
        }
        proof {
            let lease = lease_step(before.lease(contract_key@), attached).0;
            if lease is Some {
                assert(before.leases.insert(contract_key@, lease->0) =~= before.leases);
            }
        }
        action
    }

    /// Takes note of how renewing or taking a token went.
    pub fn end_lease(&mut self, contract_key: &str, outcome: LeaseOutcome)
        ensures
            final(self)@ == old(self)@.with_lease(
                contract_key@,
                lease_after(old(self)@.lease(contract_key@), outcome),
            ),
    {
        let ghost before = self@;
        match outcome {
            LeaseOutcome::Refreshed => {
                self.set_lease(contract_key, Lease { has_token: true, lost_authority: false });
            },
            LeaseOutcome::Attached => {
                self.set_lease(contract_key, Lease { has_token: true, lost_authority: false });
            },
            LeaseOutcome::RefreshFailed => {
                self.set_lease(contract_key, Lease { has_token: false, lost_authority: true });
            },
            LeaseOutcome::Raced | LeaseOutcome::AttachFailed => {
                proof {
                    if before.leases.contains_key(contract_key@) {
                        assert(before.leases.insert(
                            contract_key@,
                            before.leases[contract_key@],
                        ) =~= before.leases);
                    }
                }
            },
        }
    }

    /// How the manager stands to a contract.
    pub fn lease(&self, contract_key: &str) -> (r: Option<Lease>)
        ensures
            r == self@.lease(contract_key@),
    {
        match self.concord_tokens.get(contract_key) {
            Some(lease) => Some(*lease),
            None => None,
        }
    }

    fn set_lease(&mut self, contract_key: &str, lease: Lease)
        ensures
            final(self)@ == old(self)@.with_lease(contract_key@, Some(lease)),
    {
        proof {
            use_type_invariant(&*self);
        }
        let mut tokens: TextMap<Lease> = TextMap::new();
        std::mem::swap(&mut tokens, &mut self.concord_tokens);
        tokens.insert(contract_key.to_owned(), lease);
        self.concord_tokens = tokens;
    }
}

// ---------------------------------------------------------------------------------------------
// Laws
// ---------------------------------------------------------------------------------------------

/// A device is asked only what the session of the controller that it is routed to asks, in a message
/// to its manager that has not expired.
pub proof fn commands_are_fenced(state: ManagerModel, message: InboundMessageModel)
    requires
        admitted(state, message) is Deliver,
    ensures
        message.lane == HARDWARE_MESSAGES_LANE@,
        !message.expired,
        message.recipient_endpoint == Some(state.endpoint()),
        message.subject_manager_id == Some(state.manager_id),
        ({
            let device_id = message.subject_device_id->0;
            &&& message.subject_device_id is Some
            &&& state.devices.contains_key(device_id)
            &&& state.routes.contains_key(device_id)
            &&& state.routes[device_id].controller_endpoint == message.sender
            &&& state.routes[device_id].controller_session_id == message.sender_session_id
            &&& admitted(state, message)->channel == state.channels[device_id]
            &&& requested(message.body->0) == Ok::<RuntimeCommandModel, CommandErrorModel>(
                admitted(state, message)->command,
            )
        }),
{
}

/// Every request that the controller of a device may make is delivered.
pub proof fn claimants_are_heard(
    state: ManagerModel,
    message: InboundMessageModel,
    device_id: Seq<char>,
)
    requires
        message.lane == HARDWARE_MESSAGES_LANE@,
        !message.expired,
        message.body is Some,
        requested(message.body->0) is Ok,
        message.subject_device_id == Some(device_id),
        message.subject_manager_id == Some(state.manager_id),
        message.recipient_endpoint == Some(state.endpoint()),
        state.devices.contains_key(device_id),
        state.channels.contains_key(device_id),
        state.routes.contains_key(device_id),
        state.routes[device_id].controller_endpoint == message.sender,
        state.routes[device_id].controller_session_id == message.sender_session_id,
    ensures
        admitted(state, message) == (AdmissionModel::Deliver {
            channel: state.channels[device_id],
            command: requested(message.body->0)->Ok_0,
        }),
{
}

/// Once the contracts have been looked through, a device is asked only by the controller of a valid
/// contract on it that counts for the manager, in the session in which the controller holds its
/// token, and is heard only by it.
pub proof fn only_contracts_open_devices(
    state: ManagerModel,
    known_devices: Set<Seq<char>>,
    contracts: Seq<FoundContractModel>,
    message: InboundMessageModel,
    device_id: Seq<char>,
    body: HardwareMessageBodyModel,
)
    requires
        message.subject_device_id == Some(device_id),
    ensures
        ({
            let (endpoint, advertisement_id) = (state.endpoint(), state.advertisement_id());
            let after = ManagerModel {
                routes: considered(
                    known_devices,
                    contracts,
                    endpoint,
                    advertisement_id,
                ).next_claims,
                ..state
            };
            let heard = event_effect(after, WorkerEventModel::Input { device_id, body }).1;
            &&& admitted(after, message) is Deliver ==> exists|i: int|
                {
                    &&& 0 <= i < contracts.len()
                    &&& counts(#[trigger] contracts[i], endpoint, advertisement_id)
                    &&& routes_device(contracts[i].contract, device_id)
                    &&& contracts[i].contract.terms.controller_endpoint == message.sender
                    &&& contracts[i].contract.controller_session == Some(message.sender_session_id)
                }
            &&& heard.len() > 0 ==> exists|i: int|
                {
                    &&& 0 <= i < contracts.len()
                    &&& counts(#[trigger] contracts[i], endpoint, advertisement_id)
                    &&& routes_device(contracts[i].contract, device_id)
                    &&& heard[0] matches ManagerActionModel::Publish(sent) && sent.recipient == Some(
                        (
                            contracts[i].contract.terms.controller_endpoint,
                            contracts[i].contract.controller_session->0,
                        ),
                    )
                }
        }),
{
    let (endpoint, advertisement_id) = (state.endpoint(), state.advertisement_id());
    let all = counting(contracts, endpoint, advertisement_id);
    only_contracts_that_count_are_scanned(known_devices, contracts, endpoint, advertisement_id);
    routes_come_from_valid_contracts(known_devices, all, device_id);
    let found = scanned(known_devices, all).next_claims;
    if found.contains_key(device_id) {
        let k = choose|k: int|
            {
                &&& 0 <= k < all.len()
                &&& routes_device(#[trigger] all[k], device_id)
                &&& found[device_id] == contract_route(all[k])
            };
        let j = choose|j: int|
            {
                &&& 0 <= j < contracts.len()
                &&& counts(#[trigger] contracts[j], endpoint, advertisement_id)
                &&& contracts[j].contract == all[k]
            };
        assert(routes_device(contracts[j].contract, device_id));
    }
}

/// Input of a device goes to the session of the controller that the device is routed to, and nowhere
/// else.
pub proof fn inputs_are_fenced(
    state: ManagerModel,
    device_id: Seq<char>,
    body: HardwareMessageBodyModel,
    i: int,
)
    requires
        0 <= i < event_effect(state, WorkerEventModel::Input { device_id, body }).1.len(),
    ensures
        state.routes.contains_key(device_id),
        event_effect(state, WorkerEventModel::Input { device_id, body }).1[i] matches
            ManagerActionModel::Publish(message) && message.recipient == Some(
            (
                state.routes[device_id].controller_endpoint,
                state.routes[device_id].controller_session_id,
            ),
        ) && message.session_id == state.session_id && message.body == body,
{
}

/// A device that has gone is neither asked nor heard any more.
pub proof fn gone_devices_are_forgotten(
    state: ManagerModel,
    path_key: Seq<char>,
    device_id: Seq<char>,
    message: InboundMessageModel,
    body: HardwareMessageBodyModel,
)
    requires
        message.subject_device_id == Some(device_id),
    ensures
        ({
            let after = event_effect(
                state,
                WorkerEventModel::Disconnected { path_key, device_id },
            ).0;
            &&& !(admitted(after, message) is Deliver)
            &&& event_effect(after, WorkerEventModel::Input { device_id, body }).1.len() == 0
        }),
{
}

/// Whether a contract routes the device to a controller: the manager takes part in it, its terms name
/// the manager's address, its advertisement and the device, it is valid, and the controller holds its
/// token.
pub open spec fn in_force(
    found: FoundContractModel,
    endpoint: Seq<char>,
    advertisement_id: Seq<char>,
    device: Seq<char>,
) -> bool {
    &&& found.participants.contains(endpoint)
    &&& found.contract.terms.manager_endpoint == endpoint
    &&& found.contract.terms.manager_advertisement_id == advertisement_id
    &&& found.contract.terms.device_ids.contains(device)
    &&& found.contract.valid
    &&& found.contract.controller_session is Some
}

/// Whether a contract of the manager names the device and is not valid.
pub open spec fn out_of_force(
    found: FoundContractModel,
    endpoint: Seq<char>,
    advertisement_id: Seq<char>,
    device: Seq<char>,
) -> bool {
    &&& found.participants.contains(endpoint)
    &&& found.contract.terms.manager_endpoint == endpoint
    &&& found.contract.terms.manager_advertisement_id == advertisement_id
    &&& found.contract.terms.device_ids.contains(device)
    &&& !found.contract.valid
}

/// What contracts say of a device: it has a route exactly if it is known and a contract is in force on
/// it; the route is by the last such contract, to the controller of its terms in the session that holds
/// its token, under its key and its claim. The device is marked exactly if it is known and a contract
/// on it is not valid.
pub proof fn routes_are_those_of_contracts_in_force(
    known_devices: Set<Seq<char>>,
    contracts: Seq<FoundContractModel>,
    endpoint: Seq<char>,
    advertisement_id: Seq<char>,
    device: Seq<char>,
)
    ensures
        ({
            let scan = considered(known_devices, contracts, endpoint, advertisement_id);
            &&& scan.known_devices == known_devices
            &&& scan.next_claims.contains_key(device) <==> known_devices.contains(device)
                && exists|i: int|
                0 <= i < contracts.len() && in_force(
                    #[trigger] contracts[i],
                    endpoint,
                    advertisement_id,
                    device,
                )
            &&& scan.invalid_devices.contains(device) <==> known_devices.contains(device)
                && exists|i: int|
                0 <= i < contracts.len() && out_of_force(
                    #[trigger] contracts[i],
                    endpoint,
                    advertisement_id,
                    device,
                )
            &&& forall|i: int|
                known_devices.contains(device) && 0 <= i < contracts.len() && in_force(
                    #[trigger] contracts[i],
                    endpoint,
                    advertisement_id,
                    device,
                ) && (forall|j: int|
                    i < j < contracts.len() ==> !in_force(
                        #[trigger] contracts[j],
                        endpoint,
                        advertisement_id,
                        device,
                    )) ==> {
                    let route = scan.next_claims[device];
                    let contract = contracts[i].contract;
                    &&& route.controller_endpoint == contract.terms.controller_endpoint
                    &&& Some(route.controller_session_id) == contract.controller_session
                    &&& route.contract_key == contract.key
                    &&& route.claim_id == contract.terms.claim_id
                }
        }),
    decreases contracts.len(),
{
    if contracts.len() > 0 {
        let last = contracts.len() - 1;
        let rest = contracts.drop_last();
        routes_are_those_of_contracts_in_force(
            known_devices,
            rest,
            endpoint,
            advertisement_id,
            device,
        );
        let before = considered(known_devices, rest, endpoint, advertisement_id);
        let scan = considered(known_devices, contracts, endpoint, advertisement_id);
        assert(forall|i: int| 0 <= i < last ==> #[trigger] contracts[i] == rest[i]);
        assert(forall|i: int| 0 <= i < last ==> #[trigger] rest[i] == contracts[i]);
        let now = in_force(contracts[last], endpoint, advertisement_id, device);
        let void = out_of_force(contracts[last], endpoint, advertisement_id, device);
        assert(scan.next_claims.contains_key(device) <==> before.next_claims.contains_key(device)
            || (now && known_devices.contains(device)));
        assert(scan.invalid_devices.contains(device) <==> before.invalid_devices.contains(device)
            || (void && known_devices.contains(device)));
        if !now && before.next_claims.contains_key(device) {
            assert(scan.next_claims[device] == before.next_claims[device]);
        }
        assert forall|i: int|
            known_devices.contains(device) && 0 <= i < contracts.len() && in_force(
                #[trigger] contracts[i],
                endpoint,
                advertisement_id,
                device,
            ) && (forall|j: int|
                i < j < contracts.len() ==> !in_force(
                    #[trigger] contracts[j],
                    endpoint,
                    advertisement_id,
                    device,
                )) implies {
            let route = scan.next_claims[device];
            let contract = contracts[i].contract;
            &&& route.controller_endpoint == contract.terms.controller_endpoint
            &&& Some(route.controller_session_id) == contract.controller_session
            &&& route.contract_key == contract.key
            &&& route.claim_id == contract.terms.claim_id
        } by {
            if i < last {
                assert(in_force(rest[i], endpoint, advertisement_id, device));
                assert(!in_force(contracts[last], endpoint, advertisement_id, device));
                assert forall|j: int| i < j < rest.len() implies !in_force(
                    #[trigger] rest[j],
                    endpoint,
                    advertisement_id,
                    device,
                ) by {
                    assert(!in_force(contracts[j], endpoint, advertisement_id, device));
                }
            }
        }
    }
}

/// The devices that contracts have be reset are those that are marked and have no route.
pub proof fn only_devices_without_a_route_are_invalid(scan: ScanModel, device: Seq<char>)
    ensures
        only_invalid(scan).contains(device) <==> scan.invalid_devices.contains(device)
            && !scan.next_claims.contains_key(device),
{
}

/// When a token is taken, renewed and given up. It is taken where the manager holds none, has not lost
/// its right, and the contract shows no one attached in its place; it is renewed where the manager holds
/// it and has not lost its right; the right is lost where the contract shows the manager attached and
/// the manager holds no token.
pub proof fn tokens_are_looked_after(lease: Option<Lease>, attached: bool)
    ensures
        ({
            let (after, action) = lease_step(lease, attached);
            let holds = lease matches Some(held) && held.has_token;
            let lost = lease matches Some(held) && held.lost_authority;
            &&& action == LeaseAction::Attach <==> !holds && !lost && !attached
            &&& action == LeaseAction::Refresh <==> holds && !lost
            &&& action == LeaseAction::Nothing <==> lost || (!holds && attached)
            &&& !holds && !lost && attached ==> (after matches Some(left) && left.lost_authority
                && !left.has_token)
            &&& holds || lost || !attached ==> after == lease
        }),
{
}

/// What looking after a token leads to: a token that was taken or renewed is held and is renewed the
/// next time; one that could not be renewed is lost and nothing more is done; a race and a failure to
/// take it change nothing.
pub proof fn outcomes_decide_on_tokens(lease: Option<Lease>, outcome: LeaseOutcome, attached: bool)
    ensures
        ({
            let after = lease_after(lease, outcome);
            &&& outcome == LeaseOutcome::Refreshed || outcome == LeaseOutcome::Attached ==> {
                &&& after matches Some(held)
                &&& held.has_token
                &&& !held.lost_authority
                &&& lease_step(after, attached).1 == LeaseAction::Refresh
            }
            &&& outcome == LeaseOutcome::RefreshFailed ==> {
                &&& after matches Some(left)
                &&& !left.has_token
                &&& left.lost_authority
                &&& lease_step(after, attached).1 == LeaseAction::Nothing
            }
            &&& outcome == LeaseOutcome::Raced || outcome == LeaseOutcome::AttachFailed ==> after
                == lease
        }),
{
}

/// How an attempt went: taking a token succeeds or fails; renewing one succeeds, fails, or finds that
/// another was faster.
pub proof fn attempts_have_their_outcome(action: LeaseAction, succeeded: bool, raced: bool)
    requires
        action != LeaseAction::Nothing,
    ensures
        ({
            let outcome = outcome_of(action, succeeded, raced);
            let taking = action == LeaseAction::Attach;
            &&& outcome == LeaseOutcome::Attached <==> taking && succeeded
            &&& outcome == LeaseOutcome::AttachFailed <==> taking && !succeeded
            &&& outcome == LeaseOutcome::Refreshed <==> !taking && succeeded
            &&& outcome == LeaseOutcome::Raced <==> !taking && !succeeded && raced
            &&& outcome == LeaseOutcome::RefreshFailed <==> !taking && !succeeded && !raced
        }),
{
}

/// The lease of one contract changes no other, and nothing else of the manager.
pub proof fn leases_are_kept_apart(
    state: ManagerModel,
    key: Seq<char>,
    lease: Option<Lease>,
    other: Seq<char>,
)
    ensures
        ({
            let after = state.with_lease(key, lease);
            &&& lease is Some ==> after.lease(key) == lease
            &&& lease is None ==> after == state
            &&& other != key ==> after.lease(other) == state.lease(other)
            &&& after.devices == state.devices
            &&& after.channels == state.channels
            &&& after.routes == state.routes
            &&& after.manager_id == state.manager_id
            &&& after.session_id == state.session_id
            &&& after.advertisement_dirty == state.advertisement_dirty
        }),
{
}

/// A device that connects is known by its description and reached by its channel from then on; other
/// devices, the routes and the leases stay as they were. The devices are advertised anew, and all
/// controllers are told that the device is there and how it is described.
pub proof fn connected_devices_are_announced(
    state: ManagerModel,
    path_key: Seq<char>,
    device_id: Seq<char>,
    channel: u64,
    device: DeviceDescriptorModel,
    other: Seq<char>,
)
    ensures
        ({
            let event = WorkerEventModel::Connected { path_key, device_id, channel, device };
            let (after, actions) = event_effect(state, event);
            &&& after.devices.contains_key(device_id) && after.devices[device_id] == device
            &&& after.channels.contains_key(device_id) && after.channels[device_id] == channel
            &&& other != device_id ==> {
                &&& after.devices.contains_key(other) == state.devices.contains_key(other)
                &&& state.devices.contains_key(other) ==> after.devices[other]
                    == state.devices[other]
                &&& after.channels.contains_key(other) == state.channels.contains_key(other)
                &&& state.channels.contains_key(other) ==> after.channels[other]
                    == state.channels[other]
            }
            &&& after.routes == state.routes
            &&& after.leases == state.leases
            &&& after.manager_id == state.manager_id
            &&& after.session_id == state.session_id
            &&& actions.len() == 2
            &&& actions[0] is Advertise
            &&& actions[1] matches ManagerActionModel::Publish(sent)
            &&& sent.recipient is None
            &&& sent.manager_id == state.manager_id
            &&& sent.session_id == state.session_id
            &&& sent.device_id == device_id
            &&& sent.body == (HardwareMessageBodyModel::DeviceAvailable { descriptor: device })
        }),
{
}

/// A device that has gone is known no more, nor its channel, nor its route; other devices, their
/// routes and the leases stay as they were. The devices are advertised anew, and all controllers are
/// told that the device is gone and why.
pub proof fn gone_devices_are_announced(
    state: ManagerModel,
    path_key: Seq<char>,
    device_id: Seq<char>,
    other: Seq<char>,
)
    ensures
        ({
            let event = WorkerEventModel::Disconnected { path_key, device_id };
            let (after, actions) = event_effect(state, event);
            &&& !after.devices.contains_key(device_id)
            &&& !after.channels.contains_key(device_id)
            &&& !after.routes.contains_key(device_id)
            &&& other != device_id ==> {
                &&& after.devices.contains_key(other) == state.devices.contains_key(other)
                &&& state.devices.contains_key(other) ==> after.devices[other]
                    == state.devices[other]
                &&& after.channels.contains_key(other) == state.channels.contains_key(other)
                &&& state.channels.contains_key(other) ==> after.channels[other]
                    == state.channels[other]
                &&& after.routes.contains_key(other) == state.routes.contains_key(other)
                &&& state.routes.contains_key(other) ==> after.routes[other] == state.routes[other]
            }
            &&& after.leases == state.leases
            &&& after.manager_id == state.manager_id
            &&& after.session_id == state.session_id
            &&& actions.len() == 2
            &&& actions[0] is Advertise
            &&& actions[1] matches ManagerActionModel::Publish(sent)
            &&& sent.recipient is None
            &&& sent.manager_id == state.manager_id
            &&& sent.session_id == state.session_id
            &&& sent.device_id == device_id
            &&& sent.body matches HardwareMessageBodyModel::DeviceUnavailable { device_ref, reason }
            &&& device_ref.manager_id == state.manager_id
            &&& device_ref.device_id == device_id
            &&& device_ref.fingerprint is None
            &&& reason == Some("disconnected"@)
        }),
{
}

/// Input at a control of a device with a route is passed on, once, to the session of the controller of
/// the route, as it came; other input is passed on to no one. Input and failures change nothing.
pub proof fn inputs_reach_the_claimant(
    state: ManagerModel,
    device_id: Seq<char>,
    body: HardwareMessageBodyModel,
    path_key: Seq<char>,
    error: Seq<char>,
)
    ensures
        ({
            let (after, actions) = event_effect(state, WorkerEventModel::Input { device_id, body });
            let failed = event_effect(state, WorkerEventModel::Failed { path_key, error });
            &&& after == state
            &&& failed.0 == state && failed.1.len() == 0
            &&& actions.len() <= 1
            &&& actions.len() == 1 <==> state.routes.contains_key(device_id)
                && body is ControlInput
            &&& actions.len() == 1 ==> {
                &&& actions[0] matches ManagerActionModel::Publish(sent)
                &&& sent.recipient == Some(
                    (
                        state.routes[device_id].controller_endpoint,
                        state.routes[device_id].controller_session_id,
                    ),
                )
                &&& sent.session_id == state.session_id
                &&& sent.manager_id == body->ControlInput_device_ref.manager_id
                &&& sent.device_id == device_id
                &&& sent.body == body
            }
        }),
{
}

/// Exactly the devices that are there are advertised, each under its id and its fingerprint, with its
/// description, to be claimed once and not claimed yet; under the id, the address and the session of
/// the manager.
pub proof fn known_devices_are_advertised(
    state: ManagerModel,
    payload: HardwareBeaconPayloadModel,
    device_id: Seq<char>,
)
    requires
        payload_of(state) == Some(payload),
    ensures
        payload.manager_id == state.manager_id,
        payload.session_id == state.session_id,
        address_of("hardware_manager:"@ + state.manager_id) == Some(payload.manager_endpoint),
        payload.labels == Map::<Seq<char>, Seq<char>>::empty(),
        payload.devices.contains_key(device_id) <==> state.devices.contains_key(device_id),
        state.devices.contains_key(device_id) ==> {
            let told = payload.devices[device_id];
            &&& told.descriptor == state.devices[device_id]
            &&& told.device_ref.manager_id == state.manager_id
            &&& told.device_ref.device_id == device_id
            &&& told.device_ref.fingerprint == Some(state.devices[device_id].fingerprint)
            &&& told.capacity.total_instances == 1
            &&& told.capacity.claimed_instances == 0
            &&& told.capacity.available_instances == 1
        },
{
}

/// Why a message is dropped: the first of the reasons that hold, in this order.
pub proof fn messages_are_dropped_for_the_first_reason(
    state: ManagerModel,
    message: InboundMessageModel,
)
    ensures
        ({
            let (body, device, manager) = (
                message.body,
                message.subject_device_id,
                message.subject_manager_id,
            );
            let address = "hardware_manager:"@ + state.manager_id;
            let routed = device is Some && state.routes.contains_key(device->0)
                && state.routes[device->0].controller_endpoint == message.sender
                && state.routes[device->0].controller_session_id == message.sender_session_id;
            let lane = message.lane == "hardware_messages"@;
            let asks = lane && !message.expired && body is Some && body->0 is ControlCommand;
            let named = asks && device is Some && manager is Some;
            let clear = named && requested(body->0) is Ok;
            let ours = clear && message.recipient_endpoint == Some(address) && manager->0
                == state.manager_id;
            let there = ours && state.devices.contains_key(device->0);
            match admitted(state, message) {
                AdmissionModel::Drop(reason) => match reason {
                    DropReason::OtherLane => !lane,
                    DropReason::Expired => lane && message.expired,
                    DropReason::UnreadableBody => lane && !message.expired && body is None,
                    DropReason::NotACommand => lane && !message.expired && body is Some && !(
                    body->0 is ControlCommand),
                    DropReason::NoDevice => asks && device is None,
                    DropReason::NoManager => asks && device is Some && manager is None,
                    DropReason::UnsupportedCommand => named && requested(body->0) is Err,
                    DropReason::OtherRecipient => clear && message.recipient_endpoint != Some(
                        address,
                    ),
                    DropReason::OtherManager => clear && message.recipient_endpoint == Some(address)
                        && manager->0 != state.manager_id,
                    DropReason::UnknownDevice => ours && !state.devices.contains_key(device->0),
                    DropReason::NotTheClaimant => there && !routed,
                    DropReason::ClosedDevice => there && routed && !state.channels.contains_key(
                        device->0,
                    ),
                },
                AdmissionModel::Deliver { channel, command } => {
                    &&& there && routed && state.channels.contains_key(device->0)
                    &&& channel == state.channels[device->0]
                    &&& requested(body->0) == Ok::<RuntimeCommandModel, CommandErrorModel>(command)
                },
            }
        }),
{
}

/// Which devices are ordered to be reset when a look through the contracts is taken over: those that
/// can be reached and are marked without a route, or had a route that is gone or leads to another
/// controller or session. Each is ordered once, by its own channel.
pub proof fn resets_are_ordered_by_channel(
    state: ManagerModel,
    scan: ScanModel,
    orders: Seq<(String, u64)>,
    device: Seq<char>,
)
    requires
        orders_resets(state, scan.next_claims, only_invalid(scan), orders),
    ensures
        ({
            let (had, keeps) = (
                state.routes.contains_key(device),
                scan.next_claims.contains_key(device),
            );
            let due = (scan.invalid_devices.contains(device) && !keeps) || (had && !keeps) || (had
                && keeps && (state.routes[device].controller_endpoint
                != scan.next_claims[device].controller_endpoint
                || state.routes[device].controller_session_id
                != scan.next_claims[device].controller_session_id));
            &&& (exists|i: int| 0 <= i < orders.len() && (#[trigger] orders[i]).0@ == device)
                <==> due && state.channels.contains_key(device)
            &&& forall|i: int|
                0 <= i < orders.len() && (#[trigger] orders[i]).0@ == device ==> orders[i].1
                    == state.channels[device]
            &&& forall|i: int, j: int|
                0 <= i < orders.len() && 0 <= j < orders.len() && (#[trigger] orders[i]).0@
                    == device && (#[trigger] orders[j]).0@ == device ==> i == j
        }),
{
    routes_that_change_hands_are_reset(
        state.routes,
        scan.next_claims,
        only_invalid(scan),
        device,
    );
}

/// Managers with different ids have different addresses, and sessions of one manager have different
/// advertisements.
pub proof fn addresses_tell_managers_and_sessions_apart(a: ManagerModel, b: ManagerModel)
    ensures
        a.endpoint() == b.endpoint() <==> a.manager_id == b.manager_id,
        a.manager_id == b.manager_id ==> (a.advertisement_id() == b.advertisement_id()
            <==> a.session_id == b.session_id),
        a.endpoint() == "hardware_manager:"@ + a.manager_id,
        a.advertisement_id() == "hardware-"@ + a.manager_id + "-"@ + a.session_id,
{
    reveal_strlit("-");
    assert("-"@ =~= seq!['-']);
    let prefix = "hardware_manager:"@;
    if a.endpoint() == b.endpoint() {
        assert(a.endpoint().skip(prefix.len() as int) =~= a.manager_id);
        assert(b.endpoint().skip(prefix.len() as int) =~= b.manager_id);
    }
    if a.manager_id == b.manager_id && a.advertisement_id() == b.advertisement_id() {
        let start = "hardware-"@ + a.manager_id + seq!['-'];
        assert(a.advertisement_id().skip(start.len() as int) =~= a.session_id);
        assert(b.advertisement_id().skip(start.len() as int) =~= b.session_id);
    }
}

/// What is told of a value of `ClaimTerms`: each field under its own name.
pub proof fn claim_terms_is_told_by_field(value: ClaimTerms)
    ensures
        value.deep_view().claim_id == value.claim_id@,
        value.deep_view().controller_endpoint == value.controller_endpoint@,
        value.deep_view().manager_endpoint == value.manager_endpoint@,
        value.deep_view().manager_advertisement_id == value.manager_advertisement_id@,
        value.deep_view().device_ids == value.device_ids.deep_view(),
{
}

/// What is told of a value of `OutboundMessage`: each field under its own name.
pub proof fn outbound_message_is_told_by_field(value: OutboundMessage)
    ensures
        value.deep_view().manager_id == value.manager_id@,
        value.deep_view().session_id == value.session_id@,
        value.deep_view().device_id == value.device_id@,
        value.deep_view().recipient == value.recipient.deep_view(),
        value.deep_view().body == value.body.deep_view(),
{
}

/// What is told of a value of `ManagerAction`: its variant, and each field under its own name.
pub proof fn manager_action_is_told_by_field(value: ManagerAction)
    ensures
        match (value, value.deep_view()) {
            (ManagerAction::Advertise, ManagerActionModel::Advertise) => true,
            (ManagerAction::Publish(held), ManagerActionModel::Publish(told)) => told == held.deep_view(),
            _ => false,
        },
{
}

/// What is told of a value of `HardwareAdvertisementDevice`: each field under its own name.
pub proof fn hardware_advertisement_device_is_told_by_field(value: HardwareAdvertisementDevice)
    ensures
        value.deep_view().capacity == value.capacity,
        value.deep_view().device_ref == value.device_ref.deep_view(),
        value.deep_view().descriptor == value.descriptor.deep_view(),
{
}

/// What is told of a value of `HardwareBeaconPayload`: each field under its own name.
pub proof fn hardware_beacon_payload_is_told_by_field(value: HardwareBeaconPayload)
    ensures
        value.deep_view().manager_id == value.manager_id@,
        value.deep_view().manager_endpoint == value.manager_endpoint.deep_view(),
        value.deep_view().session_id == value.session_id@,
        value.deep_view().labels == value.labels.deep_view(),
        value.deep_view().devices == value.devices.deep_view(),
{
}

/// What is told of a value of `InboundMessage`: each field under its own name.
pub proof fn inbound_message_is_told_by_field(value: InboundMessage)
    ensures
        value.deep_view().lane == value.lane@,
        value.deep_view().expired == value.expired,
        value.deep_view().body == value.body.deep_view(),
        value.deep_view().subject_device_id == value.subject_device_id.deep_view(),
        value.deep_view().subject_manager_id == value.subject_manager_id.deep_view(),
        value.deep_view().recipient_endpoint == value.recipient_endpoint.deep_view(),
        value.deep_view().sender == value.sender@,
        value.deep_view().sender_session_id == value.sender_session_id@,
{
}

/// What is told of a value of `Admission`: its variant, and each field under its own name.
pub proof fn admission_is_told_by_field(value: Admission)
    ensures
        match (value, value.deep_view()) {
            (Admission::Deliver { channel, command }, AdmissionModel::Deliver { channel: told_channel, command: told_command }) => told_channel == channel
                && told_command == command.deep_view(),
            (Admission::Drop(held), AdmissionModel::Drop(told)) => told == held,
            _ => false,
        },
{
}

} // verus!
