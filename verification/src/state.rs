//! What a manager publishes as current state: endpoint addresses, the keys under which state lies,
//! and the records that lie there.

use vstd::prelude::*;
use vstd::utf8::{decode_utf8, encode_utf8, valid_utf8};

use crate::lanes::{DeviceDescriptor, DeviceDescriptorModel, DeviceRef, DeviceRefModel};
use crate::outside::{
    base64_token, base64_token_bytes, base64_url_char, clock_instant, decode_base64_token,
    encode_base64_token, instant_text, instant_to_text, now, provider_id, regex_is_match,
    rfc3339_instant, safe_token, text_from_utf8, timestamp_shape, valid_instant,
    LAST_PLAIN_SECOND, PROVIDER_ID_PATTERN, SAFE_TOKEN_PATTERN,
};
use crate::text::{
    chars_of, contains_char, find_char, first_index, has_prefix, is_trimmed, join, join_on, joined,
    joining_undoes_splitting, lemma_first_index, lemma_first_index_is, lemma_join_last, same_text, split, split_on,
    splitting_undoes_joining, starts_with, text_of, trimmed, white_space,
};
use crate::text_map::TextMap;

verus! {

/// How long published state lives without renewal.
pub const STATE_TTL_SECONDS: u64 = 30;

/// How often published state is renewed.
pub const HEARTBEAT_SECONDS: u64 = 5;

/// How often published state is read anew.
pub const STATE_RECONCILE_SECONDS: u64 = 1;

/// How long a watch that failed waits before it starts again.
pub const WATCH_RETRY_SECONDS: u64 = 1;

/// The lane of the hardware messages.
pub const HARDWARE_MESSAGES_LANE: &'static str = "hardware_messages";

/// The version of this library.
pub const VERSION: &'static str = "0.1.0";

/// The action provider that belongs to the controller itself.
pub const RESERVED_PROVIDER_ID: &'static str = "dev.deckr.controller.builtin";

// ---------------------------------------------------------------------------------------------
// Endpoint addresses
// ---------------------------------------------------------------------------------------------

/// The address of an endpoint: a family and an id, with a colon between them.
#[derive(Debug, PartialEq, Eq)]
pub struct EndpointAddress {
    pub address: String,
    pub family: String,
    pub endpoint_id: String,
}

/// What an endpoint address is.
pub struct EndpointAddressModel {
    pub address: Seq<char>,
    pub family: Seq<char>,
    pub endpoint_id: Seq<char>,
}

impl DeepView for EndpointAddress {
    type V = EndpointAddressModel;

    open spec fn deep_view(&self) -> EndpointAddressModel {
        EndpointAddressModel {
            address: self.address.deep_view(),
            family: self.family.deep_view(),
            endpoint_id: self.endpoint_id.deep_view(),
        }
    }
}

impl Clone for EndpointAddress {
    fn clone(&self) -> (r: Self)
        ensures
            r.deep_view() == self.deep_view(),
    {
        EndpointAddress {
            address: self.address.clone(),
            family: self.family.clone(),
            endpoint_id: self.endpoint_id.clone(),
        }
    }
}

/// The families that endpoints belong to.
pub open spec fn core_family(family: Seq<char>) -> bool {
    ||| family == "action_provider"@
    ||| family == "controller"@
    ||| family == "hardware_manager"@
    ||| family == "service"@
}

/// The ids that an endpoint of a family may have.
pub open spec fn endpoint_id_of(family: Seq<char>, id: Seq<char>) -> bool {
    &&& id.len() > 0
    &&& trimmed(id)
    &&& !id.contains(':')
    &&& family == "action_provider"@ ==> provider_id(id) && id != RESERVED_PROVIDER_ID@
}

/// The endpoint address that a text is, if it is one.
pub open spec fn address_of(value: Seq<char>) -> Option<EndpointAddressModel> {
    let colon = first_index(value, ':');
    let family = value.take(colon);
    let id = value.skip(colon + 1);
    if trimmed(value) && colon < value.len() && core_family(family) && endpoint_id_of(family, id) {
        Some(EndpointAddressModel { address: value, family, endpoint_id: id })
    } else {
        None
    }
}

/// The address of the family and the id.
pub open spec fn address_text(family: Seq<char>, id: Seq<char>) -> Seq<char> {
    family + seq![':'] + id
}

/// An endpoint address is its family and its id with a colon between them.
pub proof fn address_is_family_and_id(value: Seq<char>)
    ensures
        address_of(value) matches Some(address) ==> {
            &&& address.address == value
            &&& value == address_text(address.family, address.endpoint_id)
            &&& core_family(address.family)
            &&& endpoint_id_of(address.family, address.endpoint_id)
        },
{
    lemma_first_index(value, ':');
    let colon = first_index(value, ':');
    if colon < value.len() {
        assert(value =~= address_text(value.take(colon), value.skip(colon + 1)));
    }
}

/// Every family with an id that it may have makes an endpoint address.
pub proof fn family_and_id_make_an_address(family: Seq<char>, id: Seq<char>)
    requires
        core_family(family),
        endpoint_id_of(family, id),
    ensures
        address_of(address_text(family, id)) == Some(
            EndpointAddressModel { address: address_text(family, id), family, endpoint_id: id },
        ),
{
    reveal_strlit("action_provider");
    reveal_strlit("controller");
    reveal_strlit("hardware_manager");
    reveal_strlit("service");
    let value = address_text(family, id);
    let n = family.len() as int;
    assert(forall|k: int| 0 <= k < n ==> family[k] != ':');
    assert(forall|k: int| 0 <= k < n ==> value[k] == family[k]);
    lemma_first_index_is(value, ':', n);
    assert(value.take(n) =~= family);
    assert(value.skip(n + 1) =~= id);
    assert(value[0] == family[0]);
    assert(value.last() == id.last());
}

impl EndpointAddress {
    /// The endpoint address that the text is, if it is one.
    pub fn parse(value: &str) -> (r: Option<Self>)
        ensures
            r.deep_view() == address_of(value@),
    {
        if !is_trimmed(value) {
            return None;
        }
        let chars = chars_of(value);
        let colon = find_char(&chars, 0, ':');
        assert(chars@.skip(0) =~= value@);
        if colon == chars.len() {
            return None;
        }
        let family = text_of(&chars, 0, colon);
        let endpoint_id = text_of(&chars, colon + 1, chars.len());
        assert(family@ =~= value@.take(colon as int));
        assert(endpoint_id@ =~= value@.skip(colon + 1));
        let known = same_text(family.as_str(), "action_provider") || same_text(
            family.as_str(),
            "controller",
        ) || same_text(family.as_str(), "hardware_manager") || same_text(
            family.as_str(),
            "service",
        );
        if !known || endpoint_id.as_str().is_empty() || !is_trimmed(endpoint_id.as_str())
            || contains_char(endpoint_id.as_str(), ':') {
            return None;
        }
        if same_text(family.as_str(), "action_provider") {
            let provider = match regex_is_match(PROVIDER_ID_PATTERN, endpoint_id.as_str()) {
                Ok(matched) => matched,
                Err(_) => false,
            };
            if !provider || same_text(endpoint_id.as_str(), RESERVED_PROVIDER_ID) {
                return None;
            }
        }
        Some(EndpointAddress { address: value.to_owned(), family, endpoint_id })
    }
}

/// The address of a hardware manager.
pub fn hardware_manager_address(manager_id: &str) -> (r: String)
    ensures
        r@ == "hardware_manager:"@ + manager_id@,
{
    joined("hardware_manager:", manager_id)
}

// ---------------------------------------------------------------------------------------------
// Keys
// ---------------------------------------------------------------------------------------------

/// What marks an encoded token.
pub const ENCODED_MARK: &'static str = "b64_";

/// The token that stands for a text in a key: the text itself where it is plain, else its Base64
/// form behind a mark.
pub open spec fn key_token(raw: Seq<char>) -> Seq<char> {
    if safe_token(raw) && !has_prefix(raw, ENCODED_MARK@) {
        raw
    } else {
        ENCODED_MARK@ + base64_token(encode_utf8(raw))
    }
}

/// The text that a token of a key stands for, if it stands for one.
pub open spec fn token_text(token: Seq<char>) -> Option<Seq<char>> {
    if !has_prefix(token, ENCODED_MARK@) {
        Some(token)
    } else {
        match base64_token_bytes(token.skip(4)) {
            Some(bytes) => if valid_utf8(bytes) {
                Some(decode_utf8(bytes))
            } else {
                None
            },
            None => None,
        }
    }
}

/// The token that stands for the text in a key. It is not empty, is made of letters, digits, hyphens
/// and underscores of ASCII, so holds no dot, and stands for the text and no other.
pub fn encode_key_token(raw: &str) -> (r: String)
    ensures
        r@ == key_token(raw@),
        token_text(r@) == Some(raw@),
        r@.len() > 0,
        forall|i: int| 0 <= i < r@.len() ==> base64_url_char(#[trigger] r@[i]),
        !r@.contains('.'),
{
    proof {
        reveal_strlit("b64_");
    }
    let plain = match regex_is_match(SAFE_TOKEN_PATTERN, raw) {
        Ok(matched) => matched,
        Err(_) => false,
    };
    if plain && !starts_with(raw, ENCODED_MARK) {
        return raw.to_owned();
    }
    let encoded = encode_base64_token(raw.as_bytes());
    let token = joined(ENCODED_MARK, encoded.as_str());
    proof {
        vstd::utf8::encode_utf8_valid_utf8(raw@);
        vstd::utf8::encode_utf8_decode_utf8(raw@);
        assert(token@.take(4) =~= ENCODED_MARK@);
        assert(token@.skip(4) =~= encoded@);
        assert forall|i: int| 0 <= i < token@.len() implies base64_url_char(
            #[trigger] token@[i],
        ) by {
            if i >= 4 {
                assert(token@[i] == encoded@[i - 4]);
            }
        }
    }
    token
}

/// The text that the token of a key stands for, if it stands for one.
pub fn decode_key_token(token: &str) -> (r: Option<String>)
    ensures
        r.deep_view() == token_text(token@),
{
    if !starts_with(token, ENCODED_MARK) {
        return Some(token.to_owned());
    }
    proof {
        reveal_strlit("b64_");
    }
    let chars = chars_of(token);
    let encoded = text_of(&chars, 4, chars.len());
    assert(encoded@ =~= token@.skip(4));
    let bytes = decode_base64_token(encoded.as_str())?;
    text_from_utf8(bytes)
}

/// The key under which the presence of an endpoint on a lane lies.
pub open spec fn presence_key(lane: Seq<char>, address: EndpointAddressModel) -> Seq<char> {
    join_on(
        seq![
            "presence"@,
            "endpoint"@,
            key_token(lane),
            key_token(address.family),
            key_token(address.endpoint_id),
        ],
        '.',
    )
}

/// The lane and the endpoint of a presence key, if it is one.
pub open spec fn presence_key_parts(key: Seq<char>) -> Option<(Seq<char>, EndpointAddressModel)> {
    let parts = split_on(key, '.');
    if parts.len() == 5 && parts[0] == "presence"@ && parts[1] == "endpoint"@ {
        match (token_text(parts[2]), token_text(parts[3]), token_text(parts[4])) {
            (Some(lane), Some(family), Some(id)) => match address_of(address_text(family, id)) {
                Some(address) => Some((lane, address)),
                None => None,
            },
            _ => None,
        }
    } else {
        None
    }
}

/// The manager and the device of a claim key, if it is one.
pub open spec fn claim_key_parts(key: Seq<char>) -> Option<(Seq<char>, Seq<char>)> {
    let parts = split_on(key, '.');
    if parts.len() == 4 && parts[0] == "claim"@ && parts[1] == "device"@ {
        match (token_text(parts[2]), token_text(parts[3])) {
            (Some(manager_id), Some(device_id)) => Some((manager_id, device_id)),
            _ => None,
        }
    } else {
        None
    }
}

/// The key under which the presence of the endpoint on the lane lies, if the text is an endpoint
/// address. The key tells the lane and the endpoint.
pub fn presence_endpoint_key(lane: &str, endpoint: &str) -> (r: Option<String>)
    ensures
        r.deep_view() == match address_of(endpoint@) {
            Some(address) => Some(presence_key(lane@, address)),
            None => None,
        },
        r matches Some(key) ==> presence_key_parts(key@) == Some(
            (lane@, address_of(endpoint@)->0),
        ),
{
    let address = EndpointAddress::parse(endpoint)?;
    let mut parts: Vec<String> = Vec::new();
    parts.push("presence".to_owned());
    parts.push("endpoint".to_owned());
    parts.push(encode_key_token(lane));
    parts.push(encode_key_token(address.family.as_str()));
    parts.push(encode_key_token(address.endpoint_id.as_str()));
    proof {
        let model = address.deep_view();
        let all = seq![
            "presence"@,
            "endpoint"@,
            key_token(lane@),
            key_token(model.family),
            key_token(model.endpoint_id),
        ];
        assert(parts.deep_view() =~= all);
        reveal_strlit("presence");
        reveal_strlit("endpoint");
        splitting_undoes_joining(all, '.');
        address_is_family_and_id(endpoint@);
        family_and_id_make_an_address(model.family, model.endpoint_id);
    }
    Some(join(&parts, '.'))
}

/// What the presence keys of controllers on the hardware lane start with.
pub open spec fn controller_prefix() -> Seq<char> {
    join_on(
        seq![
            "presence"@,
            "endpoint"@,
            key_token(HARDWARE_MESSAGES_LANE@),
            key_token("controller"@),
            Seq::empty(),
        ],
        '.',
    )
}

/// What the presence keys of controllers on the hardware lane start with.
pub fn controller_presence_prefix() -> (r: String)
    ensures
        r@ == controller_prefix(),
        forall|id: Seq<char>| #[trigger]
            presence_key(
                HARDWARE_MESSAGES_LANE@,
                EndpointAddressModel {
                    address: address_text("controller"@, id),
                    family: "controller"@,
                    endpoint_id: id,
                },
            ) == r@ + key_token(id),
{
    let mut parts: Vec<String> = Vec::new();
    parts.push("presence".to_owned());
    parts.push("endpoint".to_owned());
    parts.push(encode_key_token(HARDWARE_MESSAGES_LANE));
    parts.push(encode_key_token("controller"));
    parts.push(String::new());
    proof {
        let first = seq![
            "presence"@,
            "endpoint"@,
            key_token(HARDWARE_MESSAGES_LANE@),
            key_token("controller"@),
        ];
        assert(parts.deep_view() =~= first.push(Seq::empty()));
        assert(first.push(Seq::empty()) =~= seq![
            "presence"@,
            "endpoint"@,
            key_token(HARDWARE_MESSAGES_LANE@),
            key_token("controller"@),
            Seq::empty(),
        ]);
        assert forall|id: Seq<char>| #[trigger]
            presence_key(
                HARDWARE_MESSAGES_LANE@,
                EndpointAddressModel {
                    address: address_text("controller"@, id),
                    family: "controller"@,
                    endpoint_id: id,
                },
            ) == controller_prefix() + key_token(id) by {
            lemma_join_last(first, key_token(id), '.');
            assert(first.push(key_token(id)) =~= seq![
                "presence"@,
                "endpoint"@,
                key_token(HARDWARE_MESSAGES_LANE@),
                key_token("controller"@),
                key_token(id),
            ]);
        }
    }
    join(&parts, '.')
}

/// The key under which the inventory of a manager lies.
pub fn hardware_inventory_key(manager_id: &str) -> (r: String)
    ensures
        r@ == join_on(seq!["inventory"@, "hardware"@, key_token(manager_id@)], '.'),
        split_on(r@, '.') == seq!["inventory"@, "hardware"@, key_token(manager_id@)],
        token_text(split_on(r@, '.')[2]) == Some(manager_id@),
{
    let mut parts: Vec<String> = Vec::new();
    parts.push("inventory".to_owned());
    parts.push("hardware".to_owned());
    parts.push(encode_key_token(manager_id));
    proof {
        let all = seq!["inventory"@, "hardware"@, key_token(manager_id@)];
        assert(parts.deep_view() =~= all);
        reveal_strlit("inventory");
        reveal_strlit("hardware");
        splitting_undoes_joining(all, '.');
    }
    join(&parts, '.')
}

/// What the claim keys of a manager's devices start with.
pub open spec fn claim_prefix(manager_id: Seq<char>) -> Seq<char> {
    join_on(seq!["claim"@, "device"@, key_token(manager_id), Seq::empty()], '.')
}

/// What the claim keys of the manager's devices start with: with the token of a device behind it,
/// it is the key of that device's claim.
pub fn device_claim_prefix(manager_id: &str) -> (r: String)
    ensures
        r@ == claim_prefix(manager_id@),
        forall|token: Seq<char>|
            !token.contains('.') ==> #[trigger] claim_key_parts(r@ + token) == match token_text(
                token,
            ) {
                Some(device_id) => Some((manager_id@, device_id)),
                None => None,
            },
{
    let mut parts: Vec<String> = Vec::new();
    parts.push("claim".to_owned());
    parts.push("device".to_owned());
    parts.push(encode_key_token(manager_id));
    parts.push(String::new());
    proof {
        let first = seq!["claim"@, "device"@, key_token(manager_id@)];
        assert(first.push(Seq::empty()) =~= seq![
            "claim"@,
            "device"@,
            key_token(manager_id@),
            Seq::empty(),
        ]);
        assert(parts.deep_view() =~= first.push(Seq::empty()));
        reveal_strlit("claim");
        reveal_strlit("device");
        assert forall|token: Seq<char>| !token.contains('.') implies #[trigger] claim_key_parts(
            claim_prefix(manager_id@) + token,
        ) == match token_text(token) {
            Some(device_id) => Some((manager_id@, device_id)),
            None => None,
        } by {
            lemma_join_last(first, token, '.');
            splitting_undoes_joining(first.push(token), '.');
        }
    }
    join(&parts, '.')
}

/// The manager and the device of a claim key, if it is one.
pub fn parse_device_claim_key(key: &str) -> (r: Option<(String, String)>)
    ensures
        r.deep_view() == claim_key_parts(key@),
{
    let parts = split(key, '.');
    let ghost all = split_on(key@, '.');
    assert(forall|i: int| 0 <= i < parts@.len() ==> (#[trigger] parts@[i])@ == all[i]);
    if parts.len() != 4 || !same_text(parts[0].as_str(), "claim") || !same_text(
        parts[1].as_str(),
        "device",
    ) {
        return None;
    }
    let manager_id = decode_key_token(parts[2].as_str())?;
    let device_id = decode_key_token(parts[3].as_str())?;
    Some((manager_id, device_id))
}

/// The lane and the endpoint of a presence key, if it is one.
pub fn parse_presence_endpoint_key(key: &str) -> (r: Option<(String, EndpointAddress)>)
    ensures
        r.deep_view() == presence_key_parts(key@),
{
    let parts = split(key, '.');
    let ghost all = split_on(key@, '.');
    assert(forall|i: int| 0 <= i < parts@.len() ==> (#[trigger] parts@[i])@ == all[i]);
    if parts.len() != 5 || !same_text(parts[0].as_str(), "presence") || !same_text(
        parts[1].as_str(),
        "endpoint",
    ) {
        return None;
    }
    let lane = decode_key_token(parts[2].as_str())?;
    let family = decode_key_token(parts[3].as_str())?;
    let endpoint_id = decode_key_token(parts[4].as_str())?;
    let mut prefix = family.clone();
    prefix.push(':');
    let value = joined(prefix.as_str(), endpoint_id.as_str());
    assert(value@ =~= address_text(family@, endpoint_id@));
    let address = EndpointAddress::parse(value.as_str())?;
    Some((lane, address))
}

// ---------------------------------------------------------------------------------------------
// Records
// ---------------------------------------------------------------------------------------------

/// An instant, seconds since 1970 and nanoseconds in the second, as a text to the second. From 1970
/// to 9999 and without leap seconds, the second can be read back from it.
pub fn timestamp_at(at: (i64, u32)) -> (r: String)
    requires
        valid_instant(at.0, at.1),
    ensures
        r@ == instant_text(at.0, at.1),
        timestamp_shape(r@),
        0 <= at.0 <= LAST_PLAIN_SECOND && at.1 < 1_000_000_000 ==> rfc3339_instant(r@) == Some(
            (at.0, 0u32),
        ),
{
    instant_to_text(at.0, at.1)
}

/// Whether the text names an instant that the clock can show. Until the end of 9999 its second can be
/// read back.
pub open spec fn is_timestamp(text: Seq<char>) -> bool {
    &&& timestamp_shape(text)
    &&& exists|at: (i64, u32)|
        {
            &&& clock_instant(at)
            &&& text == #[trigger] instant_text(at.0, at.1)
            &&& at.0 <= LAST_PLAIN_SECOND ==> rfc3339_instant(text) == Some((at.0, 0u32))
        }
}

/// The present time to the second, as a text in UTC.
pub fn timestamp_now() -> (r: String)
    ensures
        is_timestamp(r@),
{
    let at = now();
    timestamp_at(at)
}

/// That an endpoint takes part in a lane.
#[derive(Debug)]
pub struct EndpointPresence {
    pub endpoint: String,
    pub lane: String,
    pub session_id: String,
    pub timestamp: String,
    pub ttl_seconds: u64,
    pub metadata: TextMap<String>,
}

/// What a presence is.
pub struct EndpointPresenceModel {
    pub endpoint: Seq<char>,
    pub lane: Seq<char>,
    pub session_id: Seq<char>,
    pub timestamp: Seq<char>,
    pub ttl_seconds: u64,
    pub metadata: Map<Seq<char>, Seq<char>>,
}

impl DeepView for EndpointPresence {
    type V = EndpointPresenceModel;

    open spec fn deep_view(&self) -> EndpointPresenceModel {
        EndpointPresenceModel {
            endpoint: self.endpoint.deep_view(),
            lane: self.lane.deep_view(),
            session_id: self.session_id.deep_view(),
            timestamp: self.timestamp.deep_view(),
            ttl_seconds: self.ttl_seconds.deep_view(),
            metadata: self.metadata.deep_view(),
        }
    }
}

/// The presence of a manager.
pub open spec fn manager_presence(
    manager_id: Seq<char>,
    session_id: Seq<char>,
    timestamp: Seq<char>,
) -> EndpointPresenceModel {
    EndpointPresenceModel {
        endpoint: "hardware_manager:"@ + manager_id,
        lane: HARDWARE_MESSAGES_LANE@,
        session_id,
        timestamp,
        ttl_seconds: STATE_TTL_SECONDS,
        metadata: map!["runtime"@ => "deckr-mirabox-manager"@, "version"@ => VERSION@],
    }
}

impl EndpointPresence {
    /// The presence of a manager at the present time.
    pub fn manager(manager_id: &str, session_id: &str) -> (r: Self)
        ensures
            r.deep_view() == manager_presence(manager_id@, session_id@, r.timestamp@),
            is_timestamp(r.timestamp@),
    {
        Self::manager_at(manager_id, session_id, timestamp_now())
    }

    /// The presence of a manager at a given time.
    pub fn manager_at(manager_id: &str, session_id: &str, timestamp: String) -> (r: Self)
        ensures
            r.deep_view() == manager_presence(manager_id@, session_id@, timestamp@),
            r.timestamp == timestamp,
    {
        let mut metadata: TextMap<String> = TextMap::new();
        metadata.insert("runtime".to_owned(), "deckr-mirabox-manager".to_owned());
        metadata.insert("version".to_owned(), VERSION.to_owned());
        proof {
            reveal_strlit("runtime");
            reveal_strlit("version");
            assert("runtime"@ != "version"@) by {
                assert("runtime"@[0] != "version"@[0]);
            }
            assert(metadata.deep_view() =~= map![
                "runtime"@ => "deckr-mirabox-manager"@,
                "version"@ => VERSION@,
            ]);
        }
        EndpointPresence {
            endpoint: hardware_manager_address(manager_id),
            lane: HARDWARE_MESSAGES_LANE.to_owned(),
            session_id: session_id.to_owned(),
            timestamp,
            ttl_seconds: STATE_TTL_SECONDS,
            metadata,
        }
    }
}

/// A device of an inventory.
#[derive(Debug, PartialEq, Eq)]
pub struct HardwareInventoryDevice {
    pub device_ref: DeviceRef,
    pub descriptor: DeviceDescriptor,
}

/// What a device of an inventory is.
pub struct HardwareInventoryDeviceModel {
    pub device_ref: DeviceRefModel,
    pub descriptor: DeviceDescriptorModel,
}

impl DeepView for HardwareInventoryDevice {
    type V = HardwareInventoryDeviceModel;

    open spec fn deep_view(&self) -> HardwareInventoryDeviceModel {
        HardwareInventoryDeviceModel {
            device_ref: self.device_ref.deep_view(),
            descriptor: self.descriptor.deep_view(),
        }
    }
}

impl Clone for HardwareInventoryDevice {
    fn clone(&self) -> (r: Self)
        ensures
            r.deep_view() == self.deep_view(),
    {
        HardwareInventoryDevice {
            device_ref: self.device_ref.clone(),
            descriptor: self.descriptor.clone(),
        }
    }
}

/// The entry of a manager's device in its inventory.
pub open spec fn inventory_device(
    manager_id: Seq<char>,
    device: DeviceDescriptorModel,
) -> HardwareInventoryDeviceModel {
    HardwareInventoryDeviceModel {
        device_ref: DeviceRefModel {
            manager_id,
            device_id: device.device_id,
            fingerprint: Some(device.fingerprint),
        },
        descriptor: device,
    }
}

impl HardwareInventoryDevice {
    /// The entry of the manager's device in its inventory.
    pub fn from_device(manager_id: &str, device: &DeviceDescriptor) -> (r: Self)
        ensures
            r.deep_view() == inventory_device(manager_id@, device.deep_view()),
    {
        HardwareInventoryDevice {
            device_ref: DeviceRef {
                manager_id: manager_id.to_owned(),
                device_id: device.device_id.clone(),
                fingerprint: Some(device.fingerprint.clone()),
            },
            descriptor: device.clone(),
        }
    }
}

/// The devices that a manager has.
#[derive(Debug)]
pub struct HardwareInventory {
    pub manager_id: String,
    pub manager_endpoint: String,
    pub session_id: String,
    pub timestamp: String,
    pub labels: TextMap<String>,
    pub devices: TextMap<HardwareInventoryDevice>,
}

/// What an inventory is.
pub struct HardwareInventoryModel {
    pub manager_id: Seq<char>,
    pub manager_endpoint: Seq<char>,
    pub session_id: Seq<char>,
    pub timestamp: Seq<char>,
    pub labels: Map<Seq<char>, Seq<char>>,
    pub devices: Map<Seq<char>, HardwareInventoryDeviceModel>,
}

impl DeepView for HardwareInventory {
    type V = HardwareInventoryModel;

    open spec fn deep_view(&self) -> HardwareInventoryModel {
        HardwareInventoryModel {
            manager_id: self.manager_id.deep_view(),
            manager_endpoint: self.manager_endpoint.deep_view(),
            session_id: self.session_id.deep_view(),
            timestamp: self.timestamp.deep_view(),
            labels: self.labels.deep_view(),
            devices: self.devices.deep_view(),
        }
    }
}

/// The inventory of a manager.
pub open spec fn manager_inventory(
    manager_id: Seq<char>,
    session_id: Seq<char>,
    timestamp: Seq<char>,
    devices: Map<Seq<char>, HardwareInventoryDeviceModel>,
) -> HardwareInventoryModel {
    HardwareInventoryModel {
        manager_id,
        manager_endpoint: "hardware_manager:"@ + manager_id,
        session_id,
        timestamp,
        labels: Map::empty(),
        devices,
    }
}

impl HardwareInventory {
    /// The inventory of a manager at the present time.
    pub fn new(manager_id: &str, session_id: &str, devices: TextMap<HardwareInventoryDevice>) -> (r:
        Self)
        ensures
            r.deep_view() == manager_inventory(
                manager_id@,
                session_id@,
                r.timestamp@,
                devices.deep_view(),
            ),
            is_timestamp(r.timestamp@),
    {
        Self::new_at(manager_id, session_id, timestamp_now(), devices)
    }

    /// The inventory of a manager at a given time.
    pub fn new_at(
        manager_id: &str,
        session_id: &str,
        timestamp: String,
        devices: TextMap<HardwareInventoryDevice>,
    ) -> (r: Self)
        ensures
            r.deep_view() == manager_inventory(
                manager_id@,
                session_id@,
                timestamp@,
                devices.deep_view(),
            ),
            r.timestamp == timestamp,
    {
        let labels: TextMap<String> = TextMap::new();
        assert(labels.deep_view() =~= Map::<Seq<char>, Seq<char>>::empty());
        HardwareInventory {
            manager_id: manager_id.to_owned(),
            manager_endpoint: hardware_manager_address(manager_id),
            session_id: session_id.to_owned(),
            timestamp,
            labels,
            devices,
        }
    }
}

/// That a controller has taken a device.
#[derive(Debug, PartialEq, Eq)]
pub struct DeviceClaim {
    pub claimed_by_endpoint: String,
    pub claimed_by_session_id: String,
    pub timestamp: String,
    pub ttl_seconds: u64,
}

/// What a claim is.
pub struct DeviceClaimModel {
    pub claimed_by_endpoint: Seq<char>,
    pub claimed_by_session_id: Seq<char>,
    pub timestamp: Seq<char>,
    pub ttl_seconds: u64,
}

impl DeepView for DeviceClaim {
    type V = DeviceClaimModel;

    open spec fn deep_view(&self) -> DeviceClaimModel {
        DeviceClaimModel {
            claimed_by_endpoint: self.claimed_by_endpoint.deep_view(),
            claimed_by_session_id: self.claimed_by_session_id.deep_view(),
            timestamp: self.timestamp.deep_view(),
            ttl_seconds: self.ttl_seconds.deep_view(),
        }
    }
}

impl Clone for DeviceClaim {
    fn clone(&self) -> (r: Self)
        ensures
            r.deep_view() == self.deep_view(),
    {
        DeviceClaim {
            claimed_by_endpoint: self.claimed_by_endpoint.clone(),
            claimed_by_session_id: self.claimed_by_session_id.clone(),
            timestamp: self.timestamp.clone(),
            ttl_seconds: self.ttl_seconds,
        }
    }
}

// ---------------------------------------------------------------------------------------------
// Laws
// ---------------------------------------------------------------------------------------------

/// Which texts are endpoint addresses: those of one of four families and an id with a colon between
/// them, where the id is there, has no white space at its ends and no colon, and where the id of an
/// action provider is made of letters, digits, dots, underscores and hyphens, starts with a letter or a
/// digit, and is not reserved.
pub proof fn addresses_are_of_known_families(value: Seq<char>, family: Seq<char>, id: Seq<char>)
    ensures
        address_of(value) == Some(
            EndpointAddressModel { address: value, family, endpoint_id: id },
        ) <==> {
            &&& value == family + seq![':'] + id
            &&& {
                ||| family == "action_provider"@
                ||| family == "controller"@
                ||| family == "hardware_manager"@
                ||| family == "service"@
            }
            &&& id.len() > 0
            &&& !white_space(id[0])
            &&& !white_space(id.last())
            &&& !id.contains(':')
            &&& family == "action_provider"@ ==> provider_id(id) && id
                != "dev.deckr.controller.builtin"@
        },
        address_of(value) matches Some(address) ==> address.address == value,
{
    address_is_family_and_id(value);
    if core_family(family) && endpoint_id_of(family, id) {
        family_and_id_make_an_address(family, id);
    }
}

/// A plain text stands for itself in a key, unless it could be taken for an encoded one.
pub proof fn plain_texts_stand_for_themselves(raw: Seq<char>)
    requires
        safe_token(raw),
        !has_prefix(raw, "b64_"@),
    ensures
        key_token(raw) == raw,
        token_text(raw) == Some(raw),
{
}

/// A token without the mark stands for itself, and one with the mark for the text whose bytes its rest
/// encodes, if there is one.
pub proof fn tokens_stand_for_texts(token: Seq<char>, text: Seq<char>)
    ensures
        !has_prefix(token, "b64_"@) ==> (token_text(token) == Some(text) <==> token == text),
        has_prefix(token, "b64_"@) ==> (token_text(token) == Some(text) <==> (base64_token_bytes(
            token.skip("b64_"@.len() as int),
        ) matches Some(bytes) && valid_utf8(bytes) && decode_utf8(bytes) == text)),
{
    reveal_strlit("b64_");
}

/// What can be read from a presence key: it is five tokens with dots between them, of which the first
/// two say what it is, the third is that of the lane, and the others are those of the family and the id
/// of an endpoint.
pub proof fn presence_keys_tell_lane_and_endpoint(
    key: Seq<char>,
    lane: Seq<char>,
    address: EndpointAddressModel,
)
    ensures
        presence_key_parts(key) == Some((lane, address)) <==> exists|
            first: Seq<char>,
            second: Seq<char>,
            third: Seq<char>,
        |
            {
                &&& key == #[trigger] five_tokens("presence"@, "endpoint"@, first, second, third)
                &&& !first.contains('.') && !second.contains('.') && !third.contains('.')
                &&& token_text(first) == Some(lane)
                &&& token_text(second) == Some(address.family)
                &&& token_text(third) == Some(address.endpoint_id)
                &&& address_of(address.family + seq![':'] + address.endpoint_id) == Some(address)
            },
{
    reveal_strlit("presence");
    reveal_strlit("endpoint");
    joining_undoes_splitting(key, '.');
    let parts = split_on(key, '.');
    if presence_key_parts(key) == Some((lane, address)) {
        assert(parts =~= seq![parts[0], parts[1], parts[2], parts[3], parts[4]]);
        let family = token_text(parts[3])->0;
        let id = token_text(parts[4])->0;
        address_is_family_and_id(address_text(family, id));
        addresses_are_of_known_families(address_text(family, id), family, id);
        lemma_address_parts(family, id);
        assert(key == five_tokens("presence"@, "endpoint"@, parts[2], parts[3], parts[4]));
        assert(!parts[2].contains('.') && !parts[3].contains('.') && !parts[4].contains('.'));
    }
    assert forall|first: Seq<char>, second: Seq<char>, third: Seq<char>|
        {
            &&& key == #[trigger] five_tokens("presence"@, "endpoint"@, first, second, third)
            &&& !first.contains('.') && !second.contains('.') && !third.contains('.')
            &&& token_text(first) == Some(lane)
            &&& token_text(second) == Some(address.family)
            &&& token_text(third) == Some(address.endpoint_id)
            &&& address_of(address.family + seq![':'] + address.endpoint_id) == Some(address)
        } implies presence_key_parts(key) == Some((lane, address)) by {
        let all = seq!["presence"@, "endpoint"@, first, second, third];
        assert(!"presence"@.contains('.') && !"endpoint"@.contains('.'));
        splitting_undoes_joining(all, '.');
        assert(parts == all);
    }
}

proof fn lemma_address_parts(family: Seq<char>, id: Seq<char>)
    ensures
        address_of(address_text(family, id)) matches Some(address) ==> !address.endpoint_id.contains(
            ':',
        ),
        address_of(address_text(family, id)) matches Some(address) ==> address.family == family
            && address.endpoint_id == id,
{
    let value = address_text(family, id);
    address_is_family_and_id(value);
    if let Some(address) = address_of(value) {
        let n = family.len() as int;
        let m = address.family.len() as int;
        lemma_first_index(value, ':');
        assert(m == first_index(value, ':'));
        assert(value[n] == ':');
        if m < n {
            assert(address.endpoint_id =~= value.skip(m + 1));
            assert(address.endpoint_id[n - m - 1] == ':');
            assert(address.endpoint_id.contains(':'));
        }
        assert(m == n);
        assert(address.family =~= family) by {
            assert(value.take(n) =~= family);
        }
        assert(address.endpoint_id =~= id) by {
            assert(value.skip(n + 1) =~= id);
        }
    }
}

/// Five tokens with dots between them.
pub open spec fn five_tokens(
    a: Seq<char>,
    b: Seq<char>,
    c: Seq<char>,
    d: Seq<char>,
    e: Seq<char>,
) -> Seq<char> {
    join_on(seq![a, b, c, d, e], '.')
}

/// Four tokens with dots between them.
pub open spec fn four_tokens(a: Seq<char>, b: Seq<char>, c: Seq<char>, d: Seq<char>) -> Seq<char> {
    join_on(seq![a, b, c, d], '.')
}

/// What can be read from a claim key: it is four tokens with dots between them, of which the first two
/// say what it is, and the others are those of the manager and of the device.
pub proof fn claim_keys_tell_manager_and_device(
    key: Seq<char>,
    manager_id: Seq<char>,
    device_id: Seq<char>,
)
    ensures
        claim_key_parts(key) == Some((manager_id, device_id)) <==> exists|
            first: Seq<char>,
            second: Seq<char>,
        |
            {
                &&& key == #[trigger] four_tokens("claim"@, "device"@, first, second)
                &&& !first.contains('.') && !second.contains('.')
                &&& token_text(first) == Some(manager_id)
                &&& token_text(second) == Some(device_id)
            },
{
    reveal_strlit("claim");
    reveal_strlit("device");
    joining_undoes_splitting(key, '.');
    let parts = split_on(key, '.');
    if claim_key_parts(key) == Some((manager_id, device_id)) {
        assert(parts =~= seq![parts[0], parts[1], parts[2], parts[3]]);
        assert(key == four_tokens("claim"@, "device"@, parts[2], parts[3]));
        assert(!parts[2].contains('.') && !parts[3].contains('.'));
    }
    assert forall|first: Seq<char>, second: Seq<char>|
        {
            &&& key == #[trigger] four_tokens("claim"@, "device"@, first, second)
            &&& !first.contains('.') && !second.contains('.')
            &&& token_text(first) == Some(manager_id)
            &&& token_text(second) == Some(device_id)
        } implies claim_key_parts(key) == Some((manager_id, device_id)) by {
        let all = seq!["claim"@, "device"@, first, second];
        assert(!"claim"@.contains('.') && !"device"@.contains('.'));
        splitting_undoes_joining(all, '.');
        assert(parts == all);
    }
}

/// A manager is present on the hardware lane under its address, for its session, at the time and for
/// half a minute, with the name and the version of the program.
pub proof fn managers_are_present_on_the_hardware_lane(
    manager_id: Seq<char>,
    session_id: Seq<char>,
    timestamp: Seq<char>,
)
    ensures
        ({
            let presence = manager_presence(manager_id, session_id, timestamp);
            &&& presence.endpoint == "hardware_manager:"@ + manager_id
            &&& presence.lane == "hardware_messages"@
            &&& presence.session_id == session_id
            &&& presence.timestamp == timestamp
            &&& presence.ttl_seconds == 30
            &&& presence.metadata.dom() == set!["runtime"@, "version"@]
            &&& presence.metadata["runtime"@] == "deckr-mirabox-manager"@
            &&& presence.metadata["version"@] == "0.1.0"@
        }),
{
    reveal_strlit("runtime");
    reveal_strlit("version");
    assert("runtime"@[0] != "version"@[0]);
    assert(manager_presence(manager_id, session_id, timestamp).metadata.dom() =~= set![
        "runtime"@,
        "version"@,
    ]);
}

/// The inventory of a manager is under its id, its address and its session, at the time, and holds the
/// devices that it was given; each device is entered under the ids of manager and device and with its
/// fingerprint and its description.
pub proof fn inventories_hold_the_devices(
    manager_id: Seq<char>,
    session_id: Seq<char>,
    timestamp: Seq<char>,
    devices: Map<Seq<char>, HardwareInventoryDeviceModel>,
    device: DeviceDescriptorModel,
)
    ensures
        ({
            let inventory = manager_inventory(manager_id, session_id, timestamp, devices);
            let entry = inventory_device(manager_id, device);
            &&& inventory.manager_id == manager_id
            &&& inventory.manager_endpoint == "hardware_manager:"@ + manager_id
            &&& inventory.session_id == session_id
            &&& inventory.timestamp == timestamp
            &&& inventory.devices == devices
            &&& inventory.labels == Map::<Seq<char>, Seq<char>>::empty()
            &&& entry.device_ref.manager_id == manager_id
            &&& entry.device_ref.device_id == device.device_id
            &&& entry.device_ref.fingerprint == Some(device.fingerprint)
            &&& entry.descriptor == device
        }),
{
}

/// The keys of presences and claims, and what they start with, token by token.
pub proof fn keys_are_tokens_with_dots(
    lane: Seq<char>,
    address: EndpointAddressModel,
    manager_id: Seq<char>,
)
    ensures
        presence_key(lane, address) == "presence.endpoint."@ + key_token(lane) + "."@ + key_token(
            address.family,
        ) + "."@ + key_token(address.endpoint_id),
        controller_prefix() == "presence.endpoint."@ + key_token("hardware_messages"@) + "."@
            + key_token("controller"@) + "."@,
        claim_prefix(manager_id) == "claim.device."@ + key_token(manager_id) + "."@,
{
    reveal_strlit("presence.endpoint.");
    reveal_strlit("presence");
    reveal_strlit("endpoint");
    reveal_strlit("claim.device.");
    reveal_strlit("claim");
    reveal_strlit("device");
    reveal_strlit(".");
    assert("presence.endpoint."@ =~= "presence"@ + seq!['.'] + "endpoint"@ + seq!['.']);
    assert("claim.device."@ =~= "claim"@ + seq!['.'] + "device"@ + seq!['.']);
    assert("."@ =~= seq!['.']);
    let dot = seq!['.'];
    let (p, e) = ("presence"@, "endpoint"@);
    lemma_join_five(p, e, key_token(lane), key_token(address.family), key_token(address.endpoint_id));
    lemma_join_five(
        p,
        e,
        key_token("hardware_messages"@),
        key_token("controller"@),
        Seq::empty(),
    );
    assert(presence_key(lane, address) =~= "presence.endpoint."@ + key_token(lane) + "."@
        + key_token(address.family) + "."@ + key_token(address.endpoint_id));
    assert(controller_prefix() =~= "presence.endpoint."@ + key_token("hardware_messages"@) + "."@
        + key_token("controller"@) + "."@);
    reveal_with_fuel(join_on, 5);
    let parts = seq!["claim"@, "device"@, key_token(manager_id), Seq::<char>::empty()];
    assert(parts.drop_first() =~= seq!["device"@, key_token(manager_id), Seq::empty()]);
    assert(parts.drop_first().drop_first() =~= seq![key_token(manager_id), Seq::empty()]);
    assert(parts.drop_first().drop_first().drop_first() =~= seq![Seq::<char>::empty()]);
    assert(claim_prefix(manager_id) =~= "claim.device."@ + key_token(manager_id) + "."@);
}

proof fn lemma_join_five(a: Seq<char>, b: Seq<char>, c: Seq<char>, d: Seq<char>, e: Seq<char>)
    ensures
        join_on(seq![a, b, c, d, e], '.') == a + seq!['.'] + (b + seq!['.'] + (c + seq!['.'] + (d
            + seq!['.'] + e))),
{
    reveal_with_fuel(join_on, 6);
    let all = seq![a, b, c, d, e];
    assert(all.drop_first() =~= seq![b, c, d, e]);
    assert(all.drop_first().drop_first() =~= seq![c, d, e]);
    assert(all.drop_first().drop_first().drop_first() =~= seq![d, e]);
    assert(all.drop_first().drop_first().drop_first().drop_first() =~= seq![e]);
}

/// What is told of a value of `EndpointAddress`: each field under its own name.
pub proof fn endpoint_address_is_told_by_field(value: EndpointAddress)
    ensures
        value.deep_view().address == value.address@,
        value.deep_view().family == value.family@,
        value.deep_view().endpoint_id == value.endpoint_id@,
{
}

/// What is told of a value of `EndpointPresence`: each field under its own name.
pub proof fn endpoint_presence_is_told_by_field(value: EndpointPresence)
    ensures
        value.deep_view().endpoint == value.endpoint@,
        value.deep_view().lane == value.lane@,
        value.deep_view().session_id == value.session_id@,
        value.deep_view().timestamp == value.timestamp@,
        value.deep_view().ttl_seconds == value.ttl_seconds,
        value.deep_view().metadata == value.metadata.deep_view(),
{
}

/// What is told of a value of `HardwareInventoryDevice`: each field under its own name.
pub proof fn hardware_inventory_device_is_told_by_field(value: HardwareInventoryDevice)
    ensures
        value.deep_view().device_ref == value.device_ref.deep_view(),
        value.deep_view().descriptor == value.descriptor.deep_view(),
{
}

/// What is told of a value of `HardwareInventory`: each field under its own name.
pub proof fn hardware_inventory_is_told_by_field(value: HardwareInventory)
    ensures
        value.deep_view().manager_id == value.manager_id@,
        value.deep_view().manager_endpoint == value.manager_endpoint@,
        value.deep_view().session_id == value.session_id@,
        value.deep_view().timestamp == value.timestamp@,
        value.deep_view().labels == value.labels.deep_view(),
        value.deep_view().devices == value.devices.deep_view(),
{
}

/// What is told of a value of `DeviceClaim`: each field under its own name.
pub proof fn device_claim_is_told_by_field(value: DeviceClaim)
    ensures
        value.deep_view().claimed_by_endpoint == value.claimed_by_endpoint@,
        value.deep_view().claimed_by_session_id == value.claimed_by_session_id@,
        value.deep_view().timestamp == value.timestamp@,
        value.deep_view().ttl_seconds == value.ttl_seconds,
{
}

/// State that is published is renewed six times before it is gone.
pub proof fn state_outlives_missed_heartbeats()
    ensures
        STATE_TTL_SECONDS == 6 * HEARTBEAT_SECONDS,
        2 * STATE_TTL_SECONDS == 60,
        STATE_RECONCILE_SECONDS == 1,
        WATCH_RETRY_SECONDS == 1,
{
}

} // verus!
