//! Envelopes of the hardware lane, and the bodies of the messages about slots, keys and dials.

use vstd::prelude::*;

use crate::json::{
    copy_fields, distinct_names, field_of, find_field, lemma_fields, lemma_list, lemma_object, object_of_one,
    object_of_two, JsonModel, JsonValue,
};
use crate::outside::{
    add_millis, base64_padded, base64_padded_bytes, clock_instant, decode_base64_padded,
    encode_base64_padded, instant_after, instant_millis_text, instant_to_millis_text,
    millis_timestamp_shape, new_uuid_text, now, parse_rfc3339, rfc3339_instant, uuid_shape,
    valid_instant, LAST_PLAIN_SECOND,
};
use crate::state::HARDWARE_MESSAGES_LANE;
use crate::text::{joined, same_text};
use crate::text_map::TextMap;

verus! {

/// The schema of the hardware lane's messages.
pub const HARDWARE_MESSAGES_SCHEMA_ID: &'static str = "deckr.message.hardware_messages.v1";

/// The version of the protocol.
pub const DECKR_PROTOCOL_VERSION: &'static str = "1";

/// The version of the messages' schema.
pub const SCHEMA_VERSION: &'static str = "1";

// ---------------------------------------------------------------------------------------------
// What the messages are about
// ---------------------------------------------------------------------------------------------

/// A cell of a device's grid.
#[derive(Debug, Clone, Copy, PartialEq, Eq, Structural)]
pub struct Coordinates {
    pub column: i32,
    pub row: i32,
}

impl DeepView for Coordinates {
    type V = Coordinates;

    open spec fn deep_view(&self) -> Coordinates {
        *self
    }
}

/// The images that a slot takes.
#[derive(Debug, PartialEq, Eq)]
pub struct ImageFormat {
    pub width: u32,
    pub height: u32,
    pub format: String,
    pub rotation: i32,
    pub flip_x: bool,
    pub flip_y: bool,
    pub format_options: Vec<(String, JsonValue)>,
}

/// What an image format is.
pub struct ImageFormatModel {
    pub width: u32,
    pub height: u32,
    pub format: Seq<char>,
    pub rotation: i32,
    pub flip_x: bool,
    pub flip_y: bool,
    pub format_options: Seq<(Seq<char>, JsonModel)>,
}

impl DeepView for ImageFormat {
    type V = ImageFormatModel;

    open spec fn deep_view(&self) -> ImageFormatModel {
        ImageFormatModel {
            width: self.width.deep_view(),
            height: self.height.deep_view(),
            format: self.format.deep_view(),
            rotation: self.rotation.deep_view(),
            flip_x: self.flip_x.deep_view(),
            flip_y: self.flip_y.deep_view(),
            format_options: self.format_options.deep_view(),
        }
    }
}

impl Clone for ImageFormat {
    fn clone(&self) -> (r: Self)
        ensures
            r.deep_view() == self.deep_view(),
    {
        ImageFormat {
            width: self.width,
            height: self.height,
            format: self.format.clone(),
            rotation: self.rotation,
            flip_x: self.flip_x,
            flip_y: self.flip_y,
            format_options: copy_fields(&self.format_options),
        }
    }
}

/// A slot of a device.
#[derive(Debug, PartialEq, Eq)]
pub struct Slot {
    pub id: String,
    pub coordinates: Coordinates,
    pub image_format: Option<ImageFormat>,
    pub slot_type: String,
    pub gestures: Vec<String>,
}

/// What a slot is.
pub struct SlotModel {
    pub id: Seq<char>,
    pub coordinates: Coordinates,
    pub image_format: Option<ImageFormatModel>,
    pub slot_type: Seq<char>,
    pub gestures: Seq<Seq<char>>,
}

impl DeepView for Slot {
    type V = SlotModel;

    open spec fn deep_view(&self) -> SlotModel {
        SlotModel {
            id: self.id.deep_view(),
            coordinates: self.coordinates.deep_view(),
            image_format: self.image_format.deep_view(),
            slot_type: self.slot_type.deep_view(),
            gestures: self.gestures.deep_view(),
        }
    }
}

impl Clone for Slot {
    fn clone(&self) -> (r: Self)
        ensures
            r.deep_view() == self.deep_view(),
    {
        Slot {
            id: self.id.clone(),
            coordinates: self.coordinates,
            image_format: self.image_format.clone(),
            slot_type: self.slot_type.clone(),
            gestures: self.gestures.clone(),
        }
    }
}

/// A device with its slots.
#[derive(Debug, PartialEq, Eq)]
pub struct DeviceInfo {
    pub id: String,
    pub fingerprint: String,
    pub hid: String,
    pub slots: Vec<Slot>,
    pub name: Option<String>,
}

/// What a device with its slots is.
pub struct DeviceInfoModel {
    pub id: Seq<char>,
    pub fingerprint: Seq<char>,
    pub hid: Seq<char>,
    pub slots: Seq<SlotModel>,
    pub name: Option<Seq<char>>,
}

impl DeepView for DeviceInfo {
    type V = DeviceInfoModel;

    open spec fn deep_view(&self) -> DeviceInfoModel {
        DeviceInfoModel {
            id: self.id.deep_view(),
            fingerprint: self.fingerprint.deep_view(),
            hid: self.hid.deep_view(),
            slots: self.slots.deep_view(),
            name: self.name.deep_view(),
        }
    }
}

impl Clone for DeviceInfo {
    fn clone(&self) -> (r: Self)
        ensures
            r.deep_view() == self.deep_view(),
    {
        DeviceInfo {
            id: self.id.clone(),
            fingerprint: self.fingerprint.clone(),
            hid: self.hid.clone(),
            slots: self.slots.clone(),
            name: self.name.clone(),
        }
    }
}

/// To whom a message goes.
#[derive(Debug, PartialEq, Eq)]
pub enum MessageTarget {
    Endpoint { endpoint: String },
    Broadcast {
        scope: String,
        endpoint_family: String,
        domain: Option<String>,
        hop_limit: Option<u32>,
    },
}

/// What a target is.
pub enum MessageTargetModel {
    Endpoint { endpoint: Seq<char> },
    Broadcast {
        scope: Seq<char>,
        endpoint_family: Seq<char>,
        domain: Option<Seq<char>>,
        hop_limit: Option<u32>,
    },
}

impl DeepView for MessageTarget {
    type V = MessageTargetModel;

    open spec fn deep_view(&self) -> MessageTargetModel {
        match self {
            MessageTarget::Endpoint { endpoint } => MessageTargetModel::Endpoint {
                endpoint: endpoint@,
            },
            MessageTarget::Broadcast { scope, endpoint_family, domain, hop_limit } =>
                MessageTargetModel::Broadcast {
                scope: scope@,
                endpoint_family: endpoint_family@,
                domain: domain.deep_view(),
                hop_limit: *hop_limit,
            },
        }
    }
}

/// What a message is about.
#[derive(Debug)]
pub struct EntitySubject {
    pub kind: String,
    pub identifiers: TextMap<String>,
}

/// What a subject is.
pub struct EntitySubjectModel {
    pub kind: Seq<char>,
    pub identifiers: Map<Seq<char>, Seq<char>>,
}

impl DeepView for EntitySubject {
    type V = EntitySubjectModel;

    open spec fn deep_view(&self) -> EntitySubjectModel {
        EntitySubjectModel {
            kind: self.kind.deep_view(),
            identifiers: self.identifiers.deep_view(),
        }
    }
}

/// The identifiers with one more, if there is one more.
pub open spec fn with_identifier(
    identifiers: Map<Seq<char>, Seq<char>>,
    name: Seq<char>,
    value: Option<Seq<char>>,
) -> Map<Seq<char>, Seq<char>> {
    match value {
        Some(value) => identifiers.insert(name, value),
        None => identifiers,
    }
}

/// A device, or a control of it.
pub open spec fn hardware_subject(
    manager_id: Seq<char>,
    device_id: Seq<char>,
    control_id: Option<Seq<char>>,
    control_kind: Option<Seq<char>>,
) -> EntitySubjectModel {
    EntitySubjectModel {
        kind: if control_id is Some {
            "hardware_control"@
        } else {
            "hardware_device"@
        },
        identifiers: with_identifier(
            with_identifier(
                Map::empty().insert("managerId"@, manager_id).insert("deviceId"@, device_id),
                "controlId"@,
                control_id,
            ),
            "controlKind"@,
            control_kind,
        ),
    }
}

/// The value that a map holds for a key, if it holds one.
pub open spec fn looked_up(map: Map<Seq<char>, Seq<char>>, key: Seq<char>) -> Option<Seq<char>> {
    if map.contains_key(key) {
        Some(map[key])
    } else {
        None
    }
}

fn put(map: &mut TextMap<String>, key: &str, value: &str)
    ensures
        final(map).deep_view() == old(map).deep_view().insert(key@, value@),
{
    map.insert(key.to_owned(), value.to_owned());
    assert(map.deep_view() =~= old(map).deep_view().insert(key@, value@));
}

impl EntitySubject {
    /// A device, or a control of it. The subject tells the manager and the device.
    pub fn hardware(
        manager_id: &str,
        device_id: &str,
        control_id: Option<&str>,
        control_kind: Option<&str>,
    ) -> (r: Self)
        ensures
            r.deep_view() == hardware_subject(
                manager_id@,
                device_id@,
                control_id.deep_view(),
                control_kind.deep_view(),
            ),
            looked_up(r.deep_view().identifiers, "managerId"@) == Some(manager_id@),
            looked_up(r.deep_view().identifiers, "deviceId"@) == Some(device_id@),
    {
        proof {
            reveal_strlit("managerId");
            reveal_strlit("deviceId");
            reveal_strlit("controlId");
            reveal_strlit("controlKind");
            assert("managerId"@[0] != "deviceId"@[0]);
            assert("managerId"@[0] != "controlId"@[0]);
            assert("managerId"@[0] != "controlKind"@[0]);
            assert("deviceId"@[0] != "controlId"@[0]);
            assert("deviceId"@[0] != "controlKind"@[0]);
        }
        let mut identifiers: TextMap<String> = TextMap::new();
        assert(identifiers.deep_view() =~= Map::<Seq<char>, Seq<char>>::empty());
        put(&mut identifiers, "managerId", manager_id);
        put(&mut identifiers, "deviceId", device_id);
        if let Some(control_id) = control_id {
            put(&mut identifiers, "controlId", control_id);
        }
        if let Some(control_kind) = control_kind {
            put(&mut identifiers, "controlKind", control_kind);
        }
        let kind = if control_id.is_some() {
            "hardware_control"
        } else {
            "hardware_device"
        };
        EntitySubject { kind: kind.to_owned(), identifiers }
    }

    /// The device that the subject names.
    pub fn device_id(&self) -> (r: Option<&str>)
        ensures
            r.deep_view() == looked_up(self.deep_view().identifiers, "deviceId"@),
    {
        match self.identifiers.get("deviceId") {
            Some(id) => Some(id.as_str()),
            None => None,
        }
    }

    /// The manager that the subject names.
    pub fn manager_id(&self) -> (r: Option<&str>)
        ensures
            r.deep_view() == looked_up(self.deep_view().identifiers, "managerId"@),
    {
        match self.identifiers.get("managerId") {
            Some(id) => Some(id.as_str()),
            None => None,
        }
    }
}

// ---------------------------------------------------------------------------------------------
// What the messages say
// ---------------------------------------------------------------------------------------------

/// What a message about slots, keys and dials says.
#[derive(Debug, PartialEq, Eq)]
pub enum HardwareMessageBody {
    DeviceConnected { device: DeviceInfo },
    DeviceDisconnected,
    KeyDown { key_id: String },
    KeyUp { key_id: String },
    DialRotate { dial_id: String, direction: String },
    TouchTap { touch_id: String },
    TouchSwipe { touch_id: String, direction: String },
    SetImage { slot_id: String, image: Vec<u8> },
    ClearSlot { slot_id: String },
    SleepScreen,
    WakeScreen,
}

/// What the body of a message is.
pub enum HardwareMessageBodyModel {
    DeviceConnected { device: DeviceInfoModel },
    DeviceDisconnected,
    KeyDown { key_id: Seq<char> },
    KeyUp { key_id: Seq<char> },
    DialRotate { dial_id: Seq<char>, direction: Seq<char> },
    TouchTap { touch_id: Seq<char> },
    TouchSwipe { touch_id: Seq<char>, direction: Seq<char> },
    SetImage { slot_id: Seq<char>, image: Seq<u8> },
    ClearSlot { slot_id: Seq<char> },
    SleepScreen,
    WakeScreen,
}

impl DeepView for HardwareMessageBody {
    type V = HardwareMessageBodyModel;

    open spec fn deep_view(&self) -> HardwareMessageBodyModel {
        match self {
            HardwareMessageBody::DeviceConnected { device } =>
                HardwareMessageBodyModel::DeviceConnected { device: device.deep_view() },
            HardwareMessageBody::DeviceDisconnected => HardwareMessageBodyModel::DeviceDisconnected,
            HardwareMessageBody::KeyDown { key_id } => HardwareMessageBodyModel::KeyDown {
                key_id: key_id@,
            },
            HardwareMessageBody::KeyUp { key_id } => HardwareMessageBodyModel::KeyUp {
                key_id: key_id@,
            },
            HardwareMessageBody::DialRotate { dial_id, direction } =>
                HardwareMessageBodyModel::DialRotate { dial_id: dial_id@, direction: direction@ },
            HardwareMessageBody::TouchTap { touch_id } => HardwareMessageBodyModel::TouchTap {
                touch_id: touch_id@,
            },
            HardwareMessageBody::TouchSwipe { touch_id, direction } =>
                HardwareMessageBodyModel::TouchSwipe { touch_id: touch_id@, direction: direction@ },
            HardwareMessageBody::SetImage { slot_id, image } => HardwareMessageBodyModel::SetImage {
                slot_id: slot_id@,
                image: image@,
            },
            HardwareMessageBody::ClearSlot { slot_id } => HardwareMessageBodyModel::ClearSlot {
                slot_id: slot_id@,
            },
            HardwareMessageBody::SleepScreen => HardwareMessageBodyModel::SleepScreen,
            HardwareMessageBody::WakeScreen => HardwareMessageBodyModel::WakeScreen,
        }
    }
}

impl Clone for HardwareMessageBody {
    fn clone(&self) -> (r: Self)
        ensures
            r.deep_view() == self.deep_view(),
    {
        match self {
            HardwareMessageBody::DeviceConnected { device } =>
                HardwareMessageBody::DeviceConnected { device: device.clone() },
            HardwareMessageBody::DeviceDisconnected => HardwareMessageBody::DeviceDisconnected,
            HardwareMessageBody::KeyDown { key_id } => HardwareMessageBody::KeyDown {
                key_id: key_id.clone(),
            },
            HardwareMessageBody::KeyUp { key_id } => HardwareMessageBody::KeyUp {
                key_id: key_id.clone(),
            },
            HardwareMessageBody::DialRotate { dial_id, direction } =>
                HardwareMessageBody::DialRotate {
                dial_id: dial_id.clone(),
                direction: direction.clone(),
            },
            HardwareMessageBody::TouchTap { touch_id } => HardwareMessageBody::TouchTap {
                touch_id: touch_id.clone(),
            },
            HardwareMessageBody::TouchSwipe { touch_id, direction } =>
                HardwareMessageBody::TouchSwipe {
                touch_id: touch_id.clone(),
                direction: direction.clone(),
            },
            HardwareMessageBody::SetImage { slot_id, image } => HardwareMessageBody::SetImage {
                slot_id: slot_id.clone(),
                image: image.clone(),
            },
            HardwareMessageBody::ClearSlot { slot_id } => HardwareMessageBody::ClearSlot {
                slot_id: slot_id.clone(),
            },
            HardwareMessageBody::SleepScreen => HardwareMessageBody::SleepScreen,
            HardwareMessageBody::WakeScreen => HardwareMessageBody::WakeScreen,
        }
    }
}

/// Why a message has no body that can be read.
#[derive(Debug, PartialEq, Eq)]
pub enum WireError {
    /// A type of message that is not known.
    UnknownType { message_type: String },
    /// A body that is not of the form that its type asks for.
    InvalidBody,
}

/// What is wrong with a message.
pub enum WireErrorModel {
    UnknownType { message_type: Seq<char> },
    InvalidBody,
}

impl DeepView for WireError {
    type V = WireErrorModel;

    open spec fn deep_view(&self) -> WireErrorModel {
        match self {
            WireError::UnknownType { message_type } => WireErrorModel::UnknownType {
                message_type: message_type@,
            },
            WireError::InvalidBody => WireErrorModel::InvalidBody,
        }
    }
}

/// The type of a message with the body.
pub open spec fn type_of(body: HardwareMessageBodyModel) -> Seq<char> {
    match body {
        HardwareMessageBodyModel::DeviceConnected { .. } => "deviceConnected"@,
        HardwareMessageBodyModel::DeviceDisconnected => "deviceDisconnected"@,
        HardwareMessageBodyModel::KeyDown { .. } => "keyDown"@,
        HardwareMessageBodyModel::KeyUp { .. } => "keyUp"@,
        HardwareMessageBodyModel::DialRotate { .. } => "dialRotate"@,
        HardwareMessageBodyModel::TouchTap { .. } => "touchTap"@,
        HardwareMessageBodyModel::TouchSwipe { .. } => "touchSwipe"@,
        HardwareMessageBodyModel::SetImage { .. } => "setImage"@,
        HardwareMessageBodyModel::ClearSlot { .. } => "clearSlot"@,
        HardwareMessageBodyModel::SleepScreen => "sleepScreen"@,
        HardwareMessageBodyModel::WakeScreen => "wakeScreen"@,
    }
}

/// The control that a body is about, if it is about one.
pub open spec fn control_of(body: HardwareMessageBodyModel) -> Option<Seq<char>> {
    match body {
        HardwareMessageBodyModel::KeyDown { key_id } => Some(key_id),
        HardwareMessageBodyModel::KeyUp { key_id } => Some(key_id),
        HardwareMessageBodyModel::DialRotate { dial_id, .. } => Some(dial_id),
        HardwareMessageBodyModel::TouchTap { touch_id } => Some(touch_id),
        HardwareMessageBodyModel::TouchSwipe { touch_id, .. } => Some(touch_id),
        HardwareMessageBodyModel::SetImage { slot_id, .. } => Some(slot_id),
        HardwareMessageBodyModel::ClearSlot { slot_id } => Some(slot_id),
        _ => None,
    }
}

/// The kind of control that a body is about, if it is about one.
pub open spec fn control_kind_of(body: HardwareMessageBodyModel) -> Option<Seq<char>> {
    match body {
        HardwareMessageBodyModel::KeyDown { .. } => Some("key"@),
        HardwareMessageBodyModel::KeyUp { .. } => Some("key"@),
        HardwareMessageBodyModel::DialRotate { .. } => Some("dial"@),
        HardwareMessageBodyModel::TouchTap { .. } => Some("touch"@),
        HardwareMessageBodyModel::TouchSwipe { .. } => Some("touch"@),
        HardwareMessageBodyModel::SetImage { .. } => Some("slot"@),
        HardwareMessageBodyModel::ClearSlot { .. } => Some("slot"@),
        _ => None,
    }
}

/// Whether a body asks something of a device. All other bodies tell of one.
pub open spec fn asks(body: HardwareMessageBodyModel) -> bool {
    body is SetImage || body is ClearSlot || body is SleepScreen || body is WakeScreen
}

// How bodies are written.

/// A whole number.
pub open spec fn int_json(value: i32) -> JsonModel {
    if value >= 0 {
        JsonModel::Unsigned(value as u64)
    } else {
        JsonModel::Negative(value as i64)
    }
}

/// A list of texts.
pub open spec fn texts_json(texts: Seq<Seq<char>>) -> JsonModel {
    JsonModel::List(Seq::new(texts.len(), |i: int| JsonModel::Text(texts[i])))
}

pub open spec fn coordinates_json(coordinates: Coordinates) -> JsonModel {
    JsonModel::Object(
        seq![
            ("column"@, int_json(coordinates.column)),
            ("row"@, int_json(coordinates.row)),
        ],
    )
}

pub open spec fn format_json(format: ImageFormatModel) -> JsonModel {
    JsonModel::Object(
        seq![
            ("flipX"@, JsonModel::Bool(format.flip_x)),
            ("flipY"@, JsonModel::Bool(format.flip_y)),
            ("format"@, JsonModel::Text(format.format)),
            ("formatOptions"@, JsonModel::Object(format.format_options)),
            ("height"@, JsonModel::Unsigned(format.height as u64)),
            ("rotation"@, int_json(format.rotation)),
            ("width"@, JsonModel::Unsigned(format.width as u64)),
        ],
    )
}

/// A slot. Where it takes no images, nothing is said of them.
pub open spec fn slot_json(slot: SlotModel) -> JsonModel {
    let head = seq![
        ("coordinates"@, coordinates_json(slot.coordinates)),
        ("gestures"@, texts_json(slot.gestures)),
        ("id"@, JsonModel::Text(slot.id)),
    ];
    let images = match slot.image_format {
        Some(format) => seq![("imageFormat"@, format_json(format))],
        None => Seq::empty(),
    };
    JsonModel::Object(head + images + seq![("slotType"@, JsonModel::Text(slot.slot_type))])
}

/// A device. Where it has no name, nothing is said of one.
pub open spec fn device_json(device: DeviceInfoModel) -> JsonModel {
    let head = seq![
        ("fingerprint"@, JsonModel::Text(device.fingerprint)),
        ("hid"@, JsonModel::Text(device.hid)),
        ("id"@, JsonModel::Text(device.id)),
    ];
    let name = match device.name {
        Some(name) => seq![("name"@, JsonModel::Text(name))],
        None => Seq::empty(),
    };
    let slots = Seq::new(device.slots.len(), |i: int| slot_json(device.slots[i]));
    JsonModel::Object(head + name + seq![("slots"@, JsonModel::List(slots))])
}

/// An object with one field.
pub open spec fn one_field(name: Seq<char>, value: JsonModel) -> JsonModel {
    JsonModel::Object(seq![(name, value)])
}

/// An object with two fields.
pub open spec fn two_fields(
    first: Seq<char>,
    value: JsonModel,
    second: Seq<char>,
    other: JsonModel,
) -> JsonModel {
    JsonModel::Object(seq![(first, value), (second, other)])
}

/// How a body is written.
pub open spec fn body_json(body: HardwareMessageBodyModel) -> JsonModel {
    match body {
        HardwareMessageBodyModel::DeviceConnected { device } => one_field(
            "device"@,
            device_json(device),
        ),
        HardwareMessageBodyModel::KeyDown { key_id } => one_field(
            "keyId"@,
            JsonModel::Text(key_id),
        ),
        HardwareMessageBodyModel::KeyUp { key_id } => one_field("keyId"@, JsonModel::Text(key_id)),
        HardwareMessageBodyModel::DialRotate { dial_id, direction } => two_fields(
            "dialId"@,
            JsonModel::Text(dial_id),
            "direction"@,
            JsonModel::Text(direction),
        ),
        HardwareMessageBodyModel::TouchTap { touch_id } => one_field(
            "touchId"@,
            JsonModel::Text(touch_id),
        ),
        HardwareMessageBodyModel::TouchSwipe { touch_id, direction } => two_fields(
            "direction"@,
            JsonModel::Text(direction),
            "touchId"@,
            JsonModel::Text(touch_id),
        ),
        HardwareMessageBodyModel::SetImage { slot_id, image } => two_fields(
            "image"@,
            JsonModel::Text(base64_padded(image)),
            "slotId"@,
            JsonModel::Text(slot_id),
        ),
        HardwareMessageBodyModel::ClearSlot { slot_id } => one_field(
            "slotId"@,
            JsonModel::Text(slot_id),
        ),
        _ => JsonModel::Object(Seq::empty()),
    }
}

// How bodies are read. A record is written as an object, or as the list of its members in the order
// of their names.

/// The member of a record, if it is there.
pub open spec fn member(value: JsonModel, name: Seq<char>, i: int) -> Option<JsonModel> {
    match value {
        JsonModel::Object(fields) => field_of(fields, name),
        JsonModel::List(list) => if i < list.len() {
            Some(list[i])
        } else {
            None
        },
        _ => None,
    }
}

/// Whether a value can be a record with so many members.
pub open spec fn is_record(value: JsonModel, count: nat) -> bool {
    match value {
        JsonModel::Object(_) => true,
        JsonModel::List(list) => list.len() <= count,
        _ => false,
    }
}

/// Whether all fields have one of the names.
pub open spec fn all_known(fields: Seq<(Seq<char>, JsonModel)>, names: Seq<Seq<char>>) -> bool {
    forall|i: int| 0 <= i < fields.len() ==> names.contains((#[trigger] fields[i]).0)
}

/// Whether a value can be a record with members of these names and no others.
pub open spec fn is_closed_record(value: JsonModel, names: Seq<Seq<char>>) -> bool {
    match value {
        JsonModel::Object(fields) => all_known(fields, names),
        JsonModel::List(list) => list.len() <= names.len(),
        _ => false,
    }
}

pub open spec fn text_of_json(value: Option<JsonModel>) -> Option<Seq<char>> {
    match value {
        Some(JsonModel::Text(text)) => Some(text),
        _ => None,
    }
}

pub open spec fn i32_of_json(value: Option<JsonModel>) -> Option<i32> {
    match value {
        Some(JsonModel::Unsigned(value)) => if value <= i32::MAX {
            Some(value as i32)
        } else {
            None
        },
        Some(JsonModel::Negative(value)) => if i32::MIN <= value <= i32::MAX {
            Some(value as i32)
        } else {
            None
        },
        _ => None,
    }
}

pub open spec fn u32_of_json(value: Option<JsonModel>) -> Option<u32> {
    match value {
        Some(JsonModel::Unsigned(value)) => if value <= u32::MAX {
            Some(value as u32)
        } else {
            None
        },
        Some(JsonModel::Negative(value)) => if 0 <= value <= u32::MAX {
            Some(value as u32)
        } else {
            None
        },
        _ => None,
    }
}

pub open spec fn texts_of_json(value: JsonModel) -> Option<Seq<Seq<char>>> {
    match value {
        JsonModel::List(list) => if forall|i: int|
            0 <= i < list.len() ==> (#[trigger] list[i]) is Text {
            Some(Seq::new(list.len(), |i: int| list[i]->Text_0))
        } else {
            None
        },
        _ => None,
    }
}

/// A flag, which is off where nothing is said of it.
pub open spec fn flag_of_json(value: Option<JsonModel>) -> Option<bool> {
    match value {
        Some(JsonModel::Bool(value)) => Some(value),
        Some(_) => None,
        None => Some(false),
    }
}

/// A turn, which is none where nothing is said of it.
pub open spec fn rotation_of_json(value: Option<JsonModel>) -> Option<i32> {
    if value is None {
        Some(0i32)
    } else {
        i32_of_json(value)
    }
}

/// Options, of which there are none where nothing is said of them.
pub open spec fn options_of_json(value: Option<JsonModel>) -> Option<Seq<(Seq<char>, JsonModel)>> {
    match value {
        Some(JsonModel::Object(fields)) => Some(fields),
        Some(_) => None,
        None => Some(Seq::empty()),
    }
}

/// Gestures, of which there are none where nothing is said of them.
pub open spec fn gestures_of_json(value: Option<JsonModel>) -> Option<Seq<Seq<char>>> {
    match value {
        Some(value) => texts_of_json(value),
        None => Some(Seq::empty()),
    }
}

/// Whether a member that need not be there may be missing: only where the members have names.
pub open spec fn may_miss(value: JsonModel) -> bool {
    value is Object
}

pub open spec fn coordinates_names() -> Seq<Seq<char>> {
    seq!["column"@, "row"@]
}

pub open spec fn coordinates_of_json(value: JsonModel) -> Option<Coordinates> {
    let names = coordinates_names();
    let column = i32_of_json(member(value, names[0], 0));
    let row = i32_of_json(member(value, names[1], 1));
    if is_closed_record(value, names) && column is Some && row is Some {
        Some(Coordinates { column: column->0, row: row->0 })
    } else {
        None
    }
}

pub open spec fn format_names() -> Seq<Seq<char>> {
    seq![
        "width"@,
        "height"@,
        "format"@,
        "rotation"@,
        "flipX"@,
        "flipY"@,
        "formatOptions"@,
    ]
}

pub open spec fn format_of_json(value: JsonModel) -> Option<ImageFormatModel> {
    let names = format_names();
    let width = u32_of_json(member(value, names[0], 0));
    let height = u32_of_json(member(value, names[1], 1));
    let format = text_of_json(member(value, names[2], 2));
    let rotation = rotation_of_json(member(value, names[3], 3));
    let flip_x = flag_of_json(member(value, names[4], 4));
    let flip_y = flag_of_json(member(value, names[5], 5));
    let options = options_of_json(member(value, names[6], 6));
    if is_closed_record(value, names) && width is Some && height is Some && format is Some
        && rotation is Some && flip_x is Some && flip_y is Some && options is Some {
        Some(
            ImageFormatModel {
                width: width->0,
                height: height->0,
                format: format->0,
                rotation: rotation->0,
                flip_x: flip_x->0,
                flip_y: flip_y->0,
                format_options: options->0,
            },
        )
    } else {
        None
    }
}

/// An image format that need not be there.
pub open spec fn optional_format_of_json(record: JsonModel, value: Option<JsonModel>) -> Option<
    Option<ImageFormatModel>,
> {
    match value {
        None => if may_miss(record) {
            Some(None)
        } else {
            None
        },
        Some(JsonModel::Null) => Some(None),
        Some(value) => match format_of_json(value) {
            Some(format) => Some(Some(format)),
            None => None,
        },
    }
}

/// A text that need not be there.
pub open spec fn optional_text_of_json(record: JsonModel, value: Option<JsonModel>) -> Option<
    Option<Seq<char>>,
> {
    match value {
        None => if may_miss(record) {
            Some(None)
        } else {
            None
        },
        Some(JsonModel::Null) => Some(None),
        Some(JsonModel::Text(text)) => Some(Some(text)),
        Some(_) => None,
    }
}

pub open spec fn slot_names() -> Seq<Seq<char>> {
    seq!["id"@, "coordinates"@, "imageFormat"@, "slotType"@, "gestures"@]
}

pub open spec fn slot_of_json(value: JsonModel) -> Option<SlotModel> {
    let names = slot_names();
    let id = text_of_json(member(value, names[0], 0));
    let coordinates = match member(value, names[1], 1) {
        Some(value) => coordinates_of_json(value),
        None => None,
    };
    let image_format = optional_format_of_json(value, member(value, names[2], 2));
    let slot_type = text_of_json(member(value, names[3], 3));
    let gestures = gestures_of_json(member(value, names[4], 4));
    if is_closed_record(value, names) && id is Some && coordinates is Some && image_format is Some
        && slot_type is Some && gestures is Some {
        Some(
            SlotModel {
                id: id->0,
                coordinates: coordinates->0,
                image_format: image_format->0,
                slot_type: slot_type->0,
                gestures: gestures->0,
            },
        )
    } else {
        None
    }
}

pub open spec fn slots_of_json(value: Option<JsonModel>) -> Option<Seq<SlotModel>> {
    match value {
        Some(JsonModel::List(list)) => if forall|i: int|
            0 <= i < list.len() ==> slot_of_json(#[trigger] list[i]) is Some {
            Some(Seq::new(list.len(), |i: int| slot_of_json(list[i])->0))
        } else {
            None
        },
        _ => None,
    }
}

pub open spec fn device_names() -> Seq<Seq<char>> {
    seq!["id"@, "fingerprint"@, "hid"@, "slots"@, "name"@]
}

pub open spec fn device_of_json(value: JsonModel) -> Option<DeviceInfoModel> {
    let names = device_names();
    let id = text_of_json(member(value, names[0], 0));
    let fingerprint = text_of_json(member(value, names[1], 1));
    let hid = text_of_json(member(value, names[2], 2));
    let slots = slots_of_json(member(value, names[3], 3));
    let name = optional_text_of_json(value, member(value, names[4], 4));
    if is_closed_record(value, names) && id is Some && fingerprint is Some && hid is Some
        && slots is Some && name is Some {
        Some(
            DeviceInfoModel {
                id: id->0,
                fingerprint: fingerprint->0,
                hid: hid->0,
                slots: slots->0,
                name: name->0,
            },
        )
    } else {
        None
    }
}

/// The text of a record with one member.
pub open spec fn only_text(value: JsonModel, name: Seq<char>) -> Option<Seq<char>> {
    if is_record(value, 1) {
        text_of_json(member(value, name, 0))
    } else {
        None
    }
}

/// The texts of a record with two members.
pub open spec fn both_texts(value: JsonModel, first: Seq<char>, second: Seq<char>) -> Option<
    (Seq<char>, Seq<char>),
> {
    let a = text_of_json(member(value, first, 0));
    let b = text_of_json(member(value, second, 1));
    if is_record(value, 2) && a is Some && b is Some {
        Some((a->0, b->0))
    } else {
        None
    }
}

/// What the body of a message of the type says.
pub open spec fn body_of(message_type: Seq<char>, body: JsonModel) -> Result<
    HardwareMessageBodyModel,
    WireErrorModel,
> {
    if message_type == "deviceConnected"@ {
        match member(body, "device"@, 0) {
            Some(value) => if is_record(body, 1) && device_of_json(value) is Some {
                Ok(HardwareMessageBodyModel::DeviceConnected { device: device_of_json(value)->0 })
            } else {
                Err(WireErrorModel::InvalidBody)
            },
            None => Err(WireErrorModel::InvalidBody),
        }
    } else if message_type == "deviceDisconnected"@ {
        Ok(HardwareMessageBodyModel::DeviceDisconnected)
    } else if message_type == "keyDown"@ {
        match only_text(body, "keyId"@) {
            Some(key_id) => Ok(HardwareMessageBodyModel::KeyDown { key_id }),
            None => Err(WireErrorModel::InvalidBody),
        }
    } else if message_type == "keyUp"@ {
        match only_text(body, "keyId"@) {
            Some(key_id) => Ok(HardwareMessageBodyModel::KeyUp { key_id }),
            None => Err(WireErrorModel::InvalidBody),
        }
    } else if message_type == "dialRotate"@ {
        match both_texts(body, "dialId"@, "direction"@) {
            Some((dial_id, direction)) => Ok(
                HardwareMessageBodyModel::DialRotate { dial_id, direction },
            ),
            None => Err(WireErrorModel::InvalidBody),
        }
    } else if message_type == "touchTap"@ {
        match only_text(body, "touchId"@) {
            Some(touch_id) => Ok(HardwareMessageBodyModel::TouchTap { touch_id }),
            None => Err(WireErrorModel::InvalidBody),
        }
    } else if message_type == "touchSwipe"@ {
        match both_texts(body, "touchId"@, "direction"@) {
            Some((touch_id, direction)) => Ok(
                HardwareMessageBodyModel::TouchSwipe { touch_id, direction },
            ),
            None => Err(WireErrorModel::InvalidBody),
        }
    } else if message_type == "setImage"@ {
        match both_texts(body, "slotId"@, "image"@) {
            Some((slot_id, text)) => match base64_padded_bytes(text) {
                Some(image) => Ok(HardwareMessageBodyModel::SetImage { slot_id, image }),
                None => Err(WireErrorModel::InvalidBody),
            },
            None => Err(WireErrorModel::InvalidBody),
        }
    } else if message_type == "clearSlot"@ {
        match only_text(body, "slotId"@) {
            Some(slot_id) => Ok(HardwareMessageBodyModel::ClearSlot { slot_id }),
            None => Err(WireErrorModel::InvalidBody),
        }
    } else if message_type == "sleepScreen"@ {
        Ok(HardwareMessageBodyModel::SleepScreen)
    } else if message_type == "wakeScreen"@ {
        Ok(HardwareMessageBodyModel::WakeScreen)
    } else {
        Err(WireErrorModel::UnknownType { message_type })
    }
}

// What is written is read back.

proof fn lemma_coordinates_read_back(coordinates: Coordinates)
    ensures
        coordinates_of_json(coordinates_json(coordinates)) == Some(coordinates),
{
    reveal_strlit("column");
    reveal_strlit("row");
    assert("column"@[0] != "row"@[0]);
    let fields = coordinates_json(coordinates)->Object_0;
    let names = coordinates_names();
    lemma_fields(fields);
    assert(fields[0].0 == names[0] && fields[1].0 == names[1]);
}

proof fn lemma_format_read_back(format: ImageFormatModel)
    ensures
        format_of_json(format_json(format)) == Some(format),
{
    reveal_strlit("flipX");
    reveal_strlit("flipY");
    reveal_strlit("format");
    reveal_strlit("formatOptions");
    reveal_strlit("height");
    reveal_strlit("rotation");
    reveal_strlit("width");
    assert("flipX"@.len() == 5 && "flipY"@.len() == 5 && "format"@.len() == 6
        && "formatOptions"@.len() == 13 && "height"@.len() == 6 && "rotation"@.len() == 8
        && "width"@.len() == 5);
    assert("flipX"@[4] != "flipY"@[4]);
    assert("flipX"@[0] != "width"@[0] && "flipY"@[0] != "width"@[0]);
    assert("format"@[0] != "height"@[0]);
    let fields = format_json(format)->Object_0;
    let names = format_names();
    lemma_fields(fields);
    assert(fields[0].0 == names[4] && fields[1].0 == names[5] && fields[2].0 == names[2]
        && fields[3].0 == names[6] && fields[4].0 == names[1] && fields[5].0 == names[3]
        && fields[6].0 == names[0]);
}

proof fn lemma_slot_read_back(slot: SlotModel)
    ensures
        slot_of_json(slot_json(slot)) == Some(slot),
{
    reveal_strlit("coordinates");
    reveal_strlit("gestures");
    reveal_strlit("id");
    reveal_strlit("imageFormat");
    reveal_strlit("slotType");
    assert("coordinates"@.len() == 11 && "imageFormat"@.len() == 11 && "id"@.len() == 2
        && "gestures"@.len() == 8 && "slotType"@.len() == 8);
    assert("coordinates"@[0] != "imageFormat"@[0]);
    assert("gestures"@[0] != "slotType"@[0]);
    lemma_coordinates_read_back(slot.coordinates);
    let fields = slot_json(slot)->Object_0;
    let names = slot_names();
    assert(fields[0].0 == names[1] && fields[1].0 == names[4] && fields[2].0 == names[0]);
    if let Some(format) = slot.image_format {
        lemma_format_read_back(format);
        assert(fields.len() == 5);
        assert(fields[3].0 == names[2] && fields[4].0 == names[3]);
    } else {
        assert(fields.len() == 4);
        assert(fields[3].0 == names[3]);
    }
    lemma_fields(fields);
    assert(texts_of_json(texts_json(slot.gestures))->0 =~= slot.gestures);
}

proof fn lemma_device_read_back(device: DeviceInfoModel)
    ensures
        device_of_json(device_json(device)) == Some(device),
{
    reveal_strlit("fingerprint");
    reveal_strlit("hid");
    reveal_strlit("id");
    reveal_strlit("name");
    reveal_strlit("slots");
    assert("fingerprint"@.len() == 11 && "hid"@.len() == 3 && "id"@.len() == 2 && "name"@.len() == 4
        && "slots"@.len() == 5);
    let fields = device_json(device)->Object_0;
    let names = device_names();
    assert(fields[0].0 == names[1] && fields[1].0 == names[2] && fields[2].0 == names[0]);
    if device.name is Some {
        assert(fields.len() == 5);
        assert(fields[3].0 == names[4] && fields[4].0 == names[3]);
    } else {
        assert(fields.len() == 4);
        assert(fields[3].0 == names[3]);
    }
    lemma_fields(fields);
    let slots = Seq::new(device.slots.len(), |i: int| slot_json(device.slots[i]));
    assert forall|i: int| 0 <= i < slots.len() implies slot_of_json(#[trigger] slots[i]) == Some(
        device.slots[i],
    ) by {
        lemma_slot_read_back(device.slots[i]);
    }
    assert(slots_of_json(Some(JsonModel::List(slots)))->0 =~= device.slots);
}

proof fn lemma_types_differ()
    ensures
        "deviceConnected"@.len() == 15,
        "deviceDisconnected"@.len() == 18,
        "keyDown"@.len() == 7,
        "keyUp"@.len() == 5,
        "dialRotate"@.len() == 10,
        "touchTap"@.len() == 8,
        "touchSwipe"@.len() == 10,
        "setImage"@.len() == 8,
        "clearSlot"@.len() == 9,
        "sleepScreen"@.len() == 11,
        "wakeScreen"@.len() == 10,
        "dialRotate"@[0] == 'd',
        "touchTap"@[0] == 't',
        "touchSwipe"@[0] == 't',
        "setImage"@[0] == 's',
        "wakeScreen"@[0] == 'w',
{
    reveal_strlit("deviceConnected");
    reveal_strlit("deviceDisconnected");
    reveal_strlit("keyDown");
    reveal_strlit("keyUp");
    reveal_strlit("dialRotate");
    reveal_strlit("touchTap");
    reveal_strlit("touchSwipe");
    reveal_strlit("setImage");
    reveal_strlit("clearSlot");
    reveal_strlit("sleepScreen");
    reveal_strlit("wakeScreen");
}

proof fn lemma_two_fields(first: Seq<char>, value: JsonModel, second: Seq<char>, other: JsonModel)
    requires
        first != second,
    ensures
        field_of(two_fields(first, value, second, other)->Object_0, first) == Some(value),
        field_of(two_fields(first, value, second, other)->Object_0, second) == Some(other),
{
    let fields = two_fields(first, value, second, other)->Object_0;
    lemma_fields(fields);
    assert(fields[0].0 == first && fields[1].0 == second);
}

/// A body that is written under its type is read back as it was. For an image this takes that
/// decoding it gives back the bytes that were encoded.
pub proof fn bodies_read_back(body: HardwareMessageBodyModel)
    requires
        body matches HardwareMessageBodyModel::SetImage { image, .. } ==> base64_padded_bytes(
            base64_padded(image),
        ) == Some(image),
    ensures
        body_of(type_of(body), body_json(body)) == Ok::<HardwareMessageBodyModel, WireErrorModel>(
            body,
        ),
{
    lemma_types_differ();
    reveal_strlit("dialId");
    reveal_strlit("direction");
    reveal_strlit("touchId");
    reveal_strlit("image");
    reveal_strlit("slotId");
    assert("dialId"@.len() == 6 && "direction"@.len() == 9 && "touchId"@.len() == 7
        && "image"@.len() == 5 && "slotId"@.len() == 6);
    match body {
        HardwareMessageBodyModel::DeviceConnected { device } => {
            lemma_device_read_back(device);
        },
        HardwareMessageBodyModel::DialRotate { dial_id, direction } => {
            lemma_two_fields(
                "dialId"@,
                JsonModel::Text(dial_id),
                "direction"@,
                JsonModel::Text(direction),
            );
        },
        HardwareMessageBodyModel::TouchSwipe { touch_id, direction } => {
            lemma_two_fields(
                "direction"@,
                JsonModel::Text(direction),
                "touchId"@,
                JsonModel::Text(touch_id),
            );
        },
        HardwareMessageBodyModel::SetImage { slot_id, image } => {
            lemma_two_fields(
                "image"@,
                JsonModel::Text(base64_padded(image)),
                "slotId"@,
                JsonModel::Text(slot_id),
            );
        },
        _ => {},
    }
}

// Writing.

pub(crate) fn text_json(text: &String) -> (r: JsonValue)
    ensures
        r.deep_view() == JsonModel::Text(text@),
{
    JsonValue::Text(text.clone())
}

fn int_value(value: i32) -> (r: JsonValue)
    ensures
        r.deep_view() == int_json(value),
{
    if value >= 0 {
        JsonValue::Unsigned(value as u64)
    } else {
        JsonValue::Negative(value as i64)
    }
}

fn texts_value(texts: &Vec<String>) -> (r: JsonValue)
    ensures
        r.deep_view() == texts_json(texts.deep_view()),
{
    let mut list: Vec<JsonValue> = Vec::new();
    let n: usize = texts.len();
    let mut i: usize = 0;
    while i < n
        invariant
            i <= n == texts@.len(),
            list@.len() == i,
            forall|k: int|
                0 <= k < i ==> (#[trigger] list@[k]).deep_view() == JsonModel::Text(texts@[k]@),
        decreases n - i,
    {
        list.push(text_json(&texts[i]));
        i += 1;
    }
    proof {
        lemma_list(list);
        assert(list.deep_view() =~= texts_json(texts.deep_view())->List_0);
    }
    JsonValue::List(list)
}

fn add_field(fields: &mut Vec<(String, JsonValue)>, name: &str, value: JsonValue)
    ensures
        final(fields).deep_view() == old(fields).deep_view().push((name@, value.deep_view())),
{
    fields.push((name.to_owned(), value));
    assert(fields.deep_view() =~= old(fields).deep_view().push((name@, value.deep_view())));
}

fn format_value(format: &ImageFormat) -> (r: JsonValue)
    ensures
        r.deep_view() == format_json(format.deep_view()),
{
    let options = copy_fields(&format.format_options);
    let mut fields: Vec<(String, JsonValue)> = Vec::new();
    add_field(&mut fields, "flipX", JsonValue::Bool(format.flip_x));
    add_field(&mut fields, "flipY", JsonValue::Bool(format.flip_y));
    add_field(&mut fields, "format", text_json(&format.format));
    add_field(&mut fields, "formatOptions", JsonValue::Object(options));
    add_field(&mut fields, "height", JsonValue::Unsigned(format.height as u64));
    add_field(&mut fields, "rotation", int_value(format.rotation));
    add_field(&mut fields, "width", JsonValue::Unsigned(format.width as u64));
    proof {
        lemma_object(options);
        lemma_object(fields);
        assert(fields.deep_view() =~= format_json(format.deep_view())->Object_0);
    }
    JsonValue::Object(fields)
}

fn slot_value(slot: &Slot) -> (r: JsonValue)
    ensures
        r.deep_view() == slot_json(slot.deep_view()),
{
    let mut fields: Vec<(String, JsonValue)> = Vec::new();
    add_field(
        &mut fields,
        "coordinates",
        object_of_two(
            "column",
            int_value(slot.coordinates.column),
            "row",
            int_value(slot.coordinates.row),
        ),
    );
    add_field(&mut fields, "gestures", texts_value(&slot.gestures));
    add_field(&mut fields, "id", text_json(&slot.id));
    if let Some(format) = &slot.image_format {
        add_field(&mut fields, "imageFormat", format_value(format));
    }
    add_field(&mut fields, "slotType", text_json(&slot.slot_type));
    proof {
        lemma_object(fields);
        assert(fields.deep_view() =~= slot_json(slot.deep_view())->Object_0);
    }
    JsonValue::Object(fields)
}

fn device_value(device: &DeviceInfo) -> (r: JsonValue)
    ensures
        r.deep_view() == device_json(device.deep_view()),
{
    let mut fields: Vec<(String, JsonValue)> = Vec::new();
    add_field(&mut fields, "fingerprint", text_json(&device.fingerprint));
    add_field(&mut fields, "hid", text_json(&device.hid));
    add_field(&mut fields, "id", text_json(&device.id));
    if let Some(name) = &device.name {
        add_field(&mut fields, "name", text_json(name));
    }
    let mut slots: Vec<JsonValue> = Vec::new();
    let n: usize = device.slots.len();
    let mut i: usize = 0;
    while i < n
        invariant
            i <= n == device.slots@.len(),
            slots@.len() == i,
            forall|k: int|
                0 <= k < i ==> (#[trigger] slots@[k]).deep_view() == slot_json(
                    device.slots@[k].deep_view(),
                ),
        decreases n - i,
    {
        slots.push(slot_value(&device.slots[i]));
        i += 1;
    }
    proof {
        lemma_list(slots);
        assert(slots.deep_view() =~= Seq::new(
            device.deep_view().slots.len(),
            |i: int| slot_json(device.deep_view().slots[i]),
        ));
    }
    add_field(&mut fields, "slots", JsonValue::List(slots));
    proof {
        lemma_object(fields);
        assert(fields.deep_view() =~= device_json(device.deep_view())->Object_0);
    }
    JsonValue::Object(fields)
}

// Reading.

pub(crate) fn find_member<'a>(value: &'a JsonValue, name: &str, i: usize) -> (r: Option<&'a JsonValue>)
    ensures
        r.deep_view() == member(value.deep_view(), name@, i as int),
{
    match value {
        JsonValue::Object(fields) => {
            proof {
                lemma_object(*fields);
            }
            find_field(fields, name)
        },
        JsonValue::List(list) => {
            proof {
                lemma_list(*list);
            }
            if i < list.len() {
                Some(&list[i])
            } else {
                None
            }
        },
        _ => None,
    }
}

pub(crate) fn can_be_record(value: &JsonValue, count: usize) -> (r: bool)
    ensures
        r == is_record(value.deep_view(), count as nat),
{
    match value {
        JsonValue::Object(_) => true,
        JsonValue::List(list) => list.len() <= count,
        _ => false,
    }
}

pub(crate) fn can_be_closed_record(value: &JsonValue, names: &Vec<&'static str>) -> (r: bool)
    ensures
        r == is_closed_record(value.deep_view(), names.deep_view()),
{
    match value {
        JsonValue::Object(fields) => {
            let ghost all = fields.deep_view();
            let ghost known = names.deep_view();
            proof {
                lemma_object(*fields);
            }
            let n: usize = fields.len();
            let mut i: usize = 0;
            while i < n
                invariant
                    i <= n == fields@.len(),
                    all == fields.deep_view(),
                    known == names.deep_view(),
                    value.deep_view() == JsonModel::Object(all),
                    forall|k: int| 0 <= k < i ==> known.contains((#[trigger] all[k]).0),
                decreases n - i,
            {
                let m: usize = names.len();
                let mut found = false;
                let mut j: usize = 0;
                assert(all[i as int].0 == fields@[i as int].0@);
                while j < m
                    invariant
                        i < fields@.len(),
                        all[i as int].0 == fields@[i as int].0@,
                        j <= m == names@.len(),
                        known == names.deep_view(),
                        found == exists|k: int| 0 <= k < j && #[trigger] known[k] == all[i as int].0,
                    decreases m - j,
                {
                    assert(known[j as int] == names@[j as int]@);
                    if same_text(fields[i].0.as_str(), names[j]) {
                        found = true;
                    }
                    j += 1;
                }
                if !found {
                    assert(!known.contains(all[i as int].0));
                    return false;
                }
                i += 1;
            }
            true
        },
        JsonValue::List(list) => list.len() <= names.len(),
        _ => false,
    }
}

pub(crate) fn read_text(value: Option<&JsonValue>) -> (r: Option<String>)
    ensures
        r.deep_view() == text_of_json(value.deep_view()),
{
    match value {
        Some(JsonValue::Text(text)) => Some(text.clone()),
        _ => None,
    }
}

fn read_i32(value: Option<&JsonValue>) -> (r: Option<i32>)
    ensures
        r == i32_of_json(value.deep_view()),
{
    match value {
        Some(JsonValue::Unsigned(value)) => if *value <= i32::MAX as u64 {
            Some(*value as i32)
        } else {
            None
        },
        Some(JsonValue::Negative(value)) => if i32::MIN as i64 <= *value && *value
            <= i32::MAX as i64 {
            Some(*value as i32)
        } else {
            None
        },
        _ => None,
    }
}

pub(crate) fn read_u32(value: Option<&JsonValue>) -> (r: Option<u32>)
    ensures
        r == u32_of_json(value.deep_view()),
{
    match value {
        Some(JsonValue::Unsigned(value)) => if *value <= u32::MAX as u64 {
            Some(*value as u32)
        } else {
            None
        },
        Some(JsonValue::Negative(value)) => if 0 <= *value && *value <= u32::MAX as i64 {
            Some(*value as u32)
        } else {
            None
        },
        _ => None,
    }
}

fn read_flag(value: Option<&JsonValue>) -> (r: Option<bool>)
    ensures
        r == flag_of_json(value.deep_view()),
{
    match value {
        Some(JsonValue::Bool(value)) => Some(*value),
        Some(_) => None,
        None => Some(false),
    }
}

fn read_rotation(value: Option<&JsonValue>) -> (r: Option<i32>)
    ensures
        r == rotation_of_json(value.deep_view()),
{
    if value.is_none() {
        Some(0)
    } else {
        read_i32(value)
    }
}

fn read_options(value: Option<&JsonValue>) -> (r: Option<Vec<(String, JsonValue)>>)
    ensures
        r.deep_view() == options_of_json(value.deep_view()),
{
    match value {
        Some(JsonValue::Object(fields)) => {
            proof {
                lemma_object(*fields);
            }
            Some(copy_fields(fields))
        },
        Some(_) => None,
        None => {
            let fields: Vec<(String, JsonValue)> = Vec::new();
            assert(fields.deep_view() =~= Seq::<(Seq<char>, JsonModel)>::empty());
            Some(fields)
        },
    }
}

fn read_gestures(value: Option<&JsonValue>) -> (r: Option<Vec<String>>)
    ensures
        r.deep_view() == gestures_of_json(value.deep_view()),
{
    let mut texts: Vec<String> = Vec::new();
    match value {
        Some(JsonValue::List(list)) => {
            let ghost all = list.deep_view();
            proof {
                lemma_list(*list);
            }
            let n: usize = list.len();
            let mut i: usize = 0;
            while i < n
                invariant
                    i <= n == list@.len(),
                    all == list.deep_view(),
                    texts@.len() == i,
                    forall|k: int|
                        0 <= k < i ==> (#[trigger] all[k]) is Text && texts@[k]@ == all[k]->Text_0,
                    value.deep_view() == Some(JsonModel::List(all)),
                decreases n - i,
            {
                assert(all[i as int] == list@[i as int].deep_view());
                match &list[i] {
                    JsonValue::Text(text) => {
                        texts.push(text.clone());
                    },
                    _ => {
                        return None;
                    },
                }
                i += 1;
            }
            assert(texts.deep_view() =~= texts_of_json(JsonModel::List(all))->0);
            Some(texts)
        },
        Some(_) => None,
        None => {
            assert(texts.deep_view() =~= Seq::<Seq<char>>::empty());
            Some(texts)
        },
    }
}

fn read_coordinates(value: &JsonValue) -> (r: Option<Coordinates>)
    ensures
        r == coordinates_of_json(value.deep_view()),
{
    let names: Vec<&'static str> = vec!["column", "row"];
    assert(names.deep_view() =~= coordinates_names());
    if !can_be_closed_record(value, &names) {
        return None;
    }
    let column = read_i32(find_member(value, "column", 0))?;
    let row = read_i32(find_member(value, "row", 1))?;
    Some(Coordinates { column, row })
}

fn read_format(value: &JsonValue) -> (r: Option<ImageFormat>)
    ensures
        r.deep_view() == format_of_json(value.deep_view()),
{
    let names: Vec<&'static str> = vec![
        "width",
        "height",
        "format",
        "rotation",
        "flipX",
        "flipY",
        "formatOptions",
    ];
    assert(names.deep_view() =~= format_names());
    if !can_be_closed_record(value, &names) {
        return None;
    }
    let width = read_u32(find_member(value, "width", 0))?;
    let height = read_u32(find_member(value, "height", 1))?;
    let format = read_text(find_member(value, "format", 2))?;
    let rotation = read_rotation(find_member(value, "rotation", 3))?;
    let flip_x = read_flag(find_member(value, "flipX", 4))?;
    let flip_y = read_flag(find_member(value, "flipY", 5))?;
    let format_options = read_options(find_member(value, "formatOptions", 6))?;
    Some(ImageFormat { width, height, format, rotation, flip_x, flip_y, format_options })
}

fn read_slot(value: &JsonValue) -> (r: Option<Slot>)
    ensures
        r.deep_view() == slot_of_json(value.deep_view()),
{
    let names: Vec<&'static str> = vec![
        "id",
        "coordinates",
        "imageFormat",
        "slotType",
        "gestures",
    ];
    assert(names.deep_view() =~= slot_names());
    if !can_be_closed_record(value, &names) {
        return None;
    }
    let id = read_text(find_member(value, "id", 0))?;
    let coordinates = read_coordinates(find_member(value, "coordinates", 1)?)?;
    let image_format = match find_member(value, "imageFormat", 2) {
        None => match value {
            JsonValue::Object(_) => None,
            _ => return None,
        },
        Some(JsonValue::Null) => None,
        Some(format) => Some(read_format(format)?),
    };
    let slot_type = read_text(find_member(value, "slotType", 3))?;
    let gestures = read_gestures(find_member(value, "gestures", 4))?;
    Some(Slot { id, coordinates, image_format, slot_type, gestures })
}

fn read_slots(value: Option<&JsonValue>) -> (r: Option<Vec<Slot>>)
    ensures
        r.deep_view() == slots_of_json(value.deep_view()),
{
    match value {
        Some(JsonValue::List(list)) => {
            let ghost all = list.deep_view();
            proof {
                lemma_list(*list);
            }
            let mut slots: Vec<Slot> = Vec::new();
            let n: usize = list.len();
            let mut i: usize = 0;
            while i < n
                invariant
                    i <= n == list@.len(),
                    all == list.deep_view(),
                    slots@.len() == i,
                    forall|k: int|
                        0 <= k < i ==> slot_of_json(#[trigger] all[k]) == Some(
                            slots@[k].deep_view(),
                        ),
                    value.deep_view() == Some(JsonModel::List(all)),
                decreases n - i,
            {
                assert(all[i as int] == list@[i as int].deep_view());
                match read_slot(&list[i]) {
                    Some(slot) => {
                        slots.push(slot);
                    },
                    None => {
                        return None;
                    },
                }
                i += 1;
            }
            assert(slots.deep_view() =~= slots_of_json(Some(JsonModel::List(all)))->0);
            Some(slots)
        },
        _ => None,
    }
}

fn read_device(value: &JsonValue) -> (r: Option<DeviceInfo>)
    ensures
        r.deep_view() == device_of_json(value.deep_view()),
{
    let names: Vec<&'static str> = vec!["id", "fingerprint", "hid", "slots", "name"];
    assert(names.deep_view() =~= device_names());
    if !can_be_closed_record(value, &names) {
        return None;
    }
    let id = read_text(find_member(value, "id", 0))?;
    let fingerprint = read_text(find_member(value, "fingerprint", 1))?;
    let hid = read_text(find_member(value, "hid", 2))?;
    let slots = read_slots(find_member(value, "slots", 3))?;
    let name = match find_member(value, "name", 4) {
        None => match value {
            JsonValue::Object(_) => None,
            _ => return None,
        },
        Some(JsonValue::Null) => None,
        Some(JsonValue::Text(text)) => Some(text.clone()),
        Some(_) => return None,
    };
    Some(DeviceInfo { id, fingerprint, hid, slots, name })
}

fn read_only_text(value: &JsonValue, name: &str) -> (r: Option<String>)
    ensures
        r.deep_view() == only_text(value.deep_view(), name@),
{
    if can_be_record(value, 1) {
        read_text(find_member(value, name, 0))
    } else {
        None
    }
}

fn read_both_texts(value: &JsonValue, first: &str, second: &str) -> (r: Option<(String, String)>)
    ensures
        r.deep_view() == both_texts(value.deep_view(), first@, second@),
{
    if !can_be_record(value, 2) {
        return None;
    }
    let a = read_text(find_member(value, first, 0))?;
    let b = read_text(find_member(value, second, 1))?;
    Some((a, b))
}

/// What a result of reading is.
pub open spec fn read_model(r: Result<HardwareMessageBody, WireError>) -> Result<
    HardwareMessageBodyModel,
    WireErrorModel,
> {
    match r {
        Ok(body) => Ok(body.deep_view()),
        Err(error) => Err(error.deep_view()),
    }
}

impl HardwareMessageBody {
    /// The type of a message with this body.
    pub fn message_type(&self) -> (r: &'static str)
        ensures
            r@ == type_of(self.deep_view()),
    {
        match self {
            HardwareMessageBody::DeviceConnected { .. } => "deviceConnected",
            HardwareMessageBody::DeviceDisconnected => "deviceDisconnected",
            HardwareMessageBody::KeyDown { .. } => "keyDown",
            HardwareMessageBody::KeyUp { .. } => "keyUp",
            HardwareMessageBody::DialRotate { .. } => "dialRotate",
            HardwareMessageBody::TouchTap { .. } => "touchTap",
            HardwareMessageBody::TouchSwipe { .. } => "touchSwipe",
            HardwareMessageBody::SetImage { .. } => "setImage",
            HardwareMessageBody::ClearSlot { .. } => "clearSlot",
            HardwareMessageBody::SleepScreen => "sleepScreen",
            HardwareMessageBody::WakeScreen => "wakeScreen",
        }
    }

    /// The control that the body is about.
    pub fn control_id(&self) -> (r: Option<&str>)
        ensures
            r.deep_view() == control_of(self.deep_view()),
    {
        match self {
            HardwareMessageBody::KeyDown { key_id } => Some(key_id.as_str()),
            HardwareMessageBody::KeyUp { key_id } => Some(key_id.as_str()),
            HardwareMessageBody::DialRotate { dial_id, .. } => Some(dial_id.as_str()),
            HardwareMessageBody::TouchTap { touch_id } => Some(touch_id.as_str()),
            HardwareMessageBody::TouchSwipe { touch_id, .. } => Some(touch_id.as_str()),
            HardwareMessageBody::SetImage { slot_id, .. } => Some(slot_id.as_str()),
            HardwareMessageBody::ClearSlot { slot_id } => Some(slot_id.as_str()),
            _ => None,
        }
    }

    /// The kind of control that the body is about.
    pub fn control_kind(&self) -> (r: Option<&str>)
        ensures
            r.deep_view() == control_kind_of(self.deep_view()),
    {
        match self {
            HardwareMessageBody::KeyDown { .. } => Some("key"),
            HardwareMessageBody::KeyUp { .. } => Some("key"),
            HardwareMessageBody::DialRotate { .. } => Some("dial"),
            HardwareMessageBody::TouchTap { .. } => Some("touch"),
            HardwareMessageBody::TouchSwipe { .. } => Some("touch"),
            HardwareMessageBody::SetImage { .. } => Some("slot"),
            HardwareMessageBody::ClearSlot { .. } => Some("slot"),
            _ => None,
        }
    }

    /// Whether the body tells of a device.
    pub fn is_input(&self) -> (r: bool)
        ensures
            r == !asks(self.deep_view()),
    {
        matches!(
            self,
            HardwareMessageBody::DeviceConnected { .. }
            | HardwareMessageBody::DeviceDisconnected
            | HardwareMessageBody::KeyDown { .. }
            | HardwareMessageBody::KeyUp { .. }
            | HardwareMessageBody::DialRotate { .. }
            | HardwareMessageBody::TouchTap { .. }
            | HardwareMessageBody::TouchSwipe { .. }
        )
    }

    /// Whether the body asks something of a device.
    pub fn is_command(&self) -> (r: bool)
        ensures
            r == asks(self.deep_view()),
    {
        matches!(
            self,
            HardwareMessageBody::SetImage { .. }
            | HardwareMessageBody::ClearSlot { .. }
            | HardwareMessageBody::SleepScreen
            | HardwareMessageBody::WakeScreen
        )
    }

    /// The body as JSON. Read under its type, it gives the body back.
    pub fn to_value(&self) -> (r: Result<JsonValue, WireError>)
        ensures
            r matches Ok(value) && value.deep_view() == body_json(self.deep_view()) && body_of(
                type_of(self.deep_view()),
                value.deep_view(),
            ) == Ok::<HardwareMessageBodyModel, WireErrorModel>(self.deep_view()),
    {
        let value = match self {
            HardwareMessageBody::DeviceConnected { device } => object_of_one(
                "device",
                device_value(device),
            ),
            HardwareMessageBody::KeyDown { key_id } => object_of_one("keyId", text_json(key_id)),
            HardwareMessageBody::KeyUp { key_id } => object_of_one("keyId", text_json(key_id)),
            HardwareMessageBody::DialRotate { dial_id, direction } => object_of_two(
                "dialId",
                text_json(dial_id),
                "direction",
                text_json(direction),
            ),
            HardwareMessageBody::TouchTap { touch_id } => object_of_one(
                "touchId",
                text_json(touch_id),
            ),
            HardwareMessageBody::TouchSwipe { touch_id, direction } => object_of_two(
                "direction",
                text_json(direction),
                "touchId",
                text_json(touch_id),
            ),
            HardwareMessageBody::SetImage { slot_id, image } => object_of_two(
                "image",
                JsonValue::Text(encode_base64_padded(image.as_slice())),
                "slotId",
                text_json(slot_id),
            ),
            HardwareMessageBody::ClearSlot { slot_id } => object_of_one(
                "slotId",
                text_json(slot_id),
            ),
            _ => {
                let fields: Vec<(String, JsonValue)> = Vec::new();
                proof {
                    lemma_object(fields);
                    assert(fields.deep_view() =~= Seq::<(Seq<char>, JsonModel)>::empty());
                }
                JsonValue::Object(fields)
            },
        };
        proof {
            bodies_read_back(self.deep_view());
        }
        Ok(value)
    }

    /// What the body of a message of the type says.
    pub fn from_message(message_type: &str, body: &JsonValue) -> (r: Result<Self, WireError>)
        ensures
            read_model(r) == body_of(message_type@, body.deep_view()),
    {
        let read = if same_text(message_type, "deviceConnected") {
            match find_member(body, "device", 0) {
                Some(value) => if can_be_record(body, 1) {
                    match read_device(value) {
                        Some(device) => Some(HardwareMessageBody::DeviceConnected { device }),
                        None => None,
                    }
                } else {
                    None
                },
                None => None,
            }
        } else if same_text(message_type, "deviceDisconnected") {
            Some(HardwareMessageBody::DeviceDisconnected)
        } else if same_text(message_type, "keyDown") {
            match read_only_text(body, "keyId") {
                Some(key_id) => Some(HardwareMessageBody::KeyDown { key_id }),
                None => None,
            }
        } else if same_text(message_type, "keyUp") {
            match read_only_text(body, "keyId") {
                Some(key_id) => Some(HardwareMessageBody::KeyUp { key_id }),
                None => None,
            }
        } else if same_text(message_type, "dialRotate") {
            match read_both_texts(body, "dialId", "direction") {
                Some((dial_id, direction)) => Some(
                    HardwareMessageBody::DialRotate { dial_id, direction },
                ),
                None => None,
            }
        } else if same_text(message_type, "touchTap") {
            match read_only_text(body, "touchId") {
                Some(touch_id) => Some(HardwareMessageBody::TouchTap { touch_id }),
                None => None,
            }
        } else if same_text(message_type, "touchSwipe") {
            match read_both_texts(body, "touchId", "direction") {
                Some((touch_id, direction)) => Some(
                    HardwareMessageBody::TouchSwipe { touch_id, direction },
                ),
                None => None,
            }
        } else if same_text(message_type, "setImage") {
            match read_both_texts(body, "slotId", "image") {
                Some((slot_id, text)) => match decode_base64_padded(text.as_str()) {
                    Some(image) => Some(HardwareMessageBody::SetImage { slot_id, image }),
                    None => None,
                },
                None => None,
            }
        } else if same_text(message_type, "clearSlot") {
            match read_only_text(body, "slotId") {
                Some(slot_id) => Some(HardwareMessageBody::ClearSlot { slot_id }),
                None => None,
            }
        } else if same_text(message_type, "sleepScreen") {
            Some(HardwareMessageBody::SleepScreen)
        } else if same_text(message_type, "wakeScreen") {
            Some(HardwareMessageBody::WakeScreen)
        } else {
            return Err(WireError::UnknownType { message_type: message_type.to_owned() });
        };
        match read {
            Some(body) => Ok(body),
            None => Err(WireError::InvalidBody),
        }
    }
}

// ---------------------------------------------------------------------------------------------
// Envelopes
// ---------------------------------------------------------------------------------------------

/// A message of a lane.
#[derive(Debug)]
pub struct DeckrMessage {
    pub message_id: String,
    pub protocol_version: String,
    pub schema_version: String,
    pub lane: String,
    pub message_type: String,
    pub sender: String,
    pub recipient: MessageTarget,
    pub subject: EntitySubject,
    pub created_at: String,
    pub expires_at: Option<String>,
    pub ttl_ms: Option<u64>,
    pub in_reply_to: Option<String>,
    pub causation_id: Option<String>,
    pub trace: Option<JsonValue>,
    pub body: JsonValue,
}

/// What a message is.
pub struct DeckrMessageModel {
    pub message_id: Seq<char>,
    pub protocol_version: Seq<char>,
    pub schema_version: Seq<char>,
    pub lane: Seq<char>,
    pub message_type: Seq<char>,
    pub sender: Seq<char>,
    pub recipient: MessageTargetModel,
    pub subject: EntitySubjectModel,
    pub created_at: Seq<char>,
    pub expires_at: Option<Seq<char>>,
    pub ttl_ms: Option<u64>,
    pub in_reply_to: Option<Seq<char>>,
    pub causation_id: Option<Seq<char>>,
    pub trace: Option<JsonModel>,
    pub body: JsonModel,
}

impl DeepView for DeckrMessage {
    type V = DeckrMessageModel;

    open spec fn deep_view(&self) -> DeckrMessageModel {
        DeckrMessageModel {
            message_id: self.message_id@,
            protocol_version: self.protocol_version@,
            schema_version: self.schema_version@,
            lane: self.lane@,
            message_type: self.message_type@,
            sender: self.sender@,
            recipient: self.recipient.deep_view(),
            subject: self.subject.deep_view(),
            created_at: self.created_at@,
            expires_at: self.expires_at.deep_view(),
            ttl_ms: self.ttl_ms,
            in_reply_to: self.in_reply_to.deep_view(),
            causation_id: self.causation_id.deep_view(),
            trace: self.trace.deep_view(),
            body: self.body.deep_view(),
        }
    }
}

/// A message of the hardware lane about a device.
pub open spec fn hardware_message(
    message_id: Seq<char>,
    created_at: Seq<char>,
    sender: Seq<char>,
    recipient: MessageTargetModel,
    manager_id: Seq<char>,
    device_id: Seq<char>,
    body: HardwareMessageBodyModel,
) -> DeckrMessageModel {
    DeckrMessageModel {
        message_id,
        protocol_version: DECKR_PROTOCOL_VERSION@,
        schema_version: SCHEMA_VERSION@,
        lane: HARDWARE_MESSAGES_LANE@,
        message_type: type_of(body),
        sender,
        recipient,
        subject: hardware_subject(manager_id, device_id, control_of(body), control_kind_of(body)),
        created_at,
        expires_at: None,
        ttl_ms: None,
        in_reply_to: None,
        causation_id: None,
        trace: None,
        body: body_json(body),
    }
}

/// Whether the result is the message, with an id and a time of its own, and the body can be read
/// back from it.
pub open spec fn is_new_message(
    r: Result<DeckrMessage, WireError>,
    sender: Seq<char>,
    recipient: MessageTargetModel,
    manager_id: Seq<char>,
    device_id: Seq<char>,
    body: HardwareMessageBodyModel,
) -> bool {
    &&& r matches Ok(message)
    &&& message.deep_view() == hardware_message(
        message.message_id@,
        message.created_at@,
        sender,
        recipient,
        manager_id,
        device_id,
        body,
    )
    &&& body_of(message.message_type@, message.body.deep_view()) == Ok::<
        HardwareMessageBodyModel,
        WireErrorModel,
    >(body)
}

/// Whether the text names an instant that the clock can show. Until the end of 9999 its millisecond
/// can be read back.
pub open spec fn is_millis_timestamp(text: Seq<char>) -> bool {
    &&& millis_timestamp_shape(text)
    &&& exists|at: (i64, u32)|
        {
            &&& clock_instant(at)
            &&& text == #[trigger] instant_millis_text(at.0, at.1)
            &&& at.0 <= LAST_PLAIN_SECOND ==> rfc3339_instant(text) == Some(
                (at.0, (at.1 - at.1 % 1_000_000) as u32),
            )
        }
}

/// Whether the result is a message with an id of its own that was made at the present time.
pub open spec fn is_made_now(r: Result<DeckrMessage, WireError>) -> bool {
    &&& r matches Ok(message)
    &&& uuid_shape(message.message_id@)
    &&& is_millis_timestamp(message.created_at@)
}

/// An instant, seconds since 1970 and nanoseconds in the second, as a text to the millisecond. From
/// 1970 to 9999 and without leap seconds, the millisecond can be read back from it.
pub fn created_at(at: (i64, u32)) -> (r: String)
    requires
        valid_instant(at.0, at.1),
    ensures
        r@ == instant_millis_text(at.0, at.1),
        millis_timestamp_shape(r@),
        0 <= at.0 <= LAST_PLAIN_SECOND && at.1 < 1_000_000_000 ==> rfc3339_instant(r@) == Some(
            (at.0, (at.1 - at.1 % 1_000_000) as u32),
        ),
{
    instant_to_millis_text(at.0, at.1)
}

/// All controllers.
pub open spec fn all_controllers() -> MessageTargetModel {
    MessageTargetModel::Broadcast {
        scope: "controllers"@,
        endpoint_family: "controller"@,
        domain: None,
        hop_limit: None,
    }
}

/// An instant is at or before another.
pub open spec fn not_after(a: (i64, u32), b: (i64, u32)) -> bool {
    a.0 < b.0 || (a.0 == b.0 && a.1 <= b.1)
}

/// The earlier of two instants that need not be there.
pub open spec fn earlier(a: Option<(i64, u32)>, b: Option<(i64, u32)>) -> Option<(i64, u32)> {
    match (a, b) {
        (Some(first), Some(second)) => if not_after(first, second) {
            a
        } else {
            b
        },
        (Some(_), None) => a,
        (None, _) => b,
    }
}

/// A lifetime as a signed number of 64 bits.
pub open spec fn signed_millis(ttl_ms: u64) -> i64 {
    if ttl_ms <= i64::MAX {
        ttl_ms as i64
    } else {
        (ttl_ms - 0x1_0000_0000_0000_0000) as i64
    }
}

/// When a message expires: at the time that it states, or when its lifetime is over, whichever comes
/// first. A time that cannot be read does not count.
pub open spec fn expiry(message: DeckrMessageModel) -> Option<(i64, u32)> {
    let stated = match message.expires_at {
        Some(text) => rfc3339_instant(text),
        None => None,
    };
    let outlived = match (message.ttl_ms, rfc3339_instant(message.created_at)) {
        (Some(ttl_ms), Some((seconds, nanos))) => instant_after(
            seconds,
            nanos,
            signed_millis(ttl_ms),
        ),
        _ => None,
    };
    earlier(stated, outlived)
}

/// Whether a message has expired at an instant.
pub open spec fn expired_at(message: DeckrMessageModel, now: (i64, u32)) -> bool {
    match expiry(message) {
        Some(instant) => not_after(instant, now),
        None => false,
    }
}

/// The one lifetime that cannot be counted from a time.
pub const UNCOUNTABLE_TTL_MS: u64 = 0x8000_0000_0000_0000;

/// Whether the lifetime of a message can be counted, or need not be, since the time of the message
/// cannot be read.
pub open spec fn countable(message: DeckrMessageModel) -> bool {
    message.ttl_ms == Some(UNCOUNTABLE_TTL_MS) ==> rfc3339_instant(message.created_at) is None
}

fn is_not_after(a: (i64, u32), b: (i64, u32)) -> (r: bool)
    ensures
        r == not_after(a, b),
{
    a.0 < b.0 || (a.0 == b.0 && a.1 <= b.1)
}

fn to_signed_millis(ttl_ms: u64) -> (r: i64)
    ensures
        r == signed_millis(ttl_ms),
        ttl_ms != UNCOUNTABLE_TTL_MS ==> r != i64::MIN,
{
    if ttl_ms <= i64::MAX as u64 {
        ttl_ms as i64
    } else {
        -((u64::MAX - ttl_ms) as i64) - 1
    }
}

impl DeckrMessage {
    /// A message of a manager to all controllers.
    pub fn hardware_input(manager_id: &str, device_id: &str, body: HardwareMessageBody) -> (r:
        Result<Self, WireError>)
        ensures
            is_new_message(
                r,
                "hardware_manager:"@ + manager_id@,
                all_controllers(),
                manager_id@,
                device_id@,
                body.deep_view(),
            ),
            is_made_now(r),
    {
        Self::hardware(
            joined("hardware_manager:", manager_id),
            MessageTarget::Broadcast {
                scope: "controllers".to_owned(),
                endpoint_family: "controller".to_owned(),
                domain: None,
                hop_limit: None,
            },
            manager_id,
            device_id,
            body,
        )
    }

    /// A message of a manager to one controller.
    pub fn hardware_input_to(
        manager_id: &str,
        device_id: &str,
        controller_endpoint: &str,
        body: HardwareMessageBody,
    ) -> (r: Result<Self, WireError>)
        ensures
            is_new_message(
                r,
                "hardware_manager:"@ + manager_id@,
                MessageTargetModel::Endpoint { endpoint: controller_endpoint@ },
                manager_id@,
                device_id@,
                body.deep_view(),
            ),
            is_made_now(r),
    {
        Self::hardware(
            joined("hardware_manager:", manager_id),
            MessageTarget::Endpoint { endpoint: controller_endpoint.to_owned() },
            manager_id,
            device_id,
            body,
        )
    }

    /// A message of a controller to a manager.
    pub fn hardware_command(
        controller_id: &str,
        manager_id: &str,
        device_id: &str,
        body: HardwareMessageBody,
    ) -> (r: Result<Self, WireError>)
        ensures
            is_new_message(
                r,
                "controller:"@ + controller_id@,
                MessageTargetModel::Endpoint { endpoint: "hardware_manager:"@ + manager_id@ },
                manager_id@,
                device_id@,
                body.deep_view(),
            ),
            is_made_now(r),
    {
        Self::hardware(
            joined("controller:", controller_id),
            MessageTarget::Endpoint { endpoint: joined("hardware_manager:", manager_id) },
            manager_id,
            device_id,
            body,
        )
    }

    fn hardware(
        sender: String,
        recipient: MessageTarget,
        manager_id: &str,
        device_id: &str,
        body: HardwareMessageBody,
    ) -> (r: Result<Self, WireError>)
        ensures
            is_new_message(
                r,
                sender@,
                recipient.deep_view(),
                manager_id@,
                device_id@,
                body.deep_view(),
            ),
            is_made_now(r),
    {
        let at = now();
        Self::hardware_at(
            new_uuid_text(),
            created_at(at),
            sender,
            recipient,
            manager_id,
            device_id,
            body,
        )
    }

    /// A message about a device, with a given id and time.
    pub fn hardware_at(
        message_id: String,
        created_at: String,
        sender: String,
        recipient: MessageTarget,
        manager_id: &str,
        device_id: &str,
        body: HardwareMessageBody,
    ) -> (r: Result<Self, WireError>)
        ensures
            is_new_message(
                r,
                sender@,
                recipient.deep_view(),
                manager_id@,
                device_id@,
                body.deep_view(),
            ),
            r matches Ok(message) && message.message_id == message_id && message.created_at
                == created_at,
    {
        let value = body.to_value()?;
        let subject = EntitySubject::hardware(
            manager_id,
            device_id,
            body.control_id(),
            body.control_kind(),
        );
        Ok(
            DeckrMessage {
                message_id,
                protocol_version: DECKR_PROTOCOL_VERSION.to_owned(),
                schema_version: SCHEMA_VERSION.to_owned(),
                lane: HARDWARE_MESSAGES_LANE.to_owned(),
                message_type: body.message_type().to_owned(),
                sender,
                recipient,
                subject,
                created_at,
                expires_at: None,
                ttl_ms: None,
                in_reply_to: None,
                causation_id: None,
                trace: None,
                body: value,
            },
        )
    }

    /// What the message says.
    pub fn hardware_body(&self) -> (r: Result<HardwareMessageBody, WireError>)
        ensures
            read_model(r) == body_of(self.message_type@, self.body.deep_view()),
    {
        HardwareMessageBody::from_message(self.message_type.as_str(), &self.body)
    }

    /// The endpoint that the message goes to, if it goes to one.
    pub fn recipient_endpoint(&self) -> (r: Option<&str>)
        ensures
            r.deep_view() == match self.recipient.deep_view() {
                MessageTargetModel::Endpoint { endpoint } => Some(endpoint),
                _ => None,
            },
    {
        match &self.recipient {
            MessageTarget::Endpoint { endpoint } => Some(endpoint.as_str()),
            MessageTarget::Broadcast { .. } => None,
        }
    }

    /// Whether the message has expired by now.
    pub fn is_expired(&self) -> (r: bool)
        requires
            countable(self.deep_view()),
        ensures
            exists|instant: (i64, u32)|
                clock_instant(instant) && r == #[trigger] expired_at(self.deep_view(), instant),
            expiry(self.deep_view()) is None ==> !r,
            expiry(self.deep_view()) matches Some(instant) ==> instant.0 < 0 ==> r,
    {
        let instant = now();
        let expired = self.is_expired_at(instant);
        assert(expired == expired_at(self.deep_view(), instant));
        expired
    }

    /// Whether the message has expired at an instant: seconds since 1970 and nanoseconds in the
    /// second.
    pub fn is_expired_at(&self, now: (i64, u32)) -> (r: bool)
        requires
            countable(self.deep_view()),
        ensures
            r == expired_at(self.deep_view(), now),
    {
        let stated = match &self.expires_at {
            Some(text) => parse_rfc3339(text.as_str()),
            None => None,
        };
        let outlived = match self.ttl_ms {
            Some(ttl_ms) => match parse_rfc3339(self.created_at.as_str()) {
                Some((seconds, nanos)) => add_millis(seconds, nanos, to_signed_millis(ttl_ms)),
                None => None,
            },
            None => None,
        };
        match (stated, outlived) {
            (Some(first), Some(second)) => is_not_after(first, now) || is_not_after(second, now),
            (Some(instant), None) => is_not_after(instant, now),
            (None, Some(instant)) => is_not_after(instant, now),
            (None, None) => false,
        }
    }

    /// Whether the message has expired by now, or nothing where its lifetime cannot be counted.
    pub fn checked_is_expired(&self) -> (r: Option<bool>)
        ensures
            r is Some <==> countable(self.deep_view()),
            r matches Some(expired) ==> exists|instant: (i64, u32)|
                clock_instant(instant) && expired == #[trigger] expired_at(
                    self.deep_view(),
                    instant,
                ),
            r == Some(true) ==> expiry(self.deep_view()) is Some,
            r == Some(false) ==> (expiry(self.deep_view()) matches Some(instant) ==> instant.0
                >= 0),
    {
        if let Some(ttl_ms) = self.ttl_ms {
            if ttl_ms == UNCOUNTABLE_TTL_MS && parse_rfc3339(self.created_at.as_str()).is_some() {
                return None;
            }
        }
        Some(self.is_expired())
    }
}

/// A message that has expired stays expired.
pub proof fn expiry_is_for_good(message: DeckrMessageModel, now: (i64, u32), later: (i64, u32))
    requires
        expired_at(message, now),
        not_after(now, later),
    ensures
        expired_at(message, later),
{
}

/// A message without a time to expire at and without a lifetime never expires.
pub proof fn messages_live_on_by_default(message: DeckrMessageModel, now: (i64, u32))
    requires
        message.expires_at is None,
        message.ttl_ms is None,
    ensures
        !expired_at(message, now),
{
}

// ---------------------------------------------------------------------------------------------
// Laws
// ---------------------------------------------------------------------------------------------

/// Whether the value is an object whose field with the name is what is given: a value, or none.
pub open spec fn holds(value: JsonModel, name: Seq<char>, what: Option<JsonModel>) -> bool {
    value is Object && field_of(value->Object_0, name) == what
}

/// How many fields an object has.
pub open spec fn width_of(value: JsonModel) -> int {
    value->Object_0.len() as int
}

/// The value of a whole number that can be negative.
pub open spec fn number_value(number: int) -> JsonModel {
    if number < 0 {
        JsonModel::Negative(number as i64)
    } else {
        JsonModel::Unsigned(number as u64)
    }
}

/// What is written of an image format, field by field.
pub proof fn formats_are_written_by_field(format: ImageFormatModel)
    ensures
        ({
            let value = format_json(format);
            &&& width_of(value) == 7
            &&& holds(value, "width"@, Some(JsonModel::Unsigned(format.width as u64)))
            &&& holds(value, "height"@, Some(JsonModel::Unsigned(format.height as u64)))
            &&& holds(value, "format"@, Some(JsonModel::Text(format.format)))
            &&& holds(value, "rotation"@, Some(number_value(format.rotation as int)))
            &&& holds(value, "flipX"@, Some(JsonModel::Bool(format.flip_x)))
            &&& holds(value, "flipY"@, Some(JsonModel::Bool(format.flip_y)))
            &&& holds(value, "formatOptions"@, Some(JsonModel::Object(format.format_options)))
        }),
{
    reveal_strlit("flipX");
    reveal_strlit("flipY");
    reveal_strlit("format");
    reveal_strlit("formatOptions");
    reveal_strlit("height");
    reveal_strlit("rotation");
    reveal_strlit("width");
    assert("flipX"@.len() == 5 && "flipY"@.len() == 5 && "format"@.len() == 6
        && "formatOptions"@.len() == 13 && "height"@.len() == 6 && "rotation"@.len() == 8
        && "width"@.len() == 5);
    assert("flipX"@[4] != "flipY"@[4]);
    assert("flipX"@[0] != "width"@[0] && "flipY"@[0] != "width"@[0]);
    assert("format"@[0] != "height"@[0]);
    let fields = format_json(format)->Object_0;
    lemma_fields(fields);
    assert(fields[0].0 == "flipX"@ && fields[1].0 == "flipY"@ && fields[2].0 == "format"@
        && fields[3].0 == "formatOptions"@ && fields[4].0 == "height"@ && fields[5].0
        == "rotation"@ && fields[6].0 == "width"@);
}

/// What is written of a slot, field by field.
pub proof fn slots_are_written_by_field(slot: SlotModel)
    ensures
        ({
            let value = slot_json(slot);
            &&& width_of(value) == if slot.image_format is Some {
                5int
            } else {
                4
            }
            &&& holds(value, "id"@, Some(JsonModel::Text(slot.id)))
            &&& holds(value, "slotType"@, Some(JsonModel::Text(slot.slot_type)))
            &&& field_of(value->Object_0, "coordinates"@) matches Some(cell)
            &&& width_of(cell) == 2
            &&& holds(cell, "column"@, Some(number_value(slot.coordinates.column as int)))
            &&& holds(cell, "row"@, Some(number_value(slot.coordinates.row as int)))
            &&& holds(
                value,
                "imageFormat"@,
                match slot.image_format {
                    Some(format) => Some(format_json(format)),
                    None => None,
                },
            )
            &&& field_of(value->Object_0, "gestures"@) matches Some(JsonModel::List(list))
            &&& list.len() == slot.gestures.len()
            &&& forall|i: int|
                0 <= i < list.len() ==> #[trigger] list[i] == JsonModel::Text(slot.gestures[i])
        }),
{
    reveal_strlit("coordinates");
    reveal_strlit("gestures");
    reveal_strlit("id");
    reveal_strlit("imageFormat");
    reveal_strlit("slotType");
    assert("coordinates"@.len() == 11 && "imageFormat"@.len() == 11 && "id"@.len() == 2
        && "gestures"@.len() == 8 && "slotType"@.len() == 8);
    assert("coordinates"@[0] != "imageFormat"@[0]);
    assert("gestures"@[0] != "slotType"@[0]);
    let fields = slot_json(slot)->Object_0;
    assert(fields[0].0 == "coordinates"@ && fields[1].0 == "gestures"@ && fields[2].0 == "id"@);
    if slot.image_format is Some {
        assert(fields.len() == 5);
        assert(fields[3].0 == "imageFormat"@ && fields[4].0 == "slotType"@);
    } else {
        assert(fields.len() == 4);
        assert(fields[3].0 == "slotType"@);
    }
    lemma_fields(fields);
    reveal_strlit("column");
    reveal_strlit("row");
    assert("column"@[0] != "row"@[0]);
    let cell = coordinates_json(slot.coordinates)->Object_0;
    lemma_fields(cell);
    assert(cell[0].0 == "column"@ && cell[1].0 == "row"@);
}

/// What is written of a device, field by field, with every slot in its order.
pub proof fn devices_are_written_by_field(device: DeviceInfoModel)
    ensures
        ({
            let value = device_json(device);
            &&& width_of(value) == if device.name is Some {
                5int
            } else {
                4
            }
            &&& holds(value, "id"@, Some(JsonModel::Text(device.id)))
            &&& holds(value, "fingerprint"@, Some(JsonModel::Text(device.fingerprint)))
            &&& holds(value, "hid"@, Some(JsonModel::Text(device.hid)))
            &&& holds(
                value,
                "name"@,
                match device.name {
                    Some(name) => Some(JsonModel::Text(name)),
                    None => None,
                },
            )
            &&& field_of(value->Object_0, "slots"@) matches Some(JsonModel::List(list))
            &&& list.len() == device.slots.len()
            &&& forall|i: int|
                0 <= i < list.len() ==> #[trigger] list[i] == slot_json(device.slots[i])
        }),
{
    reveal_strlit("fingerprint");
    reveal_strlit("hid");
    reveal_strlit("id");
    reveal_strlit("name");
    reveal_strlit("slots");
    assert("fingerprint"@.len() == 11 && "hid"@.len() == 3 && "id"@.len() == 2 && "name"@.len() == 4
        && "slots"@.len() == 5);
    let fields = device_json(device)->Object_0;
    assert(fields[0].0 == "fingerprint"@ && fields[1].0 == "hid"@ && fields[2].0 == "id"@);
    if device.name is Some {
        assert(fields.len() == 5);
        assert(fields[3].0 == "name"@ && fields[4].0 == "slots"@);
    } else {
        assert(fields.len() == 4);
        assert(fields[3].0 == "slots"@);
    }
    lemma_fields(fields);
}

/// The type of each body, and what is written of it, field by field.
pub proof fn bodies_are_written_by_field(body: HardwareMessageBodyModel)
    ensures
        ({
            let (kind, value) = (type_of(body), body_json(body));
            &&& value is Object
            &&& match body {
                HardwareMessageBodyModel::DeviceConnected { device } => kind == "deviceConnected"@
                    && width_of(value) == 1 && holds(value, "device"@, Some(device_json(device))),
                HardwareMessageBodyModel::DeviceDisconnected => kind == "deviceDisconnected"@
                    && width_of(value) == 0,
                HardwareMessageBodyModel::KeyDown { key_id } => kind == "keyDown"@ && width_of(
                    value,
                ) == 1 && holds(value, "keyId"@, Some(JsonModel::Text(key_id))),
                HardwareMessageBodyModel::KeyUp { key_id } => kind == "keyUp"@ && width_of(value)
                    == 1 && holds(value, "keyId"@, Some(JsonModel::Text(key_id))),
                HardwareMessageBodyModel::DialRotate { dial_id, direction } => kind
                    == "dialRotate"@ && width_of(value) == 2 && holds(
                    value,
                    "dialId"@,
                    Some(JsonModel::Text(dial_id)),
                ) && holds(value, "direction"@, Some(JsonModel::Text(direction))),
                HardwareMessageBodyModel::TouchTap { touch_id } => kind == "touchTap"@ && width_of(
                    value,
                ) == 1 && holds(value, "touchId"@, Some(JsonModel::Text(touch_id))),
                HardwareMessageBodyModel::TouchSwipe { touch_id, direction } => kind
                    == "touchSwipe"@ && width_of(value) == 2 && holds(
                    value,
                    "touchId"@,
                    Some(JsonModel::Text(touch_id)),
                ) && holds(value, "direction"@, Some(JsonModel::Text(direction))),
                HardwareMessageBodyModel::SetImage { slot_id, image } => kind == "setImage"@
                    && width_of(value) == 2 && holds(
                    value,
                    "slotId"@,
                    Some(JsonModel::Text(slot_id)),
                ) && holds(value, "image"@, Some(JsonModel::Text(base64_padded(image)))),
                HardwareMessageBodyModel::ClearSlot { slot_id } => kind == "clearSlot"@
                    && width_of(value) == 1 && holds(
                    value,
                    "slotId"@,
                    Some(JsonModel::Text(slot_id)),
                ),
                HardwareMessageBodyModel::SleepScreen => kind == "sleepScreen"@ && width_of(value)
                    == 0,
                HardwareMessageBodyModel::WakeScreen => kind == "wakeScreen"@ && width_of(value)
                    == 0,
            }
        }),
{
    reveal_strlit("dialId");
    reveal_strlit("direction");
    reveal_strlit("touchId");
    reveal_strlit("image");
    reveal_strlit("slotId");
    assert("dialId"@.len() == 6 && "direction"@.len() == 9 && "touchId"@.len() == 7
        && "image"@.len() == 5 && "slotId"@.len() == 6);
    let fields = body_json(body)->Object_0;
    lemma_fields(fields);
    if fields.len() > 0 {
        assert(field_of(fields, fields[0].0) == Some(fields[0].1));
    }
    if fields.len() > 1 {
        assert(field_of(fields, fields[1].0) == Some(fields[1].1));
    }
}

/// What a body that could be read from an object says: what the object's fields say.
pub proof fn bodies_are_read_by_field(
    message_type: Seq<char>,
    fields: Seq<(Seq<char>, JsonModel)>,
    body: HardwareMessageBodyModel,
)
    requires
        body_of(message_type, JsonModel::Object(fields)) == Ok::<
            HardwareMessageBodyModel,
            WireErrorModel,
        >(body),
    ensures
        ({
            let value = JsonModel::Object(fields);
            match body {
                HardwareMessageBodyModel::DeviceConnected { device } => message_type
                    == "deviceConnected"@ && (field_of(fields, "device"@) matches Some(told)
                    && device_of_json(told) == Some(device)),
                HardwareMessageBodyModel::DeviceDisconnected => message_type
                    == "deviceDisconnected"@,
                HardwareMessageBodyModel::KeyDown { key_id } => message_type == "keyDown"@ && holds(
                    value,
                    "keyId"@,
                    Some(JsonModel::Text(key_id)),
                ),
                HardwareMessageBodyModel::KeyUp { key_id } => message_type == "keyUp"@ && holds(
                    value,
                    "keyId"@,
                    Some(JsonModel::Text(key_id)),
                ),
                HardwareMessageBodyModel::DialRotate { dial_id, direction } => message_type
                    == "dialRotate"@ && holds(value, "dialId"@, Some(JsonModel::Text(dial_id)))
                    && holds(value, "direction"@, Some(JsonModel::Text(direction))),
                HardwareMessageBodyModel::TouchTap { touch_id } => message_type == "touchTap"@
                    && holds(value, "touchId"@, Some(JsonModel::Text(touch_id))),
                HardwareMessageBodyModel::TouchSwipe { touch_id, direction } => message_type
                    == "touchSwipe"@ && holds(value, "touchId"@, Some(JsonModel::Text(touch_id)))
                    && holds(value, "direction"@, Some(JsonModel::Text(direction))),
                HardwareMessageBodyModel::SetImage { slot_id, image } => message_type
                    == "setImage"@ && holds(value, "slotId"@, Some(JsonModel::Text(slot_id))) && (
                field_of(fields, "image"@) matches Some(JsonModel::Text(text))
                    && base64_padded_bytes(text) == Some(image)),
                HardwareMessageBodyModel::ClearSlot { slot_id } => message_type == "clearSlot"@
                    && holds(value, "slotId"@, Some(JsonModel::Text(slot_id))),
                HardwareMessageBodyModel::SleepScreen => message_type == "sleepScreen"@,
                HardwareMessageBodyModel::WakeScreen => message_type == "wakeScreen"@,
            }
        }),
{
}

/// What a device that could be read from an object is: what the object's fields say, and the object
/// has no other fields; and so for its slots and their formats.
pub proof fn devices_are_read_by_field(
    fields: Seq<(Seq<char>, JsonModel)>,
    device: DeviceInfoModel,
    i: int,
)
    requires
        device_of_json(JsonModel::Object(fields)) == Some(device),
    ensures
        ({
            let value = JsonModel::Object(fields);
            &&& holds(value, "id"@, Some(JsonModel::Text(device.id)))
            &&& holds(value, "fingerprint"@, Some(JsonModel::Text(device.fingerprint)))
            &&& holds(value, "hid"@, Some(JsonModel::Text(device.hid)))
            &&& device.name matches Some(name) ==> holds(value, "name"@, Some(JsonModel::Text(name)))
            &&& device.name is None ==> holds(value, "name"@, None) || holds(
                value,
                "name"@,
                Some(JsonModel::Null),
            )
            &&& field_of(fields, "slots"@) matches Some(JsonModel::List(list))
            &&& list.len() == device.slots.len()
            &&& 0 <= i < list.len() ==> slot_of_json(list[i]) == Some(device.slots[i])
            &&& forall|k: int|
                0 <= k < fields.len() ==> seq![
                    "id"@,
                    "fingerprint"@,
                    "hid"@,
                    "slots"@,
                    "name"@,
                ].contains((#[trigger] fields[k]).0)
        }),
{
}

/// What a slot that could be read from an object is: what the object's fields say.
pub proof fn slots_are_read_by_field(fields: Seq<(Seq<char>, JsonModel)>, slot: SlotModel, i: int)
    requires
        slot_of_json(JsonModel::Object(fields)) == Some(slot),
    ensures
        ({
            let value = JsonModel::Object(fields);
            &&& holds(value, "id"@, Some(JsonModel::Text(slot.id)))
            &&& holds(value, "slotType"@, Some(JsonModel::Text(slot.slot_type)))
            &&& field_of(fields, "coordinates"@) matches Some(cell)
            &&& cell is Object ==> {
                &&& i32_of_json(field_of(cell->Object_0, "column"@)) == Some(
                    slot.coordinates.column,
                )
                &&& i32_of_json(field_of(cell->Object_0, "row"@)) == Some(slot.coordinates.row)
            }
            &&& slot.image_format matches Some(format) ==> (field_of(fields, "imageFormat"@) matches
                Some(told) && format_of_json(told) == Some(format))
            &&& slot.image_format is None ==> holds(value, "imageFormat"@, None) || holds(
                value,
                "imageFormat"@,
                Some(JsonModel::Null),
            )
            &&& field_of(fields, "gestures"@) is None ==> slot.gestures.len() == 0
            &&& field_of(fields, "gestures"@) matches Some(told) ==> {
                &&& told matches JsonModel::List(list)
                &&& list.len() == slot.gestures.len()
                &&& 0 <= i < list.len() ==> list[i] == JsonModel::Text(slot.gestures[i])
            }
        }),
{
}

/// What an image format that could be read from an object is: what the object's fields say. Where
/// nothing is said, nothing is turned or flipped, and there are no options.
pub proof fn formats_are_read_by_field(
    fields: Seq<(Seq<char>, JsonModel)>,
    format: ImageFormatModel,
)
    requires
        format_of_json(JsonModel::Object(fields)) == Some(format),
    ensures
        u32_of_json(field_of(fields, "width"@)) == Some(format.width),
        u32_of_json(field_of(fields, "height"@)) == Some(format.height),
        field_of(fields, "format"@) == Some(JsonModel::Text(format.format)),
        field_of(fields, "rotation"@) is None ==> format.rotation == 0,
        field_of(fields, "rotation"@) is Some ==> i32_of_json(field_of(fields, "rotation"@))
            == Some(format.rotation),
        field_of(fields, "flipX"@) is None ==> !format.flip_x,
        field_of(fields, "flipX"@) matches Some(told) ==> told == JsonModel::Bool(format.flip_x),
        field_of(fields, "flipY"@) is None ==> !format.flip_y,
        field_of(fields, "flipY"@) matches Some(told) ==> told == JsonModel::Bool(format.flip_y),
        field_of(fields, "formatOptions"@) is None ==> format.format_options.len() == 0,
        field_of(fields, "formatOptions"@) matches Some(told) ==> told == JsonModel::Object(
            format.format_options,
        ),
{
}

/// Numbers are read as they are, where they fit.
pub proof fn numbers_are_read_as_they_are(value: JsonModel, small: i32, large: u32)
    ensures
        i32_of_json(Some(value)) == Some(small) <==> {
            ||| value matches JsonModel::Unsigned(told) && told == small
            ||| value matches JsonModel::Negative(told) && told == small
        },
        u32_of_json(Some(value)) == Some(large) <==> {
            ||| value matches JsonModel::Unsigned(told) && told == large
            ||| value matches JsonModel::Negative(told) && told == large
        },
{
}

/// What a message is about: the manager, the device, and the control and its kind where there is one.
pub proof fn subjects_name_device_and_control(
    manager_id: Seq<char>,
    device_id: Seq<char>,
    control_id: Option<Seq<char>>,
    control_kind: Option<Seq<char>>,
    name: Seq<char>,
)
    ensures
        ({
            let subject = hardware_subject(manager_id, device_id, control_id, control_kind);
            let named = looked_up(subject.identifiers, name);
            &&& control_id is Some ==> subject.kind == "hardware_control"@
            &&& control_id is None ==> subject.kind == "hardware_device"@
            &&& name == "managerId"@ ==> named == Some(manager_id)
            &&& name == "deviceId"@ ==> named == Some(device_id)
            &&& name == "controlId"@ ==> named == control_id
            &&& name == "controlKind"@ ==> named == control_kind
            &&& !seq!["managerId"@, "deviceId"@, "controlId"@, "controlKind"@].contains(name)
                ==> named is None
        }),
{
    reveal_strlit("managerId");
    reveal_strlit("deviceId");
    reveal_strlit("controlId");
    reveal_strlit("controlKind");
    assert("managerId"@[0] != "deviceId"@[0]);
    assert("managerId"@[0] != "controlId"@[0]);
    assert("managerId"@[0] != "controlKind"@[0]);
    assert("deviceId"@[0] != "controlId"@[0]);
    assert("deviceId"@[0] != "controlKind"@[0]);
    assert("controlId"@.len() != "controlKind"@.len());
    let names = seq!["managerId"@, "deviceId"@, "controlId"@, "controlKind"@];
    assert(names[0] == "managerId"@ && names[1] == "deviceId"@ && names[2] == "controlId"@
        && names[3] == "controlKind"@);
    assert(names.contains(names[0]) && names.contains(names[1]) && names.contains(names[2])
        && names.contains(names[3]));
}

/// A new message of the hardware lane says who sends it, to whom, what it is about and what it says;
/// it has no time to expire at, no lifetime, and answers nothing.
pub proof fn new_messages_say_who_and_what(
    message_id: Seq<char>,
    created_at: Seq<char>,
    sender: Seq<char>,
    recipient: MessageTargetModel,
    manager_id: Seq<char>,
    device_id: Seq<char>,
    body: HardwareMessageBodyModel,
)
    ensures
        ({
            let message = hardware_message(
                message_id,
                created_at,
                sender,
                recipient,
                manager_id,
                device_id,
                body,
            );
            &&& message.message_id == message_id
            &&& message.created_at == created_at
            &&& message.sender == sender
            &&& message.recipient == recipient
            &&& message.lane == "hardware_messages"@
            &&& message.protocol_version == "1"@
            &&& message.schema_version == "1"@
            &&& message.message_type == type_of(body)
            &&& message.body == body_json(body)
            &&& message.subject == hardware_subject(
                manager_id,
                device_id,
                control_of(body),
                control_kind_of(body),
            )
            &&& message.expires_at is None
            &&& message.ttl_ms is None
            &&& message.in_reply_to is None
            &&& message.causation_id is None
            &&& message.trace is None
        }),
{
}

/// Which control and which kind of control a body is about, and whether it asks or tells.
pub proof fn bodies_are_about_their_control(body: HardwareMessageBodyModel)
    ensures
        match body {
            HardwareMessageBodyModel::KeyDown { key_id } | HardwareMessageBodyModel::KeyUp {
                key_id,
            } => control_of(body) == Some(key_id) && control_kind_of(body) == Some("key"@) && !asks(
                body,
            ),
            HardwareMessageBodyModel::DialRotate { dial_id, .. } => control_of(body) == Some(
                dial_id,
            ) && control_kind_of(body) == Some("dial"@) && !asks(body),
            HardwareMessageBodyModel::TouchTap { touch_id }
            | HardwareMessageBodyModel::TouchSwipe { touch_id, .. } => control_of(body) == Some(
                touch_id,
            ) && control_kind_of(body) == Some("touch"@) && !asks(body),
            HardwareMessageBodyModel::SetImage { slot_id, .. }
            | HardwareMessageBodyModel::ClearSlot { slot_id } => control_of(body) == Some(slot_id)
                && control_kind_of(body) == Some("slot"@) && asks(body),
            HardwareMessageBodyModel::SleepScreen | HardwareMessageBodyModel::WakeScreen =>
                control_of(body) is None && control_kind_of(body) is None && asks(body),
            HardwareMessageBodyModel::DeviceConnected { .. }
            | HardwareMessageBodyModel::DeviceDisconnected => control_of(body) is None
                && control_kind_of(body) is None && !asks(body),
        },
        all_controllers() == (MessageTargetModel::Broadcast {
            scope: "controllers"@,
            endpoint_family: "controller"@,
            domain: None,
            hop_limit: None,
        }),
{
}

/// When a message has expired: once the time that it states has come, or once its lifetime is over
/// since the time at which it was made. A time that cannot be read, or cannot be reached, never comes.
pub proof fn messages_expire_by_time_or_lifetime(message: DeckrMessageModel, now: (i64, u32))
    ensures
        expired_at(message, now) <==> {
            ||| message.expires_at matches Some(text) && (rfc3339_instant(text) matches Some(stated)
                && (stated.0 < now.0 || (stated.0 == now.0 && stated.1 <= now.1)))
            ||| message.ttl_ms matches Some(ttl_ms) && (rfc3339_instant(message.created_at) matches
                Some(made) && (instant_after(made.0, made.1, signed_millis(ttl_ms)) matches Some(
                over,
            ) && (over.0 < now.0 || (over.0 == now.0 && over.1 <= now.1))))
        },
{
}

/// A lifetime counts as it is told, up to the largest signed number; beyond it, it counts as what its
/// bits are as a signed number.
pub proof fn lifetimes_are_counted_in_milliseconds(ttl_ms: u64)
    ensures
        ttl_ms <= i64::MAX ==> signed_millis(ttl_ms) == ttl_ms,
        ttl_ms > i64::MAX ==> signed_millis(ttl_ms) + 0x1_0000_0000_0000_0000 == ttl_ms,
{
}

/// What is told of a value of `ImageFormat`: each field under its own name.
pub proof fn image_format_is_told_by_field(value: ImageFormat)
    ensures
        value.deep_view().width == value.width,
        value.deep_view().height == value.height,
        value.deep_view().format == value.format@,
        value.deep_view().rotation == value.rotation,
        value.deep_view().flip_x == value.flip_x,
        value.deep_view().flip_y == value.flip_y,
        value.deep_view().format_options == value.format_options.deep_view(),
{
}

/// What is told of a value of `Slot`: each field under its own name.
pub proof fn slot_is_told_by_field(value: Slot)
    ensures
        value.deep_view().id == value.id@,
        value.deep_view().coordinates == value.coordinates,
        value.deep_view().image_format == value.image_format.deep_view(),
        value.deep_view().slot_type == value.slot_type@,
        value.deep_view().gestures == value.gestures.deep_view(),
{
}

/// What is told of a value of `DeviceInfo`: each field under its own name.
pub proof fn device_info_is_told_by_field(value: DeviceInfo)
    ensures
        value.deep_view().id == value.id@,
        value.deep_view().fingerprint == value.fingerprint@,
        value.deep_view().hid == value.hid@,
        value.deep_view().slots == value.slots.deep_view(),
        value.deep_view().name == value.name.deep_view(),
{
}

/// What is told of a value of `MessageTarget`: its variant, and each field under its own name.
pub proof fn message_target_is_told_by_field(value: MessageTarget)
    ensures
        match (value, value.deep_view()) {
            (MessageTarget::Endpoint { endpoint }, MessageTargetModel::Endpoint { endpoint: told_endpoint }) => told_endpoint == endpoint@,
            (MessageTarget::Broadcast { scope, endpoint_family, domain, hop_limit }, MessageTargetModel::Broadcast { scope: told_scope, endpoint_family: told_endpoint_family, domain: told_domain, hop_limit: told_hop_limit }) => told_scope == scope@
                && told_endpoint_family == endpoint_family@
                && told_domain == domain.deep_view()
                && told_hop_limit == hop_limit,
            _ => false,
        },
{
}

/// What is told of a value of `EntitySubject`: each field under its own name.
pub proof fn entity_subject_is_told_by_field(value: EntitySubject)
    ensures
        value.deep_view().kind == value.kind@,
        value.deep_view().identifiers == value.identifiers.deep_view(),
{
}

/// What is told of a value of `HardwareMessageBody`: its variant, and each field under its own name.
pub proof fn hardware_message_body_is_told_by_field(value: HardwareMessageBody)
    ensures
        match (value, value.deep_view()) {
            (HardwareMessageBody::DeviceConnected { device }, HardwareMessageBodyModel::DeviceConnected { device: told_device }) => told_device == device.deep_view(),
            (HardwareMessageBody::DeviceDisconnected, HardwareMessageBodyModel::DeviceDisconnected) => true,
            (HardwareMessageBody::KeyDown { key_id }, HardwareMessageBodyModel::KeyDown { key_id: told_key_id }) => told_key_id == key_id@,
            (HardwareMessageBody::KeyUp { key_id }, HardwareMessageBodyModel::KeyUp { key_id: told_key_id }) => told_key_id == key_id@,
            (HardwareMessageBody::DialRotate { dial_id, direction }, HardwareMessageBodyModel::DialRotate { dial_id: told_dial_id, direction: told_direction }) => told_dial_id == dial_id@
                && told_direction == direction@,
            (HardwareMessageBody::TouchTap { touch_id }, HardwareMessageBodyModel::TouchTap { touch_id: told_touch_id }) => told_touch_id == touch_id@,
            (HardwareMessageBody::TouchSwipe { touch_id, direction }, HardwareMessageBodyModel::TouchSwipe { touch_id: told_touch_id, direction: told_direction }) => told_touch_id == touch_id@
                && told_direction == direction@,
            (HardwareMessageBody::SetImage { slot_id, image }, HardwareMessageBodyModel::SetImage { slot_id: told_slot_id, image: told_image }) => told_slot_id == slot_id@
                && told_image == image@,
            (HardwareMessageBody::ClearSlot { slot_id }, HardwareMessageBodyModel::ClearSlot { slot_id: told_slot_id }) => told_slot_id == slot_id@,
            (HardwareMessageBody::SleepScreen, HardwareMessageBodyModel::SleepScreen) => true,
            (HardwareMessageBody::WakeScreen, HardwareMessageBodyModel::WakeScreen) => true,
            _ => false,
        },
{
}

/// What is told of a value of `WireError`: its variant, and each field under its own name.
pub proof fn wire_error_is_told_by_field(value: WireError)
    ensures
        match (value, value.deep_view()) {
            (WireError::UnknownType { message_type }, WireErrorModel::UnknownType { message_type: told_message_type }) => told_message_type == message_type@,
            (WireError::InvalidBody, WireErrorModel::InvalidBody) => true,
            _ => false,
        },
{
}

/// What is told of a value of `DeckrMessage`: each field under its own name.
pub proof fn deckr_message_is_told_by_field(value: DeckrMessage)
    ensures
        value.deep_view().message_id == value.message_id@,
        value.deep_view().protocol_version == value.protocol_version@,
        value.deep_view().schema_version == value.schema_version@,
        value.deep_view().lane == value.lane@,
        value.deep_view().message_type == value.message_type@,
        value.deep_view().sender == value.sender@,
        value.deep_view().recipient == value.recipient.deep_view(),
        value.deep_view().subject == value.subject.deep_view(),
        value.deep_view().created_at == value.created_at@,
        value.deep_view().expires_at == value.expires_at.deep_view(),
        value.deep_view().ttl_ms == value.ttl_ms,
        value.deep_view().in_reply_to == value.in_reply_to.deep_view(),
        value.deep_view().causation_id == value.causation_id.deep_view(),
        value.deep_view().trace == value.trace.deep_view(),
        value.deep_view().body == value.body.deep_view(),
{
}

/// The fields of a record that has a value for each of the names, in their order.
pub open spec fn zipped(names: Seq<Seq<char>>, values: Seq<JsonModel>) -> JsonModel {
    JsonModel::Object(Seq::new(names.len(), |i: int| (names[i], values[i])))
}

proof fn lemma_zipped(names: Seq<Seq<char>>, values: Seq<JsonModel>)
    requires
        names.len() == values.len(),
        names.no_duplicates(),
    ensures
        is_closed_record(zipped(names, values), names),
        is_closed_record(JsonModel::List(values), names),
        forall|k: int|
            0 <= k < names.len() ==> member(zipped(names, values), #[trigger] names[k], k)
                == member(JsonModel::List(values), names[k], k),
{
    let fields = zipped(names, values)->Object_0;
    assert(distinct_names(fields));
    lemma_fields(fields);
    assert forall|k: int| 0 <= k < names.len() implies member(
        zipped(names, values),
        #[trigger] names[k],
        k,
    ) == member(JsonModel::List(values), names[k], k) by {
        assert(fields[k].0 == names[k]);
    }
}

/// A record that is written as the list of its members is read as the record with the names of the
/// members, in this order; and a list with more members is none.
pub proof fn records_are_read_by_place(values: Seq<JsonModel>)
    ensures
        values.len() == 2 ==> coordinates_of_json(JsonModel::List(values)) == coordinates_of_json(
            zipped(seq!["column"@, "row"@], values),
        ),
        values.len() > 2 ==> coordinates_of_json(JsonModel::List(values)) is None,
        values.len() == 7 ==> format_of_json(JsonModel::List(values)) == format_of_json(
            zipped(
                seq![
                    "width"@,
                    "height"@,
                    "format"@,
                    "rotation"@,
                    "flipX"@,
                    "flipY"@,
                    "formatOptions"@,
                ],
                values,
            ),
        ),
        values.len() > 7 ==> format_of_json(JsonModel::List(values)) is None,
        values.len() == 5 ==> slot_of_json(JsonModel::List(values)) == slot_of_json(
            zipped(
                seq!["id"@, "coordinates"@, "imageFormat"@, "slotType"@, "gestures"@],
                values,
            ),
        ),
        values.len() > 5 ==> slot_of_json(JsonModel::List(values)) is None,
        values.len() == 5 ==> device_of_json(JsonModel::List(values)) == device_of_json(
            zipped(seq!["id"@, "fingerprint"@, "hid"@, "slots"@, "name"@], values),
        ),
        values.len() > 5 ==> device_of_json(JsonModel::List(values)) is None,
{
    if values.len() == 2 {
        lemma_coordinates_by_place(values);
    }
    if values.len() == 7 {
        lemma_format_by_place(values);
    }
    if values.len() == 5 {
        lemma_slot_by_place(values);
        lemma_device_by_place(values);
    }
}

proof fn lemma_coordinates_by_place(values: Seq<JsonModel>)
    requires
        values.len() == 2,
    ensures
        coordinates_of_json(JsonModel::List(values)) == coordinates_of_json(
            zipped(seq!["column"@, "row"@], values),
        ),
{
    reveal_strlit("column");
    reveal_strlit("row");
    let names = coordinates_names();
    assert(names[0].len() == 6 && names[1].len() == 3);
    lemma_zipped(names, values);
    assert(names =~= seq!["column"@, "row"@]);
    let (a, b) = (zipped(names, values), JsonModel::List(values));
    assert(member(a, names[0], 0) == member(b, names[0], 0));
    assert(member(a, names[1], 1) == member(b, names[1], 1));
}

proof fn lemma_format_by_place(values: Seq<JsonModel>)
    requires
        values.len() == 7,
    ensures
        format_of_json(JsonModel::List(values)) == format_of_json(
            zipped(
                seq![
                    "width"@,
                    "height"@,
                    "format"@,
                    "rotation"@,
                    "flipX"@,
                    "flipY"@,
                    "formatOptions"@,
                ],
                values,
            ),
        ),
{
    reveal_strlit("flipX");
    reveal_strlit("flipY");
    reveal_strlit("format");
    reveal_strlit("formatOptions");
    reveal_strlit("height");
    reveal_strlit("rotation");
    reveal_strlit("width");
    let names = format_names();
    assert(names[0].len() == 5 && names[1].len() == 6 && names[2].len() == 6 && names[3].len() == 8
        && names[4].len() == 5 && names[5].len() == 5 && names[6].len() == 13);
    assert(names[0][0] == 'w' && names[1][0] == 'h' && names[2][0] == 'f' && names[4][4] == 'X'
        && names[5][4] == 'Y' && names[4][0] == 'f' && names[5][0] == 'f');
    assert(names.no_duplicates());
    lemma_zipped(names, values);
    assert(names =~= seq![
        "width"@,
        "height"@,
        "format"@,
        "rotation"@,
        "flipX"@,
        "flipY"@,
        "formatOptions"@,
    ]);
    let (a, b) = (zipped(names, values), JsonModel::List(values));
    assert(forall|k: int|
        0 <= k < 7 ==> member(a, #[trigger] names[k], k) == member(b, names[k], k));
    assert(member(a, names[0], 0) == member(b, names[0], 0));
    assert(member(a, names[1], 1) == member(b, names[1], 1));
    assert(member(a, names[2], 2) == member(b, names[2], 2));
    assert(member(a, names[3], 3) == member(b, names[3], 3));
    assert(member(a, names[4], 4) == member(b, names[4], 4));
    assert(member(a, names[5], 5) == member(b, names[5], 5));
    assert(member(a, names[6], 6) == member(b, names[6], 6));
}

proof fn lemma_slot_by_place(values: Seq<JsonModel>)
    requires
        values.len() == 5,
    ensures
        slot_of_json(JsonModel::List(values)) == slot_of_json(
            zipped(
                seq!["id"@, "coordinates"@, "imageFormat"@, "slotType"@, "gestures"@],
                values,
            ),
        ),
{
    reveal_strlit("coordinates");
    reveal_strlit("gestures");
    reveal_strlit("id");
    reveal_strlit("imageFormat");
    reveal_strlit("slotType");
    let names = slot_names();
    assert(names[0].len() == 2 && names[1].len() == 11 && names[2].len() == 11 && names[3].len()
        == 8 && names[4].len() == 8);
    assert(names[1][0] == 'c' && names[2][0] == 'i' && names[3][0] == 's' && names[4][0] == 'g');
    assert(names.no_duplicates());
    lemma_zipped(names, values);
    assert(names =~= seq!["id"@, "coordinates"@, "imageFormat"@, "slotType"@, "gestures"@]);
    let (a, b) = (zipped(names, values), JsonModel::List(values));
    assert(member(a, names[0], 0) == member(b, names[0], 0));
    assert(member(a, names[1], 1) == member(b, names[1], 1));
    assert(member(a, names[2], 2) == member(b, names[2], 2));
    assert(member(a, names[3], 3) == member(b, names[3], 3));
    assert(member(a, names[4], 4) == member(b, names[4], 4));
}

proof fn lemma_device_by_place(values: Seq<JsonModel>)
    requires
        values.len() == 5,
    ensures
        device_of_json(JsonModel::List(values)) == device_of_json(
            zipped(seq!["id"@, "fingerprint"@, "hid"@, "slots"@, "name"@], values),
        ),
{
    reveal_strlit("fingerprint");
    reveal_strlit("hid");
    reveal_strlit("id");
    reveal_strlit("name");
    reveal_strlit("slots");
    let names = device_names();
    assert(names[0].len() == 2 && names[1].len() == 11 && names[2].len() == 3 && names[3].len() == 5
        && names[4].len() == 4);
    assert(names.no_duplicates());
    lemma_zipped(names, values);
    assert(names =~= seq!["id"@, "fingerprint"@, "hid"@, "slots"@, "name"@]);
    let (a, b) = (zipped(names, values), JsonModel::List(values));
    assert(member(a, names[0], 0) == member(b, names[0], 0));
    assert(member(a, names[1], 1) == member(b, names[1], 1));
    assert(member(a, names[2], 2) == member(b, names[2], 2));
    assert(member(a, names[3], 3) == member(b, names[3], 3));
    assert(member(a, names[4], 4) == member(b, names[4], 4));
}

/// What bodies that are written as lists say: the members in this order.
pub proof fn bodies_are_read_by_place(first: Seq<char>, second: Seq<char>)
    ensures
        ({
            let one = JsonModel::List(seq![JsonModel::Text(first)]);
            let two = JsonModel::List(seq![JsonModel::Text(first), JsonModel::Text(second)]);
            &&& body_of("keyDown"@, one) == Ok::<HardwareMessageBodyModel, WireErrorModel>(
                HardwareMessageBodyModel::KeyDown { key_id: first },
            )
            &&& body_of("keyUp"@, one) == Ok::<HardwareMessageBodyModel, WireErrorModel>(
                HardwareMessageBodyModel::KeyUp { key_id: first },
            )
            &&& body_of("touchTap"@, one) == Ok::<HardwareMessageBodyModel, WireErrorModel>(
                HardwareMessageBodyModel::TouchTap { touch_id: first },
            )
            &&& body_of("clearSlot"@, one) == Ok::<HardwareMessageBodyModel, WireErrorModel>(
                HardwareMessageBodyModel::ClearSlot { slot_id: first },
            )
            &&& body_of("keyDown"@, two) is Err
            &&& body_of("dialRotate"@, two) == Ok::<HardwareMessageBodyModel, WireErrorModel>(
                HardwareMessageBodyModel::DialRotate { dial_id: first, direction: second },
            )
            &&& body_of("touchSwipe"@, two) == Ok::<HardwareMessageBodyModel, WireErrorModel>(
                HardwareMessageBodyModel::TouchSwipe { touch_id: first, direction: second },
            )
            &&& base64_padded_bytes(second) matches Some(image) ==> body_of("setImage"@, two)
                == Ok::<HardwareMessageBodyModel, WireErrorModel>(
                HardwareMessageBodyModel::SetImage { slot_id: first, image },
            )
        }),
{
    lemma_types_differ();
}

/// A body of a known type is read exactly if its fields are there and are texts; bodies that say
/// nothing more than their type are always read, and other types are told.
pub proof fn bodies_need_their_fields(
    message_type: Seq<char>,
    fields: Seq<(Seq<char>, JsonModel)>,
)
    ensures
        ({
            let read = body_of(message_type, JsonModel::Object(fields));
            let text = |name: Seq<char>| field_of(fields, name) matches Some(JsonModel::Text(_));
            &&& message_type == "keyDown"@ || message_type == "keyUp"@ ==> (read is Ok <==> text(
                "keyId"@,
            ))
            &&& message_type == "touchTap"@ ==> (read is Ok <==> text("touchId"@))
            &&& message_type == "clearSlot"@ ==> (read is Ok <==> text("slotId"@))
            &&& message_type == "dialRotate"@ ==> (read is Ok <==> text("dialId"@) && text(
                "direction"@,
            ))
            &&& message_type == "touchSwipe"@ ==> (read is Ok <==> text("touchId"@) && text(
                "direction"@,
            ))
            &&& message_type == "deviceDisconnected"@ || message_type == "sleepScreen"@
                || message_type == "wakeScreen"@ ==> read is Ok
            &&& read matches Err(WireErrorModel::UnknownType { message_type: told }) ==> told
                == message_type && !seq![
                "deviceConnected"@,
                "deviceDisconnected"@,
                "keyDown"@,
                "keyUp"@,
                "dialRotate"@,
                "touchTap"@,
                "touchSwipe"@,
                "setImage"@,
                "clearSlot"@,
                "sleepScreen"@,
                "wakeScreen"@,
            ].contains(message_type)
        }),
{
    lemma_types_differ();
    let known = seq![
        "deviceConnected"@,
        "deviceDisconnected"@,
        "keyDown"@,
        "keyUp"@,
        "dialRotate"@,
        "touchTap"@,
        "touchSwipe"@,
        "setImage"@,
        "clearSlot"@,
        "sleepScreen"@,
        "wakeScreen"@,
    ];
    if known.contains(message_type) {
        let k = choose|k: int| 0 <= k < known.len() && known[k] == message_type;
    }
}

} // verus!
