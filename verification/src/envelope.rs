//! Messages as JSON values.

use vstd::prelude::*;

use crate::json::{
    field_of, lemma_listed, lemma_next_in_order, lemma_object, lemma_settled_list, lemma_settled_object,
    lemma_with_field, list_fields, listed, names_in_order, put_field, settle, settled, with_field,
    JsonModel, JsonValue,
};
use crate::outside::{base64_padded, base64_padded_bytes};
use crate::text::{lemma_text_before, same_text, text_before};
use crate::text_map::{lemma_push_contains, TextMap};
use crate::wire::{
    all_known, bodies_read_back, body_json, body_of, can_be_closed_record, can_be_record,
    coordinates_json, device_json, find_member, format_json, hardware_message, holds, is_closed_record,
    is_record, may_miss, member, optional_text_of_json, read_text, read_u32, slot_json, text_json,
    text_of_json, texts_json, u32_of_json, DeckrMessage, DeckrMessageModel, DeviceInfoModel,
    EntitySubject, EntitySubjectModel, HardwareMessageBodyModel, ImageFormatModel, MessageTarget,
    MessageTargetModel, SlotModel, WireErrorModel,
};

verus! {

/// The names of a message's fields.
pub open spec fn message_names() -> Seq<Seq<char>> {
    seq![
        "messageId"@,
        "protocolVersion"@,
        "schemaVersion"@,
        "lane"@,
        "messageType"@,
        "sender"@,
        "recipient"@,
        "subject"@,
        "createdAt"@,
        "expiresAt"@,
        "ttlMs"@,
        "inReplyTo"@,
        "causationId"@,
        "trace"@,
        "body"@,
    ]
}

/// The names of a subject's fields.
pub open spec fn subject_names() -> Seq<Seq<char>> {
    seq!["kind"@, "identifiers"@]
}

/// The names of the fields of a target that is one endpoint.
pub open spec fn endpoint_names() -> Seq<Seq<char>> {
    seq!["targetType"@, "endpoint"@]
}

/// The names of the fields of a target that is a family of endpoints.
pub open spec fn broadcast_names() -> Seq<Seq<char>> {
    seq!["targetType"@, "scope"@, "endpointFamily"@, "domain"@, "hopLimit"@]
}

// ---------------------------------------------------------------------------------------------
// Writing
// ---------------------------------------------------------------------------------------------

/// The value of a field that holds a text.
pub open spec fn text_field(text: Seq<char>) -> Option<JsonModel> {
    Some(JsonModel::Text(text))
}

/// The value of a field that is left out where there is no text.
pub open spec fn optional_text_field(text: Option<Seq<char>>) -> Option<JsonModel> {
    match text {
        Some(text) => Some(JsonModel::Text(text)),
        None => None,
    }
}

/// The value of a field that is left out where there is no number.
pub open spec fn optional_number_field(number: Option<u64>) -> Option<JsonModel> {
    match number {
        Some(number) => Some(JsonModel::Unsigned(number)),
        None => None,
    }
}

/// A number with more room.
pub open spec fn widened(number: Option<u32>) -> Option<u64> {
    match number {
        Some(number) => Some(number as u64),
        None => None,
    }
}

/// A target as a value.
pub open spec fn target_json(target: MessageTargetModel) -> JsonModel {
    match target {
        MessageTargetModel::Endpoint { endpoint } => JsonModel::Object(
            listed(endpoint_names(), seq![text_field("endpoint"@), text_field(endpoint)]),
        ),
        MessageTargetModel::Broadcast { scope, endpoint_family, domain, hop_limit } =>
            JsonModel::Object(
            listed(
                broadcast_names(),
                seq![
                    text_field("broadcast"@),
                    text_field(scope),
                    text_field(endpoint_family),
                    optional_text_field(domain),
                    optional_number_field(widened(hop_limit)),
                ],
            ),
        ),
    }
}

/// The texts of fields that hold texts, by name. Of fields with one name the last stands.
pub open spec fn texts_in(fields: Seq<(Seq<char>, JsonModel)>) -> Map<Seq<char>, Seq<char>>
    decreases fields.len(),
{
    if fields.len() == 0 {
        Map::empty()
    } else {
        texts_in(fields.drop_last()).insert(fields.last().0, fields.last().1->Text_0)
    }
}

/// Whether every field holds a text.
pub open spec fn all_texts(fields: Seq<(Seq<char>, JsonModel)>) -> bool {
    forall|i: int| 0 <= i < fields.len() ==> (#[trigger] fields[i]).1 is Text
}

/// Whether the fields hold the texts of the map, in the order of their names.
pub open spec fn hold_texts(
    fields: Seq<(Seq<char>, JsonModel)>,
    map: Map<Seq<char>, Seq<char>>,
) -> bool {
    names_in_order(fields) && all_texts(fields) && texts_in(fields) == map
}

/// A subject as a value, with the fields of its identifiers.
pub open spec fn subject_json(
    subject: EntitySubjectModel,
    identifiers: Seq<(Seq<char>, JsonModel)>,
) -> JsonModel {
    JsonModel::Object(
        listed(
            subject_names(),
            seq![text_field(subject.kind), Some(JsonModel::Object(identifiers))],
        ),
    )
}

/// A message as a value, with the fields of its subject's identifiers.
pub open spec fn message_json(
    message: DeckrMessageModel,
    identifiers: Seq<(Seq<char>, JsonModel)>,
) -> JsonModel {
    JsonModel::Object(listed(message_names(), message_values(message, identifiers)))
}

/// The values of a message's fields.
pub open spec fn message_values(
    message: DeckrMessageModel,
    identifiers: Seq<(Seq<char>, JsonModel)>,
) -> Seq<Option<JsonModel>> {
    seq![
        text_field(message.message_id),
        text_field(message.protocol_version),
        text_field(message.schema_version),
        text_field(message.lane),
        text_field(message.message_type),
        text_field(message.sender),
        Some(target_json(message.recipient)),
        Some(subject_json(message.subject, identifiers)),
        text_field(message.created_at),
        optional_text_field(message.expires_at),
        optional_number_field(message.ttl_ms),
        optional_text_field(message.in_reply_to),
        optional_text_field(message.causation_id),
        message.trace,
        Some(message.body),
    ]
}

/// Whether the value is what the message is written as.
pub open spec fn is_message_json(message: DeckrMessageModel, value: JsonModel) -> bool {
    exists|identifiers: Seq<(Seq<char>, JsonModel)>|
        hold_texts(identifiers, message.subject.identifiers) && value == #[trigger] message_json(
            message,
            identifiers,
        )
}

// ---------------------------------------------------------------------------------------------
// Reading
// ---------------------------------------------------------------------------------------------

/// Whether none of the names occurs twice in a record.
pub open spec fn names_once(value: JsonModel, names: Seq<Seq<char>>) -> bool {
    match value {
        JsonModel::Object(fields) => each_once(fields, names),
        _ => true,
    }
}

/// Whether none of the names occurs twice among the fields.
pub open spec fn each_once(fields: Seq<(Seq<char>, JsonModel)>, names: Seq<Seq<char>>) -> bool {
    forall|i: int, j: int|
        0 <= i < j < fields.len() && (#[trigger] fields[i]).0 == (#[trigger] fields[j]).0
            ==> !names.contains(fields[i].0)
}

/// A number, or nothing where it is missing or null.
pub open spec fn optional_u32_of_json(record: JsonModel, value: Option<JsonModel>) -> Option<
    Option<u32>,
> {
    match value {
        None => if may_miss(record) {
            Some(None)
        } else {
            None
        },
        Some(JsonModel::Null) => Some(None),
        Some(value) => match u32_of_json(Some(value)) {
            Some(number) => Some(Some(number)),
            None => None,
        },
    }
}

/// A number, or nothing where it is missing or null.
pub open spec fn optional_u64_of_json(record: JsonModel, value: Option<JsonModel>) -> Option<
    Option<u64>,
> {
    match value {
        None => if may_miss(record) {
            Some(None)
        } else {
            None
        },
        Some(JsonModel::Null) => Some(None),
        Some(JsonModel::Unsigned(number)) => Some(Some(number)),
        Some(JsonModel::Negative(number)) => if number >= 0 {
            Some(Some(number as u64))
        } else {
            None
        },
        Some(_) => None,
    }
}

/// Any value, or nothing where it is missing or null.
pub open spec fn optional_of_json(record: JsonModel, value: Option<JsonModel>) -> Option<
    Option<JsonModel>,
> {
    match value {
        None => if may_miss(record) {
            Some(None)
        } else {
            None
        },
        Some(JsonModel::Null) => Some(None),
        Some(value) => Some(Some(settled(value))),
    }
}

/// The target that a value is, if it is one. What else it holds does not matter.
pub open spec fn target_of_json(value: JsonModel) -> Option<MessageTargetModel> {
    let kind = text_of_json(member(value, "targetType"@, 0));
    if kind == Some("endpoint"@) {
        let endpoint = text_of_json(member(value, "endpoint"@, 1));
        if is_record(value, 2) && names_once(value, endpoint_names()) && endpoint is Some {
            Some(MessageTargetModel::Endpoint { endpoint: endpoint->0 })
        } else {
            None
        }
    } else if kind == Some("broadcast"@) {
        let scope = text_of_json(member(value, "scope"@, 1));
        let endpoint_family = text_of_json(member(value, "endpointFamily"@, 2));
        let domain = optional_text_of_json(value, member(value, "domain"@, 3));
        let hop_limit = optional_u32_of_json(value, member(value, "hopLimit"@, 4));
        if is_record(value, 5) && names_once(value, broadcast_names()) && scope is Some
            && endpoint_family is Some && domain is Some && hop_limit is Some {
            Some(
                MessageTargetModel::Broadcast {
                    scope: scope->0,
                    endpoint_family: endpoint_family->0,
                    domain: domain->0,
                    hop_limit: hop_limit->0,
                },
            )
        } else {
            None
        }
    } else {
        None
    }
}

/// The identifiers that a value holds: none where it is missing.
pub open spec fn identifiers_of_json(value: Option<JsonModel>) -> Option<
    Map<Seq<char>, Seq<char>>,
> {
    match value {
        Some(JsonModel::Object(fields)) => if all_texts(fields) {
            Some(texts_in(fields))
        } else {
            None
        },
        Some(_) => None,
        None => Some(Map::empty()),
    }
}

/// The subject that a value is, if it is one.
pub open spec fn subject_of_json(value: JsonModel) -> Option<EntitySubjectModel> {
    let kind = text_of_json(member(value, "kind"@, 0));
    let identifiers = identifiers_of_json(member(value, "identifiers"@, 1));
    if is_closed_record(value, subject_names()) && names_once(value, subject_names())
        && kind is Some && identifiers is Some {
        Some(EntitySubjectModel { kind: kind->0, identifiers: identifiers->0 })
    } else {
        None
    }
}

/// The message that a value is, if it is one: it holds each field that a message must have, no field
/// twice, and no field that a message does not have.
pub open spec fn message_of(value: JsonModel) -> Option<DeckrMessageModel> {
    let message_id = text_of_json(member(value, "messageId"@, 0));
    let protocol_version = text_of_json(member(value, "protocolVersion"@, 1));
    let schema_version = text_of_json(member(value, "schemaVersion"@, 2));
    let lane = text_of_json(member(value, "lane"@, 3));
    let message_type = text_of_json(member(value, "messageType"@, 4));
    let sender = text_of_json(member(value, "sender"@, 5));
    let recipient = match member(value, "recipient"@, 6) {
        Some(value) => target_of_json(value),
        None => None,
    };
    let subject = match member(value, "subject"@, 7) {
        Some(value) => subject_of_json(value),
        None => None,
    };
    let created_at = text_of_json(member(value, "createdAt"@, 8));
    let expires_at = optional_text_of_json(value, member(value, "expiresAt"@, 9));
    let ttl_ms = optional_u64_of_json(value, member(value, "ttlMs"@, 10));
    let in_reply_to = optional_text_of_json(value, member(value, "inReplyTo"@, 11));
    let causation_id = optional_text_of_json(value, member(value, "causationId"@, 12));
    let trace = optional_of_json(value, member(value, "trace"@, 13));
    let body = member(value, "body"@, 14);
    if is_closed_record(value, message_names()) && names_once(value, message_names()) && message_id
        is Some && protocol_version is Some && schema_version is Some && lane is Some
        && message_type is Some && sender is Some && recipient is Some && subject is Some
        && created_at is Some && expires_at is Some && ttl_ms is Some && in_reply_to is Some
        && causation_id is Some && trace is Some && body is Some {
        Some(
            DeckrMessageModel {
                message_id: message_id->0,
                protocol_version: protocol_version->0,
                schema_version: schema_version->0,
                lane: lane->0,
                message_type: message_type->0,
                sender: sender->0,
                recipient: recipient->0,
                subject: subject->0,
                created_at: created_at->0,
                expires_at: expires_at->0,
                ttl_ms: ttl_ms->0,
                in_reply_to: in_reply_to->0,
                causation_id: causation_id->0,
                trace: trace->0,
                body: settled(body->0),
            },
        )
    } else {
        None
    }
}

// ---------------------------------------------------------------------------------------------
// Laws
// ---------------------------------------------------------------------------------------------

proof fn lemma_message_names()
    ensures
        message_names().no_duplicates(),
{
    reveal_strlit("messageId");
    reveal_strlit("protocolVersion");
    reveal_strlit("schemaVersion");
    reveal_strlit("lane");
    reveal_strlit("messageType");
    reveal_strlit("sender");
    reveal_strlit("recipient");
    reveal_strlit("subject");
    reveal_strlit("createdAt");
    reveal_strlit("expiresAt");
    reveal_strlit("ttlMs");
    reveal_strlit("inReplyTo");
    reveal_strlit("causationId");
    reveal_strlit("trace");
    reveal_strlit("body");
    let names = message_names();
    assert(names[0].len() == 9 && names[1].len() == 15 && names[2].len() == 13 && names[3].len()
        == 4 && names[4].len() == 11 && names[5].len() == 6 && names[6].len() == 9
        && names[7].len() == 7 && names[8].len() == 9 && names[9].len() == 9 && names[10].len()
        == 5 && names[11].len() == 9 && names[12].len() == 11 && names[13].len() == 5
        && names[14].len() == 4);
    assert(names[0][0] == 'm' && names[3][0] == 'l' && names[4][0] == 'm' && names[6][0] == 'r'
        && names[8][0] == 'c' && names[9][0] == 'e' && names[10][1] == 't' && names[11][0] == 'i'
        && names[12][0] == 'c' && names[13][1] == 'r' && names[14][0] == 'b');
}

proof fn lemma_inner_names()
    ensures
        subject_names().no_duplicates(),
        endpoint_names().no_duplicates(),
        broadcast_names().no_duplicates(),
        "endpoint"@ != "broadcast"@,
{
    reveal_strlit("kind");
    reveal_strlit("identifiers");
    reveal_strlit("targetType");
    reveal_strlit("endpoint");
    reveal_strlit("broadcast");
    reveal_strlit("scope");
    reveal_strlit("endpointFamily");
    reveal_strlit("domain");
    reveal_strlit("hopLimit");
    assert("kind"@.len() == 4 && "identifiers"@.len() == 11);
    assert("targetType"@.len() == 10 && "endpoint"@.len() == 8 && "broadcast"@.len() == 9);
    assert("scope"@.len() == 5 && "endpointFamily"@.len() == 14 && "domain"@.len() == 6
        && "hopLimit"@.len() == 8);
}

/// What a record is read as: the values that it was listed with.
proof fn lemma_record(names: Seq<Seq<char>>, values: Seq<Option<JsonModel>>)
    requires
        names.no_duplicates(),
        names.len() == values.len(),
    ensures
        ({
            let record = JsonModel::Object(listed(names, values));
            &&& is_closed_record(record, names)
            &&& names_once(record, names)
            &&& forall|k: int|
                0 <= k < names.len() ==> member(record, #[trigger] names[k], k) == values[k]
        }),
{
    lemma_listed(names, values);
    assert(all_known(listed(names, values), names));
    assert(each_once(listed(names, values), names));
}

proof fn lemma_target_read_back(target: MessageTargetModel)
    ensures
        target_of_json(target_json(target)) == Some(target),
{
    lemma_inner_names();
    match target {
        MessageTargetModel::Endpoint { endpoint } => {
            let names = endpoint_names();
            let values = seq![text_field("endpoint"@), text_field(endpoint)];
            lemma_record(names, values);
            assert(names[0] == "targetType"@ && names[1] == "endpoint"@);
        },
        MessageTargetModel::Broadcast { scope, endpoint_family, domain, hop_limit } => {
            let names = broadcast_names();
            let values = seq![
                text_field("broadcast"@),
                text_field(scope),
                text_field(endpoint_family),
                optional_text_field(domain),
                optional_number_field(widened(hop_limit)),
            ];
            lemma_record(names, values);
            assert(names[0] == "targetType"@ && names[1] == "scope"@ && names[2]
                == "endpointFamily"@ && names[3] == "domain"@ && names[4] == "hopLimit"@);
        },
    }
}

proof fn lemma_subject_read_back(
    subject: EntitySubjectModel,
    identifiers: Seq<(Seq<char>, JsonModel)>,
)
    requires
        hold_texts(identifiers, subject.identifiers),
    ensures
        subject_of_json(subject_json(subject, identifiers)) == Some(subject),
{
    lemma_inner_names();
    let names = subject_names();
    let values = seq![text_field(subject.kind), Some(JsonModel::Object(identifiers))];
    lemma_record(names, values);
    assert(names[0] == "kind"@ && names[1] == "identifiers"@);
}

/// A message that is written is read back as it was, if its trace and its body are settled, and its
/// trace is not null.
pub proof fn messages_read_back(message: DeckrMessageModel, value: JsonModel)
    requires
        is_message_json(message, value),
        settled(message.body) == message.body,
        message.trace matches Some(trace) ==> settled(trace) == trace && !(trace is Null),
    ensures
        message_of(value) == Some(message),
{
    let identifiers = choose|identifiers: Seq<(Seq<char>, JsonModel)>|
        hold_texts(identifiers, message.subject.identifiers) && value == #[trigger] message_json(
            message,
            identifiers,
        );
    let names = message_names();
    let values = message_values(message, identifiers);
    lemma_message_names();
    lemma_record(names, values);
    lemma_target_read_back(message.recipient);
    lemma_subject_read_back(message.subject, identifiers);
    assert(names[0] == "messageId"@ && names[1] == "protocolVersion"@ && names[2]
        == "schemaVersion"@ && names[3] == "lane"@ && names[4] == "messageType"@ && names[5]
        == "sender"@ && names[6] == "recipient"@ && names[7] == "subject"@ && names[8]
        == "createdAt"@ && names[9] == "expiresAt"@ && names[10] == "ttlMs"@ && names[11]
        == "inReplyTo"@ && names[12] == "causationId"@ && names[13] == "trace"@ && names[14]
        == "body"@);
}

/// Whether what the body holds besides its own fields is settled: the options of image formats.
pub open spec fn options_settled(body: HardwareMessageBodyModel) -> bool {
    body matches HardwareMessageBodyModel::DeviceConnected { device } ==> forall|i: int|
        0 <= i < device.slots.len() ==> slot_settled(#[trigger] device.slots[i])
}

/// Whether the options of a slot's image format are settled.
pub open spec fn slot_settled(slot: SlotModel) -> bool {
    slot.image_format matches Some(format) ==> settled(JsonModel::Object(format.format_options))
        == JsonModel::Object(format.format_options)
}

proof fn lemma_format_settled(format: ImageFormatModel)
    requires
        settled(JsonModel::Object(format.format_options)) == JsonModel::Object(
            format.format_options,
        ),
    ensures
        settled(format_json(format)) == format_json(format),
{
    reveal_strlit("flipX");
    reveal_strlit("flipY");
    reveal_strlit("format");
    reveal_strlit("formatOptions");
    reveal_strlit("height");
    reveal_strlit("rotation");
    reveal_strlit("width");
    let fields = format_json(format)->Object_0;
    assert("flipX"@.take(4) =~= "flipY"@.take(4));
    lemma_text_before("flipX"@, "flipY"@, 4);
    assert("flipY"@.take(1) =~= "format"@.take(1));
    lemma_text_before("flipY"@, "format"@, 1);
    assert("format"@.take(6) =~= "formatOptions"@.take(6));
    lemma_text_before("format"@, "formatOptions"@, 6);
    assert("formatOptions"@.take(0) =~= "height"@.take(0));
    lemma_text_before("formatOptions"@, "height"@, 0);
    assert("height"@.take(0) =~= "rotation"@.take(0));
    lemma_text_before("height"@, "rotation"@, 0);
    assert("rotation"@.take(0) =~= "width"@.take(0));
    lemma_text_before("rotation"@, "width"@, 0);
    lemma_next_in_order(fields);
    lemma_settled_object(fields);
}

proof fn lemma_slot_settled(slot: SlotModel)
    requires
        slot_settled(slot),
    ensures
        settled(slot_json(slot)) == slot_json(slot),
{
    reveal_strlit("column");
    reveal_strlit("row");
    reveal_strlit("coordinates");
    reveal_strlit("gestures");
    reveal_strlit("id");
    reveal_strlit("imageFormat");
    reveal_strlit("slotType");
    let place = coordinates_json(slot.coordinates)->Object_0;
    assert("column"@.take(0) =~= "row"@.take(0));
    lemma_text_before("column"@, "row"@, 0);
    lemma_next_in_order(place);
    lemma_settled_object(place);
    lemma_settled_list(texts_json(slot.gestures)->List_0);
    let fields = slot_json(slot)->Object_0;
    assert("coordinates"@.take(0) =~= "gestures"@.take(0));
    lemma_text_before("coordinates"@, "gestures"@, 0);
    assert("gestures"@.take(0) =~= "id"@.take(0));
    lemma_text_before("gestures"@, "id"@, 0);
    assert("id"@.take(0) =~= "slotType"@.take(0));
    lemma_text_before("id"@, "slotType"@, 0);
    assert("id"@.take(1) =~= "imageFormat"@.take(1));
    lemma_text_before("id"@, "imageFormat"@, 1);
    assert("imageFormat"@.take(0) =~= "slotType"@.take(0));
    lemma_text_before("imageFormat"@, "slotType"@, 0);
    if let Some(format) = slot.image_format {
        lemma_format_settled(format);
        assert(fields.len() == 5);
    } else {
        assert(fields.len() == 4);
    }
    lemma_next_in_order(fields);
    lemma_settled_object(fields);
}

proof fn lemma_device_settled(device: DeviceInfoModel)
    requires
        forall|i: int| 0 <= i < device.slots.len() ==> slot_settled(#[trigger] device.slots[i]),
    ensures
        settled(device_json(device)) == device_json(device),
{
    reveal_strlit("fingerprint");
    reveal_strlit("hid");
    reveal_strlit("id");
    reveal_strlit("name");
    reveal_strlit("slots");
    let slots = Seq::new(device.slots.len(), |i: int| slot_json(device.slots[i]));
    assert forall|i: int| 0 <= i < slots.len() implies settled(#[trigger] slots[i])
        == slots[i] by {
        lemma_slot_settled(device.slots[i]);
    }
    lemma_settled_list(slots);
    let fields = device_json(device)->Object_0;
    assert(fields.last() == ("slots"@, JsonModel::List(slots)));
    assert("fingerprint"@.take(0) =~= "hid"@.take(0));
    lemma_text_before("fingerprint"@, "hid"@, 0);
    assert("hid"@.take(0) =~= "id"@.take(0));
    lemma_text_before("hid"@, "id"@, 0);
    assert("id"@.take(0) =~= "name"@.take(0));
    lemma_text_before("id"@, "name"@, 0);
    assert("id"@.take(0) =~= "slots"@.take(0));
    lemma_text_before("id"@, "slots"@, 0);
    assert("name"@.take(0) =~= "slots"@.take(0));
    lemma_text_before("name"@, "slots"@, 0);
    if device.name is Some {
        assert(fields.len() == 5);
    } else {
        assert(fields.len() == 4);
    }
    lemma_next_in_order(fields);
    lemma_settled_object(fields);
}

/// Bodies are written settled.
pub proof fn bodies_are_settled(body: HardwareMessageBodyModel)
    requires
        options_settled(body),
    ensures
        settled(body_json(body)) == body_json(body),
{
    reveal_strlit("dialId");
    reveal_strlit("direction");
    reveal_strlit("touchId");
    reveal_strlit("image");
    reveal_strlit("slotId");
    assert("dialId"@.take(2) =~= "direction"@.take(2));
    lemma_text_before("dialId"@, "direction"@, 2);
    assert("direction"@.take(0) =~= "touchId"@.take(0));
    lemma_text_before("direction"@, "touchId"@, 0);
    assert("image"@.take(0) =~= "slotId"@.take(0));
    lemma_text_before("image"@, "slotId"@, 0);
    if let HardwareMessageBodyModel::DeviceConnected { device } = body {
        lemma_device_settled(device);
    }
    let fields = body_json(body)->Object_0;
    lemma_next_in_order(fields);
    lemma_settled_object(fields);
}

/// What is read of a new message that was written is the message, and its body is the body that it
/// was made with.
pub proof fn new_messages_read_back(
    message_id: Seq<char>,
    created_at: Seq<char>,
    sender: Seq<char>,
    recipient: MessageTargetModel,
    manager_id: Seq<char>,
    device_id: Seq<char>,
    body: HardwareMessageBodyModel,
    value: JsonModel,
)
    requires
        is_message_json(
            hardware_message(
                message_id,
                created_at,
                sender,
                recipient,
                manager_id,
                device_id,
                body,
            ),
            value,
        ),
        options_settled(body),
        body matches HardwareMessageBodyModel::SetImage { image, .. } ==> base64_padded_bytes(
            base64_padded(image),
        ) == Some(image),
    ensures
        message_of(value) == Some(
            hardware_message(
                message_id,
                created_at,
                sender,
                recipient,
                manager_id,
                device_id,
                body,
            ),
        ),
        body_of(message_of(value)->0.message_type, message_of(value)->0.body) == Ok::<
            HardwareMessageBodyModel,
            WireErrorModel,
        >(body),
{
    bodies_are_settled(body);
    bodies_read_back(body);
    messages_read_back(
        hardware_message(
            message_id,
            created_at,
            sender,
            recipient,
            manager_id,
            device_id,
            body,
        ),
        value,
    );
}

/// A value with a field that a message does not have is no message.
pub proof fn unknown_fields_are_refused(fields: Seq<(Seq<char>, JsonModel)>, i: int)
    requires
        0 <= i < fields.len(),
        !message_names().contains(fields[i].0),
    ensures
        message_of(JsonModel::Object(fields)) is None,
{
}

// ---------------------------------------------------------------------------------------------
// Messages to values
// ---------------------------------------------------------------------------------------------

proof fn lemma_texts_with_field(
    fields: Seq<(Seq<char>, JsonModel)>,
    name: Seq<char>,
    text: Seq<char>,
)
    ensures
        texts_in(with_field(fields, name, JsonModel::Text(text))) == texts_in(fields).insert(
            name,
            text,
        ),
    decreases fields.len(),
{
    let value = JsonModel::Text(text);
    let r = with_field(fields, name, value);
    if fields.len() == 0 || text_before(fields.last().0, name) {
        assert(r.drop_last() =~= fields);
    } else if fields.last().0 == name {
        assert(r.drop_last() =~= fields.drop_last());
        assert(texts_in(r) =~= texts_in(fields).insert(name, text));
    } else {
        lemma_texts_with_field(fields.drop_last(), name, text);
        assert(r.drop_last() =~= with_field(fields.drop_last(), name, value));
        assert(texts_in(r) =~= texts_in(fields).insert(name, text));
    }
}

fn texts_value(texts: &TextMap<String>) -> (r: Vec<(String, JsonValue)>)
    ensures
        hold_texts(r.deep_view(), texts.deep_view()),
{
    let ghost map = texts.deep_view();
    let mut fields: Vec<(String, JsonValue)> = Vec::new();
    let n: usize = texts.len();
    let mut i: usize = 0;
    assert(texts_in(fields.deep_view()) =~= Map::<Seq<char>, Seq<char>>::empty());
    while i < n
        invariant
            i <= n == texts.keys().len(),
            map == texts.deep_view(),
            names_in_order(fields.deep_view()),
            all_texts(fields.deep_view()),
            forall|key: Seq<char>| #[trigger]
                texts_in(fields.deep_view()).contains_key(key) <==> texts.keys().take(
                    i as int,
                ).contains(key),
            forall|key: Seq<char>|
                texts_in(fields.deep_view()).contains_key(key) ==> #[trigger] texts_in(
                    fields.deep_view(),
                )[key] == map[key],
        decreases n - i,
    {
        let ghost before = fields.deep_view();
        let name = texts.key_at(i);
        let text = texts.value_at(i);
        put_field(&mut fields, name.clone(), text_json(text));
        proof {
            let keys = texts.keys();
            let after = fields.deep_view();
            lemma_with_field(before, name@, JsonModel::Text(text@));
            lemma_texts_with_field(before, name@, text@);
            assert(map[name@] == text@);
            assert(keys.take(i + 1) =~= keys.take(i as int).push(name@));
            assert forall|key: Seq<char>| #[trigger]
                texts_in(after).contains_key(key) <==> keys.take(i + 1).contains(key) by {
                lemma_push_contains(keys.take(i as int), name@, key);
                assert(texts_in(before).contains_key(key) <==> keys.take(i as int).contains(key));
            }
            assert forall|key: Seq<char>| texts_in(after).contains_key(key) implies
                #[trigger] texts_in(after)[key] == map[key] by {
                if key != name@ {
                    assert(texts_in(before).contains_key(key));
                    assert(texts_in(before)[key] == map[key]);
                }
            }
            assert forall|k: int| 0 <= k < after.len() implies (#[trigger] after[k]).1 is Text by {
                if after[k] != (name@, JsonModel::Text(text@)) {
                    let l = choose|l: int| 0 <= l < before.len() && before[l] == after[k];
                    assert(before[l].1 is Text);
                }
            }
        }
        i += 1;
    }
    proof {
        assert(texts.keys().take(n as int) =~= texts.keys());
        assert(texts_in(fields.deep_view()) =~= map);
    }
    fields
}

fn some_text(text: &String) -> (r: Option<JsonValue>)
    ensures
        r.deep_view() == text_field(text@),
{
    Some(text_json(text))
}

fn optional_text(text: &Option<String>) -> (r: Option<JsonValue>)
    ensures
        r.deep_view() == optional_text_field(text.deep_view()),
{
    match text {
        Some(text) => Some(text_json(text)),
        None => None,
    }
}

fn optional_number(number: Option<u64>) -> (r: Option<JsonValue>)
    ensures
        r.deep_view() == optional_number_field(number),
{
    match number {
        Some(number) => Some(JsonValue::Unsigned(number)),
        None => None,
    }
}

fn target_value(target: &MessageTarget) -> (r: JsonValue)
    ensures
        r.deep_view() == target_json(target.deep_view()),
{
    match target {
        MessageTarget::Endpoint { endpoint } => {
            let names: Vec<&'static str> = vec!["targetType", "endpoint"];
            let kind = "endpoint".to_owned();
            let values: Vec<Option<JsonValue>> = vec![some_text(&kind), some_text(endpoint)];
            proof {
                assert(names.deep_view() =~= endpoint_names());
                assert(values.deep_view() =~= seq![text_field("endpoint"@), text_field(endpoint@)]);
            }
            let fields = list_fields(&names, &values);
            proof {
                lemma_object(fields);
            }
            JsonValue::Object(fields)
        },
        MessageTarget::Broadcast { scope, endpoint_family, domain, hop_limit } => {
            let names: Vec<&'static str> = vec![
                "targetType",
                "scope",
                "endpointFamily",
                "domain",
                "hopLimit",
            ];
            let kind = "broadcast".to_owned();
            let limit = match hop_limit {
                Some(limit) => Some(*limit as u64),
                None => None,
            };
            let values: Vec<Option<JsonValue>> = vec![
                some_text(&kind),
                some_text(scope),
                some_text(endpoint_family),
                optional_text(domain),
                optional_number(limit),
            ];
            proof {
                assert(names.deep_view() =~= broadcast_names());
                assert(values.deep_view() =~= seq![
                    text_field("broadcast"@),
                    text_field(scope@),
                    text_field(endpoint_family@),
                    optional_text_field(domain.deep_view()),
                    optional_number_field(widened(*hop_limit)),
                ]);
            }
            let fields = list_fields(&names, &values);
            proof {
                lemma_object(fields);
            }
            JsonValue::Object(fields)
        },
    }
}

fn subject_value(subject: &EntitySubject) -> (r: (JsonValue, Ghost<Seq<(Seq<char>, JsonModel)>>))
    ensures
        hold_texts(r.1@, subject.deep_view().identifiers),
        r.0.deep_view() == subject_json(subject.deep_view(), r.1@),
{
    let names: Vec<&'static str> = vec!["kind", "identifiers"];
    let texts = texts_value(&subject.identifiers);
    let ghost identifiers = texts.deep_view();
    proof {
        lemma_object(texts);
    }
    let held = JsonValue::Object(texts);
    let values: Vec<Option<JsonValue>> = vec![some_text(&subject.kind), Some(held)];
    proof {
        assert(names.deep_view() =~= subject_names());
        assert(values.deep_view() =~= seq![
            text_field(subject.kind@),
            Some(JsonModel::Object(identifiers)),
        ]);
    }
    let fields = list_fields(&names, &values);
    proof {
        lemma_object(fields);
    }
    (JsonValue::Object(fields), Ghost(identifiers))
}

// ---------------------------------------------------------------------------------------------
// Values to messages
// ---------------------------------------------------------------------------------------------

fn is_among(names: &Vec<&'static str>, name: &str) -> (r: bool)
    ensures
        r == names.deep_view().contains(name@),
{
    let mut i: usize = 0;
    while i < names.len()
        invariant
            i <= names@.len(),
            forall|j: int| 0 <= j < i ==> #[trigger] names.deep_view()[j] != name@,
        decreases names@.len() - i,
    {
        if same_text(names[i], name) {
            assert(names.deep_view()[i as int] == name@);
            return true;
        }
        i += 1;
    }
    false
}

fn has_names_once(value: &JsonValue, names: &Vec<&'static str>) -> (r: bool)
    ensures
        r == names_once(value.deep_view(), names.deep_view()),
{
    let fields = match value {
        JsonValue::Object(fields) => fields,
        _ => return true,
    };
    let ghost all = fields.deep_view();
    let ghost known = names.deep_view();
    proof {
        lemma_object(*fields);
    }
    let n: usize = fields.len();
    let mut j: usize = 0;
    while j < n
        invariant
            j <= n == fields@.len(),
            all == fields.deep_view(),
            known == names.deep_view(),
            value.deep_view() == JsonModel::Object(all),
            forall|i: int, k: int|
                0 <= i < k < j && (#[trigger] all[i]).0 == (#[trigger] all[k]).0
                    ==> !known.contains(all[i].0),
        decreases n - j,
    {
        assert(all[j as int] == fields@[j as int].deep_view());
        if is_among(names, fields[j].0.as_str()) {
            let mut i: usize = 0;
            while i < j
                invariant
                    i <= j < n == fields@.len(),
                    all == fields.deep_view(),
                    known == names.deep_view(),
                    value.deep_view() == JsonModel::Object(all),
                    known.contains(all[j as int].0),
                    all[j as int] == fields@[j as int].deep_view(),
                    forall|k: int| 0 <= k < i ==> (#[trigger] all[k]).0 != all[j as int].0,
                decreases j - i,
            {
                assert(all[i as int] == fields@[i as int].deep_view());
                if same_text(fields[i].0.as_str(), fields[j].0.as_str()) {
                    assert(all[i as int].0 == all[j as int].0);
                    return false;
                }
                i += 1;
            }
        }
        j += 1;
    }
    true
}

fn read_optional_text(record: &JsonValue, value: Option<&JsonValue>) -> (r: Option<Option<String>>)
    ensures
        r.deep_view() == optional_text_of_json(record.deep_view(), value.deep_view()),
{
    match value {
        None => match record {
            JsonValue::Object(_) => Some(None),
            _ => None,
        },
        Some(JsonValue::Null) => Some(None),
        Some(JsonValue::Text(text)) => Some(Some(text.clone())),
        Some(_) => None,
    }
}

fn read_optional_u32(record: &JsonValue, value: Option<&JsonValue>) -> (r: Option<Option<u32>>)
    ensures
        r == optional_u32_of_json(record.deep_view(), value.deep_view()),
{
    match value {
        None => match record {
            JsonValue::Object(_) => Some(None),
            _ => None,
        },
        Some(JsonValue::Null) => Some(None),
        Some(_) => match read_u32(value) {
            Some(number) => Some(Some(number)),
            None => None,
        },
    }
}

fn read_optional_u64(record: &JsonValue, value: Option<&JsonValue>) -> (r: Option<Option<u64>>)
    ensures
        r == optional_u64_of_json(record.deep_view(), value.deep_view()),
{
    match value {
        None => match record {
            JsonValue::Object(_) => Some(None),
            _ => None,
        },
        Some(JsonValue::Null) => Some(None),
        Some(JsonValue::Unsigned(number)) => Some(Some(*number)),
        Some(JsonValue::Negative(number)) => if *number >= 0 {
            Some(Some(*number as u64))
        } else {
            None
        },
        Some(_) => None,
    }
}

fn read_optional(record: &JsonValue, value: Option<&JsonValue>) -> (r: Option<Option<JsonValue>>)
    ensures
        r.deep_view() == optional_of_json(record.deep_view(), value.deep_view()),
{
    match value {
        None => match record {
            JsonValue::Object(_) => Some(None),
            _ => None,
        },
        Some(JsonValue::Null) => Some(None),
        Some(value) => Some(Some(settle(value))),
    }
}

fn read_target(value: &JsonValue) -> (r: Option<MessageTarget>)
    ensures
        r.deep_view() == target_of_json(value.deep_view()),
{
    proof {
        lemma_inner_names();
    }
    let kind = read_text(find_member(value, "targetType", 0))?;
    if same_text(kind.as_str(), "endpoint") {
        let names: Vec<&'static str> = vec!["targetType", "endpoint"];
        assert(names.deep_view() =~= endpoint_names());
        if !can_be_record(value, 2) || !has_names_once(value, &names) {
            return None;
        }
        let endpoint = read_text(find_member(value, "endpoint", 1))?;
        Some(MessageTarget::Endpoint { endpoint })
    } else if same_text(kind.as_str(), "broadcast") {
        let names: Vec<&'static str> = vec![
            "targetType",
            "scope",
            "endpointFamily",
            "domain",
            "hopLimit",
        ];
        assert(names.deep_view() =~= broadcast_names());
        if !can_be_record(value, 5) || !has_names_once(value, &names) {
            return None;
        }
        let scope = read_text(find_member(value, "scope", 1))?;
        let endpoint_family = read_text(find_member(value, "endpointFamily", 2))?;
        let domain = read_optional_text(value, find_member(value, "domain", 3))?;
        let hop_limit = read_optional_u32(value, find_member(value, "hopLimit", 4))?;
        Some(MessageTarget::Broadcast { scope, endpoint_family, domain, hop_limit })
    } else {
        None
    }
}

fn read_identifiers(value: Option<&JsonValue>) -> (r: Option<TextMap<String>>)
    ensures
        r.deep_view() == identifiers_of_json(value.deep_view()),
{
    let mut texts: TextMap<String> = TextMap::new();
    assert(texts.deep_view() =~= Map::<Seq<char>, Seq<char>>::empty());
    match value {
        Some(JsonValue::Object(fields)) => {
            let ghost all = fields.deep_view();
            proof {
                lemma_object(*fields);
            }
            let n: usize = fields.len();
            let mut i: usize = 0;
            while i < n
                invariant
                    i <= n == fields@.len(),
                    all == fields.deep_view(),
                    value.deep_view() == Some(JsonModel::Object(all)),
                    forall|k: int| 0 <= k < i ==> (#[trigger] all[k]).1 is Text,
                    texts.deep_view() == texts_in(all.take(i as int)),
                decreases n - i,
            {
                assert(all[i as int] == fields@[i as int].deep_view());
                assert(all.take(i + 1).drop_last() =~= all.take(i as int));
                match &fields[i].1 {
                    JsonValue::Text(text) => {
                        let ghost before = texts.deep_view();
                        texts.insert(fields[i].0.clone(), text.clone());
                        assert(texts.deep_view() =~= before.insert(
                            all[i as int].0,
                            all[i as int].1->Text_0,
                        ));
                    },
                    _ => {
                        return None;
                    },
                }
                i += 1;
            }
            assert(all.take(n as int) =~= all);
            Some(texts)
        },
        Some(_) => None,
        None => Some(texts),
    }
}

fn read_subject(value: &JsonValue) -> (r: Option<EntitySubject>)
    ensures
        r.deep_view() == subject_of_json(value.deep_view()),
{
    let names: Vec<&'static str> = vec!["kind", "identifiers"];
    assert(names.deep_view() =~= subject_names());
    if !can_be_closed_record(value, &names) || !has_names_once(value, &names) {
        return None;
    }
    let kind = read_text(find_member(value, "kind", 0))?;
    let identifiers = read_identifiers(find_member(value, "identifiers", 1))?;
    Some(EntitySubject { kind, identifiers })
}

fn message_name_list() -> (r: Vec<&'static str>)
    ensures
        r.deep_view() == message_names(),
{
    let names: Vec<&'static str> = vec![
        "messageId",
        "protocolVersion",
        "schemaVersion",
        "lane",
        "messageType",
        "sender",
        "recipient",
        "subject",
        "createdAt",
        "expiresAt",
        "ttlMs",
        "inReplyTo",
        "causationId",
        "trace",
        "body",
    ];
    assert(names.deep_view() =~= message_names());
    names
}

impl DeckrMessage {
    /// The message as a value. Reading it gives the message back, if its trace and its body are
    /// settled, and its trace is not null.
    pub fn to_value(&self) -> (r: JsonValue)
        ensures
            is_message_json(self.deep_view(), r.deep_view()),
            settled(self.body.deep_view()) == self.body.deep_view() && (self.trace.deep_view() matches
                Some(trace) ==> settled(trace) == trace && !(trace is Null)) ==> message_of(
                r.deep_view(),
            ) == Some(self.deep_view()),
    {
        let names = message_name_list();
        let (subject, Ghost(identifiers)) = subject_value(&self.subject);
        let values: Vec<Option<JsonValue>> = vec![
            some_text(&self.message_id),
            some_text(&self.protocol_version),
            some_text(&self.schema_version),
            some_text(&self.lane),
            some_text(&self.message_type),
            some_text(&self.sender),
            Some(target_value(&self.recipient)),
            Some(subject),
            some_text(&self.created_at),
            optional_text(&self.expires_at),
            optional_number(self.ttl_ms),
            optional_text(&self.in_reply_to),
            optional_text(&self.causation_id),
            self.trace.clone(),
            Some(self.body.clone()),
        ];
        assert(values.deep_view() =~= message_values(self.deep_view(), identifiers));
        let fields = list_fields(&names, &values);
        let r = JsonValue::Object(fields);
        proof {
            lemma_object(fields);
            assert(r.deep_view() == message_json(self.deep_view(), identifiers));
            if settled(self.body.deep_view()) == self.body.deep_view() && (self.trace.deep_view() matches
                Some(trace) ==> settled(trace) == trace && !(trace is Null)) {
                messages_read_back(self.deep_view(), r.deep_view());
            }
        }
        r
    }

    /// The message that a value is, if it is one.
    pub fn from_value(value: &JsonValue) -> (r: Option<Self>)
        ensures
            r.deep_view() == message_of(value.deep_view()),
    {
        let names = message_name_list();
        if !can_be_closed_record(value, &names) || !has_names_once(value, &names) {
            return None;
        }
        let message_id = read_text(find_member(value, "messageId", 0))?;
        let protocol_version = read_text(find_member(value, "protocolVersion", 1))?;
        let schema_version = read_text(find_member(value, "schemaVersion", 2))?;
        let lane = read_text(find_member(value, "lane", 3))?;
        let message_type = read_text(find_member(value, "messageType", 4))?;
        let sender = read_text(find_member(value, "sender", 5))?;
        let recipient = read_target(find_member(value, "recipient", 6)?)?;
        let subject = read_subject(find_member(value, "subject", 7)?)?;
        let created_at = read_text(find_member(value, "createdAt", 8))?;
        let expires_at = read_optional_text(value, find_member(value, "expiresAt", 9))?;
        let ttl_ms = read_optional_u64(value, find_member(value, "ttlMs", 10))?;
        let in_reply_to = read_optional_text(value, find_member(value, "inReplyTo", 11))?;
        let causation_id = read_optional_text(value, find_member(value, "causationId", 12))?;
        let trace = read_optional(value, find_member(value, "trace", 13))?;
        let body = settle(find_member(value, "body", 14)?);
        Some(
            DeckrMessage {
                message_id,
                protocol_version,
                schema_version,
                lane,
                message_type,
                sender,
                recipient,
                subject,
                created_at,
                expires_at,
                ttl_ms,
                in_reply_to,
                causation_id,
                trace,
                body,
            },
        )
    }
}

/// What is written of a target, field by field.
pub proof fn targets_are_written_by_field(target: MessageTargetModel)
    ensures
        ({
            let value = target_json(target);
            match target {
                MessageTargetModel::Endpoint { endpoint } => {
                    &&& holds(value, "targetType"@, Some(JsonModel::Text("endpoint"@)))
                    &&& holds(value, "endpoint"@, Some(JsonModel::Text(endpoint)))
                    &&& all_known(value->Object_0, seq!["targetType"@, "endpoint"@])
                },
                MessageTargetModel::Broadcast { scope, endpoint_family, domain, hop_limit } => {
                    &&& holds(value, "targetType"@, Some(JsonModel::Text("broadcast"@)))
                    &&& holds(value, "scope"@, Some(JsonModel::Text(scope)))
                    &&& holds(value, "endpointFamily"@, Some(JsonModel::Text(endpoint_family)))
                    &&& domain matches Some(domain) ==> holds(
                        value,
                        "domain"@,
                        Some(JsonModel::Text(domain)),
                    )
                    &&& domain is None ==> holds(value, "domain"@, None)
                    &&& hop_limit matches Some(limit) ==> holds(
                        value,
                        "hopLimit"@,
                        Some(JsonModel::Unsigned(limit as u64)),
                    )
                    &&& hop_limit is None ==> holds(value, "hopLimit"@, None)
                },
            }
        }),
{
    lemma_inner_names();
    match target {
        MessageTargetModel::Endpoint { endpoint } => {
            let names = endpoint_names();
            let values = seq![text_field("endpoint"@), text_field(endpoint)];
            lemma_listed(names, values);
            assert(names[0] == "targetType"@ && names[1] == "endpoint"@);
            assert(field_of(listed(names, values), names[0]) == values[0]);
            assert(field_of(listed(names, values), names[1]) == values[1]);
        },
        MessageTargetModel::Broadcast { scope, endpoint_family, domain, hop_limit } => {
            let names = broadcast_names();
            let values = seq![
                text_field("broadcast"@),
                text_field(scope),
                text_field(endpoint_family),
                optional_text_field(domain),
                optional_number_field(widened(hop_limit)),
            ];
            lemma_listed(names, values);
            assert(names[0] == "targetType"@ && names[1] == "scope"@ && names[2]
                == "endpointFamily"@ && names[3] == "domain"@ && names[4] == "hopLimit"@);
            assert(forall|k: int|
                0 <= k < 5 ==> field_of(listed(names, values), #[trigger] names[k]) == values[k]);
        },
    }
}

/// What is written of a message, field by field: what there is nothing of is left out.
pub proof fn messages_are_written_by_field(
    message: DeckrMessageModel,
    identifiers: Seq<(Seq<char>, JsonModel)>,
)
    ensures
        ({
            let value = message_json(message, identifiers);
            &&& holds(value, "messageId"@, Some(JsonModel::Text(message.message_id)))
            &&& holds(value, "protocolVersion"@, Some(JsonModel::Text(message.protocol_version)))
            &&& holds(value, "schemaVersion"@, Some(JsonModel::Text(message.schema_version)))
            &&& holds(value, "lane"@, Some(JsonModel::Text(message.lane)))
            &&& holds(value, "messageType"@, Some(JsonModel::Text(message.message_type)))
            &&& holds(value, "sender"@, Some(JsonModel::Text(message.sender)))
            &&& holds(value, "recipient"@, Some(target_json(message.recipient)))
            &&& field_of(value->Object_0, "subject"@) matches Some(subject)
            &&& holds(subject, "kind"@, Some(JsonModel::Text(message.subject.kind)))
            &&& holds(subject, "identifiers"@, Some(JsonModel::Object(identifiers)))
            &&& holds(value, "createdAt"@, Some(JsonModel::Text(message.created_at)))
            &&& message.expires_at matches Some(time) ==> holds(
                value,
                "expiresAt"@,
                Some(JsonModel::Text(time)),
            )
            &&& message.expires_at is None ==> holds(value, "expiresAt"@, None)
            &&& message.ttl_ms matches Some(ttl_ms) ==> holds(
                value,
                "ttlMs"@,
                Some(JsonModel::Unsigned(ttl_ms)),
            )
            &&& message.ttl_ms is None ==> holds(value, "ttlMs"@, None)
            &&& message.in_reply_to matches Some(id) ==> holds(
                value,
                "inReplyTo"@,
                Some(JsonModel::Text(id)),
            )
            &&& message.in_reply_to is None ==> holds(value, "inReplyTo"@, None)
            &&& message.causation_id matches Some(id) ==> holds(
                value,
                "causationId"@,
                Some(JsonModel::Text(id)),
            )
            &&& message.causation_id is None ==> holds(value, "causationId"@, None)
            &&& holds(value, "trace"@, message.trace)
            &&& holds(value, "body"@, Some(message.body))
        }),
{
    lemma_message_names();
    lemma_inner_names();
    let names = message_names();
    let values = message_values(message, identifiers);
    lemma_listed(names, values);
    assert(names[0] == "messageId"@ && names[1] == "protocolVersion"@ && names[2]
        == "schemaVersion"@ && names[3] == "lane"@ && names[4] == "messageType"@ && names[5]
        == "sender"@ && names[6] == "recipient"@ && names[7] == "subject"@ && names[8]
        == "createdAt"@ && names[9] == "expiresAt"@ && names[10] == "ttlMs"@ && names[11]
        == "inReplyTo"@ && names[12] == "causationId"@ && names[13] == "trace"@ && names[14]
        == "body"@);
    assert(forall|k: int|
        0 <= k < 15 ==> field_of(listed(names, values), #[trigger] names[k]) == values[k]);
    let inner = subject_names();
    let parts = seq![text_field(message.subject.kind), Some(JsonModel::Object(identifiers))];
    lemma_listed(inner, parts);
    assert(inner[0] == "kind"@ && inner[1] == "identifiers"@);
    assert(field_of(listed(inner, parts), inner[0]) == parts[0]);
    assert(field_of(listed(inner, parts), inner[1]) == parts[1]);
}

/// What a message that could be read from an object is: what the object's fields say. What is missing
/// or null is nothing.
pub proof fn messages_are_read_by_field(
    fields: Seq<(Seq<char>, JsonModel)>,
    message: DeckrMessageModel,
)
    requires
        message_of(JsonModel::Object(fields)) == Some(message),
    ensures
        ({
            let value = JsonModel::Object(fields);
            let missing = |name: Seq<char>|
                holds(value, name, None) || holds(value, name, Some(JsonModel::Null));
            &&& holds(value, "messageId"@, Some(JsonModel::Text(message.message_id)))
            &&& holds(value, "protocolVersion"@, Some(JsonModel::Text(message.protocol_version)))
            &&& holds(value, "schemaVersion"@, Some(JsonModel::Text(message.schema_version)))
            &&& holds(value, "lane"@, Some(JsonModel::Text(message.lane)))
            &&& holds(value, "messageType"@, Some(JsonModel::Text(message.message_type)))
            &&& holds(value, "sender"@, Some(JsonModel::Text(message.sender)))
            &&& field_of(fields, "recipient"@) matches Some(target)
            &&& target_of_json(target) == Some(message.recipient)
            &&& field_of(fields, "subject"@) matches Some(subject)
            &&& subject_of_json(subject) == Some(message.subject)
            &&& subject is Object ==> holds(
                subject,
                "kind"@,
                Some(JsonModel::Text(message.subject.kind)),
            )
            &&& holds(value, "createdAt"@, Some(JsonModel::Text(message.created_at)))
            &&& message.expires_at matches Some(time) ==> holds(
                value,
                "expiresAt"@,
                Some(JsonModel::Text(time)),
            )
            &&& message.expires_at is None ==> missing("expiresAt"@)
            &&& message.ttl_ms matches Some(ttl_ms) ==> holds(
                value,
                "ttlMs"@,
                Some(JsonModel::Unsigned(ttl_ms)),
            ) || (ttl_ms <= i64::MAX && holds(
                value,
                "ttlMs"@,
                Some(JsonModel::Negative(ttl_ms as i64)),
            ))
            &&& message.ttl_ms is None ==> missing("ttlMs"@)
            &&& message.in_reply_to matches Some(id) ==> holds(
                value,
                "inReplyTo"@,
                Some(JsonModel::Text(id)),
            )
            &&& message.in_reply_to is None ==> missing("inReplyTo"@)
            &&& message.causation_id matches Some(id) ==> holds(
                value,
                "causationId"@,
                Some(JsonModel::Text(id)),
            )
            &&& message.causation_id is None ==> missing("causationId"@)
            &&& message.trace matches Some(trace) ==> (field_of(fields, "trace"@) matches Some(told)
                && settled(told) == trace)
            &&& message.trace is None ==> missing("trace"@)
            &&& field_of(fields, "body"@) matches Some(told)
            &&& message.body == settled(told)
        }),
{
}

/// What a target that could be read from an object is: what the object's fields say.
pub proof fn targets_are_read_by_field(
    fields: Seq<(Seq<char>, JsonModel)>,
    target: MessageTargetModel,
)
    requires
        target_of_json(JsonModel::Object(fields)) == Some(target),
    ensures
        ({
            let value = JsonModel::Object(fields);
            match target {
                MessageTargetModel::Endpoint { endpoint } => {
                    &&& holds(value, "targetType"@, Some(JsonModel::Text("endpoint"@)))
                    &&& holds(value, "endpoint"@, Some(JsonModel::Text(endpoint)))
                },
                MessageTargetModel::Broadcast { scope, endpoint_family, domain, hop_limit } => {
                    &&& holds(value, "targetType"@, Some(JsonModel::Text("broadcast"@)))
                    &&& holds(value, "scope"@, Some(JsonModel::Text(scope)))
                    &&& holds(value, "endpointFamily"@, Some(JsonModel::Text(endpoint_family)))
                    &&& domain matches Some(domain) ==> holds(
                        value,
                        "domain"@,
                        Some(JsonModel::Text(domain)),
                    )
                    &&& hop_limit matches Some(limit) ==> u32_of_json(field_of(fields, "hopLimit"@))
                        == Some(limit)
                },
            }
        }),
{
}

/// A message that lacks one of the fields that it must have, or has one of its fields twice, is none.
pub proof fn messages_have_their_fields_once(
    fields: Seq<(Seq<char>, JsonModel)>,
    name: Seq<char>,
    i: int,
    j: int,
)
    ensures
        field_of(fields, name) is None && seq![
            "messageId"@,
            "protocolVersion"@,
            "schemaVersion"@,
            "lane"@,
            "messageType"@,
            "sender"@,
            "recipient"@,
            "subject"@,
            "createdAt"@,
            "body"@,
        ].contains(name) ==> message_of(JsonModel::Object(fields)) is None,
        0 <= i < j < fields.len() && fields[i].0 == fields[j].0 ==> message_of(
            JsonModel::Object(fields),
        ) is None,
{
    if 0 <= i < j < fields.len() && fields[i].0 == fields[j].0 {
        if message_names().contains(fields[i].0) {
            assert(!each_once(fields, message_names()));
        }
    }
}

/// The identifiers of a subject are its fields: each holds a text, and of fields with one name the last
/// counts.
pub proof fn identifiers_are_read_by_name(fields: Seq<(Seq<char>, JsonModel)>, i: int)
    requires
        0 <= i < fields.len(),
        forall|k: int| i < k < fields.len() ==> (#[trigger] fields[k]).0 != fields[i].0,
    ensures
        identifiers_of_json(Some(JsonModel::Object(fields))) matches Some(map) ==> {
            &&& map.contains_key(fields[i].0)
            &&& fields[i].1 == JsonModel::Text(map[fields[i].0])
        },
    decreases fields.len(),
{
    if i < fields.len() - 1 {
        let rest = fields.drop_last();
        assert(fields[fields.len() - 1].0 != fields[i].0);
        assert forall|k: int| i < k < rest.len() implies (#[trigger] rest[k]).0 != rest[i].0 by {
            assert(fields[k].0 != fields[i].0);
        }
        if all_texts(fields) {
            assert forall|k: int| 0 <= k < rest.len() implies (#[trigger] rest[k]).1 is Text by {
                assert(fields[k].1 is Text);
            }
        }
        identifiers_are_read_by_name(rest, i);
    } else if all_texts(fields) {
        assert(fields[i].1 is Text);
    }
}

} // verus!
