//! Layouts: which devices they are for, the controls that they give a device, and what a device's
//! input means.

use vstd::prelude::*;

use crate::json::{field_of, object_of_one, object_of_two, JsonModel, JsonValue};
use crate::lanes::{
    CapabilityConstraint, CapabilityConstraintModel, CapabilityDescriptor,
    CapabilityDescriptorModel, ControlDescriptor, ControlDescriptorModel, ControlGeometry,
    ControlGeometryModel, DeviceDescriptor, DeviceDescriptorModel, DeviceRef, DeviceRefModel,
    HardwareMessageBody, HardwareMessageBodyModel,
};
use crate::numeral::{
    hex4, hex_bytes, hex_text, lemma_hex4_distinct, lemma_hex_bytes_distinct, push_hex4,
};
use crate::policy::{
    answer, eval_expression, evaluated, parse_expression, parsed, Bindings, Evaluated, ExprModel,
    PolicyError, Value, ValueModel,
};
use crate::protocol::InteractionEvent;
use crate::text::{
    contains, contains_text, is_before, push_text, same_text, text_before, text_order_is_total,
    text_order_is_transitive,
};
use crate::text_map::TextMap;

verus! {

// ---------------------------------------------------------------------------------------------
// What a layout holds
// ---------------------------------------------------------------------------------------------

/// An argument of a command in a layout: a whole number that is not negative, a list, names with
/// values, or anything else.
#[derive(Debug)]
pub enum ArgValue {
    Unsigned(u64),
    Sequence(Vec<ArgValue>),
    Mapping(Vec<(String, ArgValue)>),
    Other,
}

/// What an argument is.
pub enum ArgModel {
    Unsigned(u64),
    Sequence(Seq<ArgModel>),
    Mapping(Seq<(Seq<char>, ArgModel)>),
    Other,
}

impl ArgValue {
    /// What the argument is.
    pub open spec fn model(self) -> ArgModel
        decreases self,
    {
        match self {
            ArgValue::Unsigned(value) => ArgModel::Unsigned(value),
            ArgValue::Sequence(list) => ArgModel::Sequence(
                Seq::new(
                    list@.len(),
                    |i: int|
                        if 0 <= i < list@.len() {
                            list@[i].model()
                        } else {
                            arbitrary()
                        },
                ),
            ),
            ArgValue::Mapping(entries) => ArgModel::Mapping(
                Seq::new(
                    entries@.len(),
                    |i: int|
                        if 0 <= i < entries@.len() {
                            (entries@[i].0@, entries@[i].1.model())
                        } else {
                            arbitrary()
                        },
                ),
            ),
            ArgValue::Other => ArgModel::Other,
        }
    }
}

impl DeepView for ArgValue {
    type V = ArgModel;

    open spec fn deep_view(&self) -> ArgModel {
        self.model()
    }
}

/// What a list of arguments is.
pub proof fn lemma_sequence(list: Vec<ArgValue>)
    ensures
        ArgValue::Sequence(list).model() == ArgModel::Sequence(list.deep_view()),
{
    assert(ArgValue::Sequence(list).model()->Sequence_0 =~= list.deep_view());
}

/// What arguments with names are.
pub proof fn lemma_mapping(entries: Vec<(String, ArgValue)>)
    ensures
        ArgValue::Mapping(entries).model() == ArgModel::Mapping(entries.deep_view()),
{
    assert(ArgValue::Mapping(entries).model()->Mapping_0 =~= entries.deep_view());
}

/// A command that a layout has its devices be sent.
#[derive(Debug)]
pub struct InitCommand {
    pub cmd: String,
    pub args: ArgValue,
}

/// What a command of a layout is.
pub struct InitCommandModel {
    pub cmd: Seq<char>,
    pub args: ArgModel,
}

impl DeepView for InitCommand {
    type V = InitCommandModel;

    open spec fn deep_view(&self) -> InitCommandModel {
        InitCommandModel { cmd: self.cmd@, args: self.args.deep_view() }
    }
}

/// Commands to be sent again and again, with so many seconds between them.
#[derive(Debug)]
pub struct Heartbeat {
    pub period: u64,
    pub commands: Vec<InitCommand>,
}

/// The images that a display takes.
#[derive(Debug)]
pub struct ImageFormat {
    pub width: u32,
    pub height: u32,
    pub format: String,
    pub rotation: i32,
}

/// What an image format is.
pub struct ImageFormatModel {
    pub width: u32,
    pub height: u32,
    pub format: Seq<char>,
    pub rotation: i32,
}

impl DeepView for ImageFormat {
    type V = ImageFormatModel;

    open spec fn deep_view(&self) -> ImageFormatModel {
        ImageFormatModel {
            width: self.width.deep_view(),
            height: self.height.deep_view(),
            format: self.format.deep_view(),
            rotation: self.rotation.deep_view(),
        }
    }
}

impl Clone for ImageFormat {
    fn clone(&self) -> (r: Self)
        ensures
            r.deep_view() == self.deep_view(),
    {
        ImageFormat {
            width: self.width,
            height: self.height,
            format: self.format.clone(),
            rotation: self.rotation,
        }
    }
}

/// A display of a control.
#[derive(Debug)]
pub struct Display {
    pub id: u8,
    pub format: ImageFormat,
}

/// What a display is.
pub struct DisplayModel {
    pub id: u8,
    pub format: ImageFormatModel,
}

impl DeepView for Display {
    type V = DisplayModel;

    open spec fn deep_view(&self) -> DisplayModel {
        DisplayModel {
            id: self.id.deep_view(),
            format: self.format.deep_view(),
        }
    }
}

impl Clone for Display {
    fn clone(&self) -> (r: Self)
        ensures
            r.deep_view() == self.deep_view(),
    {
        Display {
            id: self.id,
            format: self.format.clone(),
        }
    }
}

/// The reports of a key.
#[derive(Debug, Clone, Copy)]
pub struct KeyEvents {
    pub key: Option<u16>,
    pub press: Option<u16>,
}

/// The reports of a dial.
#[derive(Debug, Clone, Copy)]
pub struct DialEvents {
    pub clockwise: u16,
    pub counterclockwise: u16,
    pub key: Option<u16>,
    pub press: Option<u16>,
}

/// The reports of a dial that can be tapped.
#[derive(Debug, Clone, Copy)]
pub struct TouchDialEvents {
    pub tap: u16,
    pub clockwise: u16,
    pub counterclockwise: u16,
    pub key: Option<u16>,
    pub press: Option<u16>,
}

/// The reports of a strip that can be swiped.
#[derive(Debug, Clone, Copy)]
pub struct TouchStripEvents {
    pub left_swipe: u16,
    pub right_swipe: u16,
}

/// A control of a layout.
#[derive(Debug)]
pub enum Control {
    Key { name: String, row: i32, column: i32, events: KeyEvents, display: Display },
    Button { name: String, row: i32, column: i32, events: KeyEvents },
    TouchDial { name: String, row: i32, column: i32, events: TouchDialEvents, display: Display },
    Dial { name: String, row: i32, column: i32, events: DialEvents },
    TouchStrip { name: String, row: i32, column: i32, events: TouchStripEvents, display: Display },
    Screen { name: String, row: i32, column: i32, display: Display },
}

/// What reports a control sends.
pub enum Events {
    Key(KeyEvents),
    Button(KeyEvents),
    TouchDial(TouchDialEvents),
    Dial(DialEvents),
    TouchStrip(TouchStripEvents),
    Screen,
}

/// What a control is.
pub struct ControlModel {
    pub name: Seq<char>,
    pub row: i32,
    pub column: i32,
    pub events: Events,
    pub display: Option<DisplayModel>,
}

impl DeepView for Control {
    type V = ControlModel;

    open spec fn deep_view(&self) -> ControlModel {
        match self {
            Control::Key { name, row, column, events, display } => ControlModel {
                name: name@,
                row: *row,
                column: *column,
                events: Events::Key(*events),
                display: Some(display.deep_view()),
            },
            Control::Button { name, row, column, events } => ControlModel {
                name: name@,
                row: *row,
                column: *column,
                events: Events::Button(*events),
                display: None,
            },
            Control::TouchDial { name, row, column, events, display } => ControlModel {
                name: name@,
                row: *row,
                column: *column,
                events: Events::TouchDial(*events),
                display: Some(display.deep_view()),
            },
            Control::Dial { name, row, column, events } => ControlModel {
                name: name@,
                row: *row,
                column: *column,
                events: Events::Dial(*events),
                display: None,
            },
            Control::TouchStrip { name, row, column, events, display } => ControlModel {
                name: name@,
                row: *row,
                column: *column,
                events: Events::TouchStrip(*events),
                display: Some(display.deep_view()),
            },
            Control::Screen { name, row, column, display } => ControlModel {
                name: name@,
                row: *row,
                column: *column,
                events: Events::Screen,
                display: Some(display.deep_view()),
            },
        }
    }
}

/// How a kind of device is recognised, set up and used.
#[derive(Debug)]
pub struct Layout {
    pub name: String,
    pub candidate: String,
    pub match_expr: String,
    pub protocol_version: u8,
    pub init_sequence: Vec<InitCommand>,
    pub teardown_sequence: Vec<InitCommand>,
    pub heartbeats: Vec<Heartbeat>,
    pub controls: Vec<Control>,
    pub image_config: TextMap<ImageFormat>,
}

/// A device as the operating system lists it.
#[derive(Debug, PartialEq, Eq)]
pub struct HidDeviceCandidate {
    pub path: Vec<u8>,
    pub vendor_id: u16,
    pub product_id: u16,
    pub serial_number: String,
    pub usage_page: Option<u16>,
    pub usage: Option<u16>,
    pub interface_number: Option<i32>,
}

/// What a listed device is.
pub struct HidDeviceCandidateModel {
    pub path: Seq<u8>,
    pub vendor_id: u16,
    pub product_id: u16,
    pub serial_number: Seq<char>,
    pub usage_page: Option<u16>,
    pub usage: Option<u16>,
    pub interface_number: Option<i32>,
}

impl DeepView for HidDeviceCandidate {
    type V = HidDeviceCandidateModel;

    open spec fn deep_view(&self) -> HidDeviceCandidateModel {
        HidDeviceCandidateModel {
            path: self.path@,
            vendor_id: self.vendor_id,
            product_id: self.product_id,
            serial_number: self.serial_number@,
            usage_page: self.usage_page,
            usage: self.usage,
            interface_number: self.interface_number,
        }
    }
}

impl Clone for HidDeviceCandidate {
    fn clone(&self) -> (r: Self)
        ensures
            r.deep_view() == self.deep_view(),
    {
        HidDeviceCandidate {
            path: self.path.clone(),
            vendor_id: self.vendor_id,
            product_id: self.product_id,
            serial_number: self.serial_number.clone(),
            usage_page: self.usage_page,
            usage: self.usage,
            interface_number: self.interface_number,
        }
    }
}

// ---------------------------------------------------------------------------------------------
// Which devices a layout is for
// ---------------------------------------------------------------------------------------------

/// What tells devices apart: vendor, product and serial number.
pub open spec fn hardware_id_of(device: HidDeviceCandidateModel) -> Seq<char> {
    hex4(device.vendor_id) + seq![':'] + hex4(device.product_id) + seq![':'] + device.serial_number
}

impl HidDeviceCandidate {
    /// What tells the device apart: vendor, product and serial number.
    pub fn hardware_id(&self) -> (r: String)
        ensures
            r@ == hardware_id_of(self.deep_view()),
    {
        let mut text = String::new();
        push_hex4(&mut text, self.vendor_id);
        text.push(':');
        push_hex4(&mut text, self.product_id);
        text.push(':');
        push_text(&mut text, self.serial_number.as_str());
        assert(text@ =~= hardware_id_of(self.deep_view()));
        text
    }

    /// The bytes of the path as hexadecimal digits.
    pub fn path_hex(&self) -> (r: String)
        ensures
            r@ == hex_bytes(self.path@),
    {
        hex_text(&self.path)
    }
}

/// The names that an expression can ask of a listed device. What the operating system does not tell
/// is missing.
pub open spec fn device_names(device: HidDeviceCandidateModel) -> Bindings {
    let names = Map::<Seq<char>, ValueModel>::empty().insert(
        "vendor_id"@,
        ValueModel::Int(device.vendor_id as int),
    ).insert("product_id"@, ValueModel::Int(device.product_id as int)).insert(
        "serial_number"@,
        ValueModel::Str(device.serial_number),
    );
    let names = match device.usage_page {
        Some(usage_page) => names.insert("usage_page"@, ValueModel::Int(usage_page as int)),
        None => names,
    };
    let names = match device.usage {
        Some(usage) => names.insert("usage"@, ValueModel::Int(usage as int)),
        None => names,
    };
    match device.interface_number {
        Some(number) => names.insert("interface_number"@, ValueModel::Int(number as int)),
        None => names,
    }
}

/// The names of a listed device, and its firmware.
pub open spec fn firmware_names(device: HidDeviceCandidateModel, firmware: Seq<char>) -> Bindings {
    device_names(device).insert("firmware"@, ValueModel::Str(firmware))
}

fn bind(names: &mut TextMap<Value>, name: &str, value: Value)
    ensures
        final(names).deep_view() == old(names).deep_view().insert(name@, value.deep_view()),
{
    names.insert(name.to_owned(), value);
    assert(names.deep_view() =~= old(names).deep_view().insert(name@, value.deep_view()));
}

fn descriptor_context(descriptor: &HidDeviceCandidate) -> (r: TextMap<Value>)
    ensures
        r.deep_view() == device_names(descriptor.deep_view()),
{
    let mut names: TextMap<Value> = TextMap::new();
    assert(names.deep_view() =~= Map::<Seq<char>, ValueModel>::empty());
    bind(&mut names, "vendor_id", Value::Int(descriptor.vendor_id as i64));
    bind(&mut names, "product_id", Value::Int(descriptor.product_id as i64));
    bind(&mut names, "serial_number", Value::Str(descriptor.serial_number.clone()));
    if let Some(usage_page) = descriptor.usage_page {
        bind(&mut names, "usage_page", Value::Int(usage_page as i64));
    }
    if let Some(usage) = descriptor.usage {
        bind(&mut names, "usage", Value::Int(usage as i64));
    }
    if let Some(interface_number) = descriptor.interface_number {
        bind(&mut names, "interface_number", Value::Int(interface_number as i64));
    }
    names
}

impl Layout {
    /// What the layout's first expression answers for a listed device.
    pub fn matches_candidate(&self, descriptor: &HidDeviceCandidate) -> (r: Result<
        bool,
        PolicyError,
    >)
        ensures
            r == answer(self.candidate@, device_names(descriptor.deep_view())),
    {
        eval_expression(self.candidate.as_str(), &descriptor_context(descriptor))
    }

    /// What the layout's second expression answers for a device and its firmware.
    pub fn matches_firmware(&self, descriptor: &HidDeviceCandidate, firmware: &str) -> (r: Result<
        bool,
        PolicyError,
    >)
        ensures
            r == answer(self.match_expr@, firmware_names(descriptor.deep_view(), firmware@)),
    {
        let mut context = descriptor_context(descriptor);
        bind(&mut context, "firmware", Value::Str(firmware.to_owned()));
        eval_expression(self.match_expr.as_str(), &context)
    }
}

/// Whether the layout may be for the listed device. An expression that cannot be answered says no.
pub open spec fn may_be_for(layout: Layout, device: HidDeviceCandidateModel) -> bool {
    answer(layout.candidate@, device_names(device)) == Ok::<bool, PolicyError>(true)
}

/// Whether the layout is for the device with the firmware.
pub open spec fn is_for(
    layout: Layout,
    device: HidDeviceCandidateModel,
    firmware: Seq<char>,
) -> bool {
    may_be_for(layout, device) && answer(layout.match_expr@, firmware_names(device, firmware))
        == Ok::<bool, PolicyError>(true)
}

/// Why a device has no layout.
#[derive(Debug, PartialEq, Eq)]
pub enum LayoutError {
    /// No layout may be for a device like this.
    NoCandidate { hardware_id: String },
    /// None of the layouts that may be for it takes its firmware.
    NoMatch { hardware_id: String, firmware: String },
}

fn says_yes(answered: Result<bool, PolicyError>) -> (r: bool)
    ensures
        r == (answered == Ok::<bool, PolicyError>(true)),
{
    match answered {
        Ok(yes) => yes,
        Err(_) => false,
    }
}

/// Whether any layout may be for the listed device.
pub fn is_candidate(layouts: &Vec<Layout>, descriptor: &HidDeviceCandidate) -> (r: bool)
    ensures
        r == exists|i: int|
            0 <= i < layouts@.len() && may_be_for(#[trigger] layouts@[i], descriptor.deep_view()),
{
    let mut i: usize = 0;
    while i < layouts.len()
        invariant
            i <= layouts@.len(),
            forall|k: int|
                0 <= k < i ==> !may_be_for(#[trigger] layouts@[k], descriptor.deep_view()),
        decreases layouts@.len() - i,
    {
        if says_yes(layouts[i].matches_candidate(descriptor)) {
            assert(may_be_for(layouts@[i as int], descriptor.deep_view()));
            return true;
        }
        i += 1;
    }
    false
}

/// Whether the error says rightly why no layout is for the device: none may be, or of those that may
/// be none goes with the firmware.
pub open spec fn says_no_layout(
    error: LayoutError,
    layouts: Seq<Layout>,
    device: HidDeviceCandidateModel,
    firmware: Seq<char>,
) -> bool {
    match error {
        LayoutError::NoCandidate { hardware_id } => {
            &&& hardware_id@ == hardware_id_of(device)
            &&& forall|k: int|
                0 <= k < layouts.len() ==> !may_be_for(#[trigger] layouts[k], device)
        },
        LayoutError::NoMatch { hardware_id, firmware: seen } => {
            &&& hardware_id@ == hardware_id_of(device)
            &&& seen@ == firmware
            &&& exists|k: int| 0 <= k < layouts.len() && may_be_for(#[trigger] layouts[k], device)
            &&& forall|k: int|
                0 <= k < layouts.len() ==> !is_for(#[trigger] layouts[k], device, firmware)
        },
    }
}

/// Whether both expressions of a layout answer yes: the first for the listed device, and the second
/// for the device with its firmware.
pub open spec fn takes(
    layout: Layout,
    device: HidDeviceCandidateModel,
    firmware: Seq<char>,
) -> bool {
    &&& answer(layout.candidate@, device_names(device)) == Ok::<bool, PolicyError>(true)
    &&& answer(layout.match_expr@, firmware_names(device, firmware)) == Ok::<bool, PolicyError>(true)
}

/// A layout is for a device with a firmware exactly if its first expression takes the device and its
/// second expression takes the firmware.
pub proof fn layouts_take_device_and_firmware(
    layout: Layout,
    device: HidDeviceCandidateModel,
    firmware: Seq<char>,
)
    ensures
        is_for(layout, device, firmware) <==> takes(layout, device, firmware),
        is_for(layout, device, firmware) ==> may_be_for(layout, device),
        may_be_for(layout, device) <==> answer(layout.candidate@, device_names(device)) == Ok::<
            bool,
            PolicyError,
        >(true),
{
}

/// The first layout that is for the device with the firmware.
pub fn resolve_layout<'a>(
    layouts: &'a Vec<Layout>,
    descriptor: &HidDeviceCandidate,
    firmware: &str,
) -> (r: Result<&'a Layout, LayoutError>)
    ensures
        match r {
            Ok(layout) => exists|i: int|
                {
                    &&& 0 <= i < layouts@.len()
                    &&& *layout == #[trigger] layouts@[i]
                    &&& is_for(layouts@[i], descriptor.deep_view(), firmware@)
                    &&& forall|k: int|
                        0 <= k < i ==> !is_for(
                            #[trigger] layouts@[k],
                            descriptor.deep_view(),
                            firmware@,
                        )
                },
            Err(error) => says_no_layout(
                error,
                layouts@,
                descriptor.deep_view(),
                firmware@,
            ),
        },
        r matches Ok(layout) ==> takes(*layout, descriptor.deep_view(), firmware@),
        r matches Ok(layout) ==> exists|i: int|
            {
                &&& 0 <= i < layouts@.len()
                &&& *layout == #[trigger] layouts@[i]
                &&& forall|k: int|
                    0 <= k < i ==> !takes(#[trigger] layouts@[k], descriptor.deep_view(), firmware@)
            },
        r is Err <==> forall|k: int|
            0 <= k < layouts@.len() ==> !takes(
                #[trigger] layouts@[k],
                descriptor.deep_view(),
                firmware@,
            ),
        r matches Err(LayoutError::NoCandidate { .. }) <==> forall|k: int|
            0 <= k < layouts@.len() ==> answer(
                (#[trigger] layouts@[k]).candidate@,
                device_names(descriptor.deep_view()),
            ) != Ok::<bool, PolicyError>(true),
{
    if !is_candidate(layouts, descriptor) {
        return Err(LayoutError::NoCandidate { hardware_id: descriptor.hardware_id() });
    }
    let mut i: usize = 0;
    while i < layouts.len()
        invariant
            i <= layouts@.len(),
            forall|k: int|
                0 <= k < i ==> !is_for(
                    #[trigger] layouts@[k],
                    descriptor.deep_view(),
                    firmware@,
                ),
        decreases layouts@.len() - i,
    {
        if says_yes(layouts[i].matches_candidate(descriptor)) && says_yes(
            layouts[i].matches_firmware(descriptor, firmware),
        ) {
            assert(is_for(layouts@[i as int], descriptor.deep_view(), firmware@));
            return Ok(&layouts[i]);
        }
        i += 1;
    }
    Err(
        LayoutError::NoMatch {
            hardware_id: descriptor.hardware_id(),
            firmware: firmware.to_owned(),
        },
    )
}

/// What is wrong with the expressions of a layout.
#[derive(Debug, Clone, Copy, PartialEq, Eq, Structural)]
pub enum LintError {
    /// The first expression does not ask for both vendor and product.
    MissingFallback,
    /// The first expression cannot be read.
    Candidate(PolicyError),
    /// The second expression cannot be read.
    Match(PolicyError),
}

/// What is wrong with the expressions of a layout: the first has to speak of vendor and product,
/// since not every operating system tells more, and both have to be expressions.
pub open spec fn linted(candidate: Seq<char>, match_expr: Seq<char>) -> Result<(), LintError> {
    if !(contains_text(candidate, "vendor_id"@) && contains_text(candidate, "product_id"@)) {
        Err(LintError::MissingFallback)
    } else if let Err(error) = parsed(candidate) {
        Err(LintError::Candidate(error))
    } else if let Err(error) = parsed(match_expr) {
        Err(LintError::Match(error))
    } else {
        Ok(())
    }
}

/// Whether the expressions of a layout are in order.
pub fn lint_layout(candidate: &str, match_expr: &str) -> (r: Result<(), LintError>)
    ensures
        r == linted(candidate@, match_expr@),
{
    if !(contains(candidate, "vendor_id") && contains(candidate, "product_id")) {
        return Err(LintError::MissingFallback);
    }
    if let Err(error) = parse_expression(candidate) {
        return Err(LintError::Candidate(error));
    }
    if let Err(error) = parse_expression(match_expr) {
        return Err(LintError::Match(error));
    }
    Ok(())
}

/// Whether the layouts stand in the order of their names.
pub open spec fn in_name_order(layouts: Seq<Layout>) -> bool {
    forall|i: int, j: int|
        0 <= i < j < layouts.len() ==> !text_before(
            (#[trigger] layouts[j]).name@,
            (#[trigger] layouts[i]).name@,
        )
}

/// The layouts with the name, in the order in which they stand.
pub open spec fn named(layouts: Seq<Layout>, name: Seq<char>) -> Seq<Layout> {
    layouts.filter(|layout: Layout| layout.name@ == name)
}

proof fn lemma_insert_layout(list: Seq<Layout>, layout: Layout, at: int)
    requires
        in_name_order(list),
        0 <= at <= list.len(),
        forall|k: int| 0 <= k < at ==> !text_before(layout.name@, (#[trigger] list[k]).name@),
        at < list.len() ==> text_before(layout.name@, list[at].name@),
    ensures
        in_name_order(list.insert(at, layout)),
        forall|name: Seq<char>| #[trigger]
            named(list.insert(at, layout), name) == named(list.push(layout), name),
        list.insert(at, layout).to_multiset() == list.push(layout).to_multiset(),
{
    let longer = list.insert(at, layout);
    assert forall|j: int| at <= j < list.len() implies !text_before(
        (#[trigger] list[j]).name@,
        layout.name@,
    ) && list[j].name@ != layout.name@ by {
        if text_before(list[j].name@, layout.name@) {
            text_order_is_transitive(list[j].name@, layout.name@, list[at].name@);
            if j > at {
                assert(!text_before(list[j].name@, list[at].name@));
            }
        }
        text_order_is_total(list[j].name@, list[at].name@);
        text_order_is_total(layout.name@, list[at].name@);
    }
    assert forall|i: int, j: int| 0 <= i < j < longer.len() implies !text_before(
        (#[trigger] longer[j]).name@,
        (#[trigger] longer[i]).name@,
    ) by {
        let a = if i < at {
            i
        } else {
            i - 1
        };
        let b = if j < at {
            j
        } else {
            j - 1
        };
        if i != at && j != at {
            assert(longer[i] == list[a] && longer[j] == list[b]);
        } else if i == at {
            assert(longer[j] == list[b]);
        } else {
            assert(longer[i] == list[i]);
        }
    }
    let head = list.take(at);
    let tail = list.skip(at);
    assert(list =~= head + tail);
    assert(longer =~= head + (seq![layout] + tail));
    assert(list.push(layout) =~= head + (tail + seq![layout]));
    assert forall|name: Seq<char>| #[trigger]
        named(longer, name) == named(list.push(layout), name) by {
        let pred = |one: Layout| one.name@ == name;
        Seq::filter_distributes_over_add(head, seq![layout] + tail, pred);
        Seq::filter_distributes_over_add(head, tail + seq![layout], pred);
        Seq::filter_distributes_over_add(seq![layout], tail, pred);
        Seq::filter_distributes_over_add(tail, seq![layout], pred);
        if layout.name@ == name {
            assert forall|i: int| 0 <= i < tail.len() implies !pred(#[trigger] tail[i]) by {
                assert(tail[i] == list[at + i]);
            }
            lemma_filter_none(tail, pred);
            assert(seq![layout].filter(pred) + tail.filter(pred) =~= tail.filter(pred)
                + seq![layout].filter(pred));
        } else {
            assert forall|i: int| 0 <= i < seq![layout].len() implies !pred(
                #[trigger] seq![layout][i],
            ) by {}
            lemma_filter_none(seq![layout], pred);
            assert(seq![layout].filter(pred) + tail.filter(pred) =~= tail.filter(pred)
                + seq![layout].filter(pred));
        }
    }
    vstd::seq_lib::to_multiset_insert(list, at, layout);
    vstd::seq_lib::to_multiset_insert(list, list.len() as int, layout);
    assert(list.insert(list.len() as int, layout) =~= list.push(layout));
}

proof fn lemma_filter_none(list: Seq<Layout>, pred: spec_fn(Layout) -> bool)
    requires
        forall|i: int| 0 <= i < list.len() ==> !pred(#[trigger] list[i]),
    ensures
        list.filter(pred) == Seq::<Layout>::empty(),
    decreases list.len(),
{
    reveal(Seq::filter);
    if list.len() > 0 {
        assert forall|i: int| 0 <= i < list.drop_last().len() implies !pred(
            #[trigger] list.drop_last()[i],
        ) by {
            assert(list.drop_last()[i] == list[i]);
        }
        lemma_filter_none(list.drop_last(), pred);
        assert(!pred(list[list.len() - 1]));
    }
}

/// Whether a file with this extension holds a layout.
pub fn is_layout_extension(extension: Option<&str>) -> (r: bool)
    ensures
        r == (extension matches Some(text) && (text@ == "yml"@ || text@ == "yaml"@)),
{
    match extension {
        Some(text) => same_text(text, "yml") || same_text(text, "yaml"),
        None => false,
    }
}

/// The layouts in the order of their names. Layouts of one name keep their order.
pub fn sort_layouts(layouts: Vec<Layout>) -> (r: Vec<Layout>)
    ensures
        in_name_order(r@),
        r@.to_multiset() == layouts@.to_multiset(),
        forall|name: Seq<char>| #[trigger] named(r@, name) == named(layouts@, name),
        forall|i: int, j: int|
            0 <= i < j < r@.len() ==> !text_before(
                (#[trigger] r@[j]).name@,
                (#[trigger] r@[i]).name@,
            ),
{
    let ghost all = layouts@;
    let mut rest = layouts;
    let mut sorted: Vec<Layout> = Vec::new();
    proof {
        assert(all.take(0) =~= Seq::<Layout>::empty());
        assert(sorted@ =~= all.take(0));
        assert(rest@ =~= all.skip(0));
    }
    while rest.len() > 0
        invariant
            rest@.len() <= all.len(),
            rest@ == all.skip(all.len() - rest@.len()),
            in_name_order(sorted@),
            sorted@.to_multiset() == all.take(all.len() - rest@.len()).to_multiset(),
            forall|name: Seq<char>| #[trigger]
                named(sorted@, name) == named(all.take(all.len() - rest@.len()), name),
        decreases rest@.len(),
    {
        let ghost done = all.len() - rest@.len();
        let ghost before = sorted@;
        let layout = rest.remove(0);
        let n: usize = sorted.len();
        let mut at: usize = 0;
        while at < n && !is_before(layout.name.as_str(), sorted[at].name.as_str())
            invariant
                at <= n == sorted@.len(),
                forall|k: int|
                    0 <= k < at ==> !text_before(layout.name@, (#[trigger] sorted@[k]).name@),
            decreases n - at,
        {
            at += 1;
        }
        sorted.insert(at, layout);
        proof {
            lemma_insert_layout(before, layout, at as int);
            assert(all.take(done + 1) =~= all.take(done).push(layout));
            assert(rest@ =~= all.skip(done + 1));
            vstd::seq_lib::to_multiset_insert(before, before.len() as int, layout);
            vstd::seq_lib::to_multiset_insert(all.take(done), done, layout);
            assert(before.insert(before.len() as int, layout) =~= before.push(layout));
            assert(all.take(done).insert(done, layout) =~= all.take(done).push(layout));
            assert forall|name: Seq<char>| #[trigger]
                named(sorted@, name) == named(all.take(done + 1), name) by {
                let pred = |one: Layout| one.name@ == name;
                assert(named(before, name) == named(all.take(done), name));
                assert(named(sorted@, name) == named(before.push(layout), name));
                assert(before.push(layout) =~= before + seq![layout]);
                assert(all.take(done).push(layout) =~= all.take(done) + seq![layout]);
                Seq::filter_distributes_over_add(before, seq![layout], pred);
                Seq::filter_distributes_over_add(all.take(done), seq![layout], pred);
            }
        }
    }
    assert(all.take(all.len() as int) =~= all);
    sorted
}

// ---------------------------------------------------------------------------------------------
// What a layout says of a device
// ---------------------------------------------------------------------------------------------

/// The capability of a button that tells when it goes down and up.
pub open spec fn momentary_capability() -> CapabilityDescriptorModel {
    CapabilityDescriptorModel {
        capability_id: "button.momentary"@,
        family: "deckr.input.button"@,
        capability_type: "momentary"@,
        direction: "input"@,
        access: seq!["emits"@],
        constraints: Seq::empty(),
        event_types: seq!["down"@, "up"@],
        command_types: Seq::empty(),
    }
}

/// The capability of a button that tells when it was pressed.
pub open spec fn press_capability() -> CapabilityDescriptorModel {
    CapabilityDescriptorModel {
        capability_id: "button.press"@,
        family: "deckr.input.button"@,
        capability_type: "activation"@,
        direction: "input"@,
        access: seq!["emits"@],
        constraints: Seq::empty(),
        event_types: seq!["press"@],
        command_types: Seq::empty(),
    }
}

/// The capability of a dial that tells how it was turned.
pub open spec fn encoder_capability() -> CapabilityDescriptorModel {
    CapabilityDescriptorModel {
        capability_id: "encoder.relative"@,
        family: "deckr.input.encoder"@,
        capability_type: "relative"@,
        direction: "input"@,
        access: seq!["emits"@],
        constraints: Seq::empty(),
        event_types: seq!["rotate"@],
        command_types: Seq::empty(),
    }
}

/// The capability of a surface that tells of a gesture.
pub open spec fn touch_capability(event_type: Seq<char>) -> CapabilityDescriptorModel {
    CapabilityDescriptorModel {
        capability_id: "touch.gesture"@,
        family: "deckr.input.touch"@,
        capability_type: "gesture"@,
        direction: "input"@,
        access: seq!["emits"@],
        constraints: Seq::empty(),
        event_types: seq![event_type],
        command_types: Seq::empty(),
    }
}

/// A whole number as a JSON value.
pub open spec fn json_int(value: i32) -> JsonModel {
    if value >= 0 {
        JsonModel::Unsigned(value as u64)
    } else {
        JsonModel::Negative(value as i64)
    }
}

/// That something is as it is.
pub open spec fn fixed(subject: Seq<char>, value: JsonModel) -> CapabilityConstraintModel {
    CapabilityConstraintModel { constraint_type: "fixed"@, subject, value: Some(value) }
}

/// The capability of a display that takes images.
pub open spec fn raster_capability(format: ImageFormatModel) -> CapabilityDescriptorModel {
    CapabilityDescriptorModel {
        capability_id: "raster.bitmap"@,
        family: "deckr.output.raster"@,
        capability_type: "bitmap"@,
        direction: "output"@,
        access: seq!["settable"@],
        constraints: seq![
            fixed("width"@, JsonModel::Unsigned(format.width as u64)),
            fixed("height"@, JsonModel::Unsigned(format.height as u64)),
            fixed("rotation"@, json_int(format.rotation)),
        ],
        event_types: Seq::empty(),
        command_types: seq!["set_frame"@, "clear"@],
    }
}

/// The capability of a device that sleeps and wakes.
pub open spec fn power_capability_model() -> CapabilityDescriptorModel {
    CapabilityDescriptorModel {
        capability_id: "device.power"@,
        family: "deckr.device.power"@,
        capability_type: "screen"@,
        direction: "command"@,
        access: seq!["invokable"@],
        constraints: Seq::empty(),
        event_types: Seq::empty(),
        command_types: seq!["sleep"@, "wake"@],
    }
}

/// The kind of a control.
pub open spec fn kind_of(events: Events) -> Seq<char> {
    match events {
        Events::Key(_) => "key"@,
        Events::Button(_) => "button"@,
        Events::TouchDial(_) => "touch_dial"@,
        Events::Dial(_) => "dial"@,
        Events::TouchStrip(_) => "touch_strip"@,
        Events::Screen => "screen"@,
    }
}

/// The capabilities by which a control sends input.
pub open spec fn input_capabilities(events: Events) -> Seq<CapabilityDescriptorModel> {
    match events {
        Events::Key(_) => seq![momentary_capability(), press_capability()],
        Events::Button(_) => seq![momentary_capability(), press_capability()],
        Events::TouchDial(_) => seq![
            encoder_capability(),
            momentary_capability(),
            press_capability(),
            touch_capability("tap"@),
        ],
        Events::Dial(_) => seq![encoder_capability()],
        Events::TouchStrip(_) => seq![touch_capability("swipe"@)],
        Events::Screen => Seq::empty(),
    }
}

/// The capabilities by which a control takes output: images, if it has a display.
pub open spec fn output_capabilities(display: Option<DisplayModel>) -> Seq<
    CapabilityDescriptorModel,
> {
    match display {
        Some(display) => seq![raster_capability(display.format)],
        None => Seq::empty(),
    }
}

/// How a control is described: by its name, in its cell of the grid.
pub open spec fn described(control: ControlModel) -> ControlDescriptorModel {
    ControlDescriptorModel {
        control_id: control.name,
        kind: kind_of(control.events),
        label: Some(control.name),
        geometry: Some(
            ControlGeometryModel {
                x: control.column,
                y: control.row,
                width: Some(1u32),
                height: Some(1u32),
                unit: "grid"@,
            },
        ),
        input_capabilities: input_capabilities(control.events),
        output_capabilities: output_capabilities(control.display),
    }
}

/// How the controls of a layout are described.
pub open spec fn all_described(controls: Seq<ControlModel>) -> Seq<ControlDescriptorModel> {
    Seq::new(controls.len(), |i: int| described(controls[i]))
}

fn one_text(a: &str) -> (r: Vec<String>)
    ensures
        r.deep_view() == seq![a@],
{
    let mut list: Vec<String> = Vec::new();
    list.push(a.to_owned());
    assert(list.deep_view() =~= seq![a@]);
    list
}

fn two_texts(a: &str, b: &str) -> (r: Vec<String>)
    ensures
        r.deep_view() == seq![a@, b@],
{
    let mut list: Vec<String> = Vec::new();
    list.push(a.to_owned());
    list.push(b.to_owned());
    assert(list.deep_view() =~= seq![a@, b@]);
    list
}

fn no_texts() -> (r: Vec<String>)
    ensures
        r.deep_view() == Seq::<Seq<char>>::empty(),
{
    let list: Vec<String> = Vec::new();
    assert(list.deep_view() =~= Seq::<Seq<char>>::empty());
    list
}

fn no_constraints() -> (r: Vec<CapabilityConstraint>)
    ensures
        r.deep_view() == Seq::<CapabilityConstraintModel>::empty(),
{
    let list: Vec<CapabilityConstraint> = Vec::new();
    assert(list.deep_view() =~= Seq::<CapabilityConstraintModel>::empty());
    list
}

fn momentary_input_capability() -> (r: CapabilityDescriptor)
    ensures
        r.deep_view() == momentary_capability(),
{
    CapabilityDescriptor {
        capability_id: "button.momentary".to_owned(),
        family: "deckr.input.button".to_owned(),
        capability_type: "momentary".to_owned(),
        direction: "input".to_owned(),
        access: one_text("emits"),
        constraints: no_constraints(),
        event_types: two_texts("down", "up"),
        command_types: no_texts(),
    }
}

fn press_input_capability() -> (r: CapabilityDescriptor)
    ensures
        r.deep_view() == press_capability(),
{
    CapabilityDescriptor {
        capability_id: "button.press".to_owned(),
        family: "deckr.input.button".to_owned(),
        capability_type: "activation".to_owned(),
        direction: "input".to_owned(),
        access: one_text("emits"),
        constraints: no_constraints(),
        event_types: one_text("press"),
        command_types: no_texts(),
    }
}

fn button_input_capabilities() -> (r: Vec<CapabilityDescriptor>)
    ensures
        r.deep_view() == seq![momentary_capability(), press_capability()],
{
    let mut list: Vec<CapabilityDescriptor> = Vec::new();
    list.push(momentary_input_capability());
    list.push(press_input_capability());
    assert(list.deep_view() =~= seq![momentary_capability(), press_capability()]);
    list
}

fn encoder_input_capabilities() -> (r: Vec<CapabilityDescriptor>)
    ensures
        r.deep_view() == seq![encoder_capability()],
{
    let mut list: Vec<CapabilityDescriptor> = Vec::new();
    list.push(
        CapabilityDescriptor {
            capability_id: "encoder.relative".to_owned(),
            family: "deckr.input.encoder".to_owned(),
            capability_type: "relative".to_owned(),
            direction: "input".to_owned(),
            access: one_text("emits"),
            constraints: no_constraints(),
            event_types: one_text("rotate"),
            command_types: no_texts(),
        },
    );
    assert(list.deep_view() =~= seq![encoder_capability()]);
    list
}

fn touch_input_capability(event_type: &str) -> (r: CapabilityDescriptor)
    ensures
        r.deep_view() == touch_capability(event_type@),
{
    CapabilityDescriptor {
        capability_id: "touch.gesture".to_owned(),
        family: "deckr.input.touch".to_owned(),
        capability_type: "gesture".to_owned(),
        direction: "input".to_owned(),
        access: one_text("emits"),
        constraints: no_constraints(),
        event_types: one_text(event_type),
        command_types: no_texts(),
    }
}

fn fixed_constraint(subject: &str, value: JsonValue) -> (r: CapabilityConstraint)
    ensures
        r.deep_view() == fixed(subject@, value.deep_view()),
{
    CapabilityConstraint {
        constraint_type: "fixed".to_owned(),
        subject: subject.to_owned(),
        value: Some(value),
    }
}

fn raster_output_capability(format: &ImageFormat) -> (r: CapabilityDescriptor)
    ensures
        r.deep_view() == raster_capability(format.deep_view()),
{
    let rotation = if format.rotation >= 0 {
        JsonValue::Unsigned(format.rotation as u64)
    } else {
        JsonValue::Negative(format.rotation as i64)
    };
    let mut constraints: Vec<CapabilityConstraint> = Vec::new();
    constraints.push(fixed_constraint("width", JsonValue::Unsigned(format.width as u64)));
    constraints.push(fixed_constraint("height", JsonValue::Unsigned(format.height as u64)));
    constraints.push(fixed_constraint("rotation", rotation));
    assert(constraints.deep_view() =~= raster_capability(format.deep_view()).constraints);
    CapabilityDescriptor {
        capability_id: "raster.bitmap".to_owned(),
        family: "deckr.output.raster".to_owned(),
        capability_type: "bitmap".to_owned(),
        direction: "output".to_owned(),
        access: one_text("settable"),
        constraints,
        event_types: no_texts(),
        command_types: two_texts("set_frame", "clear"),
    }
}

fn power_capability() -> (r: CapabilityDescriptor)
    ensures
        r.deep_view() == power_capability_model(),
{
    CapabilityDescriptor {
        capability_id: "device.power".to_owned(),
        family: "deckr.device.power".to_owned(),
        capability_type: "screen".to_owned(),
        direction: "command".to_owned(),
        access: one_text("invokable"),
        constraints: no_constraints(),
        event_types: no_texts(),
        command_types: two_texts("sleep", "wake"),
    }
}

fn descriptor_of(
    name: &String,
    row: i32,
    column: i32,
    kind: &str,
    input_capabilities: Vec<CapabilityDescriptor>,
    display: Option<&Display>,
) -> (r: ControlDescriptor)
    ensures
        r.deep_view() == (ControlDescriptorModel {
            control_id: name@,
            kind: kind@,
            label: Some(name@),
            geometry: Some(
                ControlGeometryModel {
                    x: column,
                    y: row,
                    width: Some(1u32),
                    height: Some(1u32),
                    unit: "grid"@,
                },
            ),
            input_capabilities: input_capabilities.deep_view(),
            output_capabilities: output_capabilities(display.deep_view()),
        }),
{
    let mut output: Vec<CapabilityDescriptor> = Vec::new();
    if let Some(display) = display {
        output.push(raster_output_capability(&display.format));
    }
    assert(output.deep_view() =~= output_capabilities(display.deep_view()));
    ControlDescriptor {
        control_id: name.clone(),
        kind: kind.to_owned(),
        label: Some(name.clone()),
        geometry: Some(
            ControlGeometry {
                x: column,
                y: row,
                width: Some(1),
                height: Some(1),
                unit: "grid".to_owned(),
            },
        ),
        input_capabilities,
        output_capabilities: output,
    }
}

impl Control {
    fn descriptor(&self) -> (r: ControlDescriptor)
        ensures
            r.deep_view() == described(self.deep_view()),
    {
        match self {
            Control::Key { name, row, column, events, display } => descriptor_of(
                name,
                *row,
                *column,
                "key",
                button_input_capabilities(),
                Some(display),
            ),
            Control::Button { name, row, column, events } => descriptor_of(
                name,
                *row,
                *column,
                "button",
                button_input_capabilities(),
                None,
            ),
            Control::TouchDial { name, row, column, events, display } => {
                let mut capabilities = encoder_input_capabilities();
                let mut buttons = button_input_capabilities();
                let ghost first = capabilities.deep_view();
                let ghost second = buttons.deep_view();
                capabilities.append(&mut buttons);
                assert(capabilities.deep_view() =~= first + second);
                let tap = touch_input_capability("tap");
                capabilities.push(tap);
                assert(capabilities.deep_view() =~= (first + second).push(tap.deep_view()));
                assert(capabilities.deep_view() =~= seq![
                    encoder_capability(),
                    momentary_capability(),
                    press_capability(),
                    touch_capability("tap"@),
                ]);
                descriptor_of(name, *row, *column, "touch_dial", capabilities, Some(display))
            },
            Control::Dial { name, row, column, events } => descriptor_of(
                name,
                *row,
                *column,
                "dial",
                encoder_input_capabilities(),
                None,
            ),
            Control::TouchStrip { name, row, column, events, display } => {
                let mut capabilities: Vec<CapabilityDescriptor> = Vec::new();
                capabilities.push(touch_input_capability("swipe"));
                assert(capabilities.deep_view() =~= seq![touch_capability("swipe"@)]);
                descriptor_of(name, *row, *column, "touch_strip", capabilities, Some(display))
            },
            Control::Screen { name, row, column, display } => {
                let capabilities: Vec<CapabilityDescriptor> = Vec::new();
                assert(capabilities.deep_view() =~= Seq::<CapabilityDescriptorModel>::empty());
                descriptor_of(name, *row, *column, "screen", capabilities, Some(display))
            },
        }
    }
}

/// How a device with a layout is described.
pub open spec fn device_described(
    layout: Layout,
    device_id: Seq<char>,
    fingerprint: Seq<char>,
) -> DeviceDescriptorModel {
    DeviceDescriptorModel {
        device_id,
        fingerprint,
        display_name: layout.name@,
        manufacturer: Some("MiraBox"@),
        model: Some(layout.name@),
        serial_number: Some(fingerprint),
        controls: all_described(layout.controls.deep_view()),
        capabilities: seq![power_capability_model()],
    }
}

impl Layout {
    /// How the device is described.
    pub fn device_descriptor(&self, device_id: &str, fingerprint: &str, hid: &str) -> (r:
        DeviceDescriptor)
        ensures
            r.deep_view() == device_described(*self, device_id@, fingerprint@),
    {
        let _ = hid;
        let mut capabilities: Vec<CapabilityDescriptor> = Vec::new();
        capabilities.push(power_capability());
        assert(capabilities.deep_view() =~= seq![power_capability_model()]);
        DeviceDescriptor {
            device_id: device_id.to_owned(),
            fingerprint: fingerprint.to_owned(),
            display_name: self.name.clone(),
            manufacturer: Some("MiraBox".to_owned()),
            model: Some(self.name.clone()),
            serial_number: Some(fingerprint.to_owned()),
            controls: self.control_descriptors(),
            capabilities,
        }
    }

    /// How the controls are described.
    pub fn control_descriptors(&self) -> (r: Vec<ControlDescriptor>)
        ensures
            r.deep_view() == all_described(self.controls.deep_view()),
    {
        let mut descriptors: Vec<ControlDescriptor> = Vec::new();
        let n: usize = self.controls.len();
        let mut i: usize = 0;
        while i < n
            invariant
                i <= n == self.controls@.len(),
                descriptors.deep_view() == all_described(self.controls.deep_view()).take(i as int),
            decreases n - i,
        {
            let ghost before = descriptors.deep_view();
            let descriptor = self.controls[i].descriptor();
            descriptors.push(descriptor);
            proof {
                let whole = all_described(self.controls.deep_view());
                assert(self.controls.deep_view()[i as int] == self.controls@[i as int].deep_view());
                assert(descriptors.deep_view() =~= before.push(descriptor.deep_view()));
                assert(descriptors.deep_view() =~= whole.take(i + 1));
            }
            i += 1;
        }
        proof {
            let whole = all_described(self.controls.deep_view());
            assert(whole.take(n as int) =~= whole);
        }
        descriptors
    }
}

// ---------------------------------------------------------------------------------------------
// What a device's input means
// ---------------------------------------------------------------------------------------------

/// What a report of a device means for a control.
#[derive(Debug, PartialEq, Eq)]
pub enum EventBinding {
    Key { control_name: String },
    Press { control_name: String },
    Clockwise { control_name: String },
    Counterclockwise { control_name: String },
    Tap { control_name: String },
    LeftSwipe { control_name: String },
    RightSwipe { control_name: String },
}

/// What happens at a control.
pub enum Gesture {
    Key,
    Press,
    Clockwise,
    Counterclockwise,
    Tap,
    LeftSwipe,
    RightSwipe,
}

impl DeepView for EventBinding {
    type V = (Gesture, Seq<char>);

    open spec fn deep_view(&self) -> (Gesture, Seq<char>) {
        match self {
            EventBinding::Key { control_name } => (Gesture::Key, control_name@),
            EventBinding::Press { control_name } => (Gesture::Press, control_name@),
            EventBinding::Clockwise { control_name } => (Gesture::Clockwise, control_name@),
            EventBinding::Counterclockwise { control_name } => (
                Gesture::Counterclockwise,
                control_name@,
            ),
            EventBinding::Tap { control_name } => (Gesture::Tap, control_name@),
            EventBinding::LeftSwipe { control_name } => (Gesture::LeftSwipe, control_name@),
            EventBinding::RightSwipe { control_name } => (Gesture::RightSwipe, control_name@),
        }
    }
}

/// What a report means at a control, if it is one of the control's reports. Where one report could
/// mean several things, the first of them counts.
pub open spec fn gesture_of(events: Events, report: u16) -> Option<Gesture> {
    match events {
        Events::Key(events) => key_gesture(events, report),
        Events::Button(events) => key_gesture(events, report),
        Events::TouchDial(events) => if events.tap == report {
            Some(Gesture::Tap)
        } else if events.clockwise == report {
            Some(Gesture::Clockwise)
        } else if events.counterclockwise == report {
            Some(Gesture::Counterclockwise)
        } else if events.key == Some(report) || events.press == Some(report) {
            Some(Gesture::Press)
        } else {
            None
        },
        Events::Dial(events) => if events.clockwise == report {
            Some(Gesture::Clockwise)
        } else if events.counterclockwise == report {
            Some(Gesture::Counterclockwise)
        } else if events.key == Some(report) || events.press == Some(report) {
            Some(Gesture::Press)
        } else {
            None
        },
        Events::TouchStrip(events) => if events.left_swipe == report {
            Some(Gesture::LeftSwipe)
        } else if events.right_swipe == report {
            Some(Gesture::RightSwipe)
        } else {
            None
        },
        Events::Screen => None,
    }
}

/// What a report means at a key or a button.
pub open spec fn key_gesture(events: KeyEvents, report: u16) -> Option<Gesture> {
    if events.key == Some(report) {
        Some(Gesture::Key)
    } else if events.press == Some(report) {
        Some(Gesture::Press)
    } else {
        None
    }
}

/// What a report means, and at which control: at the first that knows it.
pub open spec fn bound(controls: Seq<ControlModel>, report: u16) -> Option<(Gesture, Seq<char>)>
    decreases controls.len(),
{
    if controls.len() == 0 {
        None
    } else if let Some(gesture) = gesture_of(controls[0].events, report) {
        Some((gesture, controls[0].name))
    } else {
        bound(controls.drop_first(), report)
    }
}

/// The display of the first control that has the name and a display.
pub open spec fn display_of(controls: Seq<ControlModel>, name: Seq<char>) -> Option<u8>
    decreases controls.len(),
{
    if controls.len() == 0 {
        None
    } else if controls[0].name == name && controls[0].display is Some {
        Some(controls[0].display->0.id)
    } else {
        display_of(controls.drop_first(), name)
    }
}

/// The fields of an event of a type.
pub open spec fn event_value(event_type: Seq<char>) -> JsonModel {
    JsonModel::Object(seq![("eventType"@, JsonModel::Text(event_type))])
}

/// The fields of a swipe.
pub open spec fn swipe_value(direction: Seq<char>) -> JsonModel {
    JsonModel::Object(
        seq![
            ("direction"@, JsonModel::Text(direction)),
            ("eventType"@, JsonModel::Text("swipe"@)),
        ],
    )
}

/// The fields of a turn.
pub open spec fn turn_value(delta: JsonModel, direction: Seq<char>) -> JsonModel {
    JsonModel::Object(seq![("delta"@, delta), ("direction"@, JsonModel::Text(direction))])
}

/// The inputs that a gesture makes: capability, type of event, and value. A key that is let go has
/// also been pressed.
pub open spec fn gesture_inputs(gesture: Gesture, payload: u8) -> Seq<
    (Seq<char>, Seq<char>, JsonModel),
> {
    match gesture {
        Gesture::Key => if payload == 0 {
            seq![
                ("button.momentary"@, "up"@, event_value("up"@)),
                ("button.press"@, "press"@, event_value("press"@)),
            ]
        } else {
            seq![("button.momentary"@, "down"@, event_value("down"@))]
        },
        Gesture::Press => seq![("button.press"@, "press"@, event_value("press"@))],
        Gesture::Clockwise => seq![
            (
                "encoder.relative"@,
                "rotate"@,
                turn_value(JsonModel::Unsigned(1), "clockwise"@),
            ),
        ],
        Gesture::Counterclockwise => seq![
            (
                "encoder.relative"@,
                "rotate"@,
                turn_value(JsonModel::Negative((-1) as i64), "counterclockwise"@),
            ),
        ],
        Gesture::Tap => seq![("touch.gesture"@, "tap"@, event_value("tap"@))],
        Gesture::LeftSwipe => seq![("touch.gesture"@, "swipe"@, swipe_value("left"@))],
        Gesture::RightSwipe => seq![("touch.gesture"@, "swipe"@, swipe_value("right"@))],
    }
}

/// The message of an input at a control of a device.
pub open spec fn input_body(
    device: DeviceRefModel,
    control_id: Seq<char>,
    input: (Seq<char>, Seq<char>, JsonModel),
) -> HardwareMessageBodyModel {
    HardwareMessageBodyModel::ControlInput {
        device_ref: device,
        control_id,
        capability_id: input.0,
        event_type: input.1,
        value: Some(input.2),
    }
}

/// The messages that an event of a device makes.
pub open spec fn translated(
    controls: Seq<ControlModel>,
    event: InteractionEvent,
    device: DeviceRefModel,
) -> Seq<HardwareMessageBodyModel> {
    match bound(controls, event.button_id) {
        Some((gesture, control_id)) => {
            let inputs = gesture_inputs(gesture, event.payload);
            Seq::new(inputs.len(), |i: int| input_body(device, control_id, inputs[i]))
        },
        None => Seq::empty(),
    }
}

fn is_report(report: Option<u16>, id: u16) -> (r: bool)
    ensures
        r == (report == Some(id)),
{
    match report {
        Some(report) => report == id,
        None => false,
    }
}

fn key_binding(name: &String, events: &KeyEvents, id: u16) -> (r: Option<EventBinding>)
    ensures
        r.deep_view() == match key_gesture(*events, id) {
            Some(gesture) => Some((gesture, name@)),
            None => None,
        },
{
    if is_report(events.key, id) {
        Some(EventBinding::Key { control_name: name.clone() })
    } else if is_report(events.press, id) {
        Some(EventBinding::Press { control_name: name.clone() })
    } else {
        None
    }
}

impl Control {
    fn binding(&self, event_id: u16) -> (r: Option<EventBinding>)
        ensures
            r.deep_view() == match gesture_of(self.deep_view().events, event_id) {
                Some(gesture) => Some((gesture, self.deep_view().name)),
                None => None,
            },
    {
        match self {
            Control::Key { name, row, column, events, display } => key_binding(
                name,
                events,
                event_id,
            ),
            Control::Button { name, row, column, events } => key_binding(name, events, event_id),
            Control::TouchDial { name, row, column, events, display } => if events.tap == event_id {
                Some(EventBinding::Tap { control_name: name.clone() })
            } else if events.clockwise == event_id {
                Some(EventBinding::Clockwise { control_name: name.clone() })
            } else if events.counterclockwise == event_id {
                Some(EventBinding::Counterclockwise { control_name: name.clone() })
            } else if is_report(events.key, event_id) || is_report(events.press, event_id) {
                Some(EventBinding::Press { control_name: name.clone() })
            } else {
                None
            },
            Control::Dial { name, row, column, events } => if events.clockwise == event_id {
                Some(EventBinding::Clockwise { control_name: name.clone() })
            } else if events.counterclockwise == event_id {
                Some(EventBinding::Counterclockwise { control_name: name.clone() })
            } else if is_report(events.key, event_id) || is_report(events.press, event_id) {
                Some(EventBinding::Press { control_name: name.clone() })
            } else {
                None
            },
            Control::TouchStrip { name, row, column, events, display } => if events.left_swipe
                == event_id {
                Some(EventBinding::LeftSwipe { control_name: name.clone() })
            } else if events.right_swipe == event_id {
                Some(EventBinding::RightSwipe { control_name: name.clone() })
            } else {
                None
            },
            Control::Screen { name, row, column, display } => None,
        }
    }

    fn display_named(&self, control_id: &str) -> (r: Option<u8>)
        ensures
            r == if self.deep_view().name == control_id@ && self.deep_view().display is Some {
                Some(self.deep_view().display->0.id)
            } else {
                None
            },
    {
        let (name, display) = match self {
            Control::Key { name, row, column, events, display } => (name, display),
            Control::TouchDial { name, row, column, events, display } => (name, display),
            Control::TouchStrip { name, row, column, events, display } => (name, display),
            Control::Screen { name, row, column, display } => (name, display),
            _ => return None,
        };
        if same_text(name.as_str(), control_id) {
            Some(display.id)
        } else {
            None
        }
    }
}

fn type_value(event_type: &str) -> (r: JsonValue)
    ensures
        r.deep_view() == event_value(event_type@),
{
    object_of_one("eventType", JsonValue::Text(event_type.to_owned()))
}

fn turn(delta: JsonValue, direction: &str) -> (r: JsonValue)
    ensures
        r.deep_view() == turn_value(delta.deep_view(), direction@),
{
    object_of_two("delta", delta, "direction", JsonValue::Text(direction.to_owned()))
}

fn swipe(direction: &str) -> (r: JsonValue)
    ensures
        r.deep_view() == swipe_value(direction@),
{
    object_of_two(
        "direction",
        JsonValue::Text(direction.to_owned()),
        "eventType",
        JsonValue::Text("swipe".to_owned()),
    )
}

fn control_input(
    manager_id: &str,
    device_id: &str,
    fingerprint: &str,
    control_id: &str,
    capability_id: &str,
    event_type: &str,
    value: JsonValue,
) -> (r: HardwareMessageBody)
    ensures
        r.deep_view() == input_body(
            DeviceRefModel {
                manager_id: manager_id@,
                device_id: device_id@,
                fingerprint: Some(fingerprint@),
            },
            control_id@,
            (capability_id@, event_type@, value.deep_view()),
        ),
{
    HardwareMessageBody::ControlInput {
        device_ref: DeviceRef {
            manager_id: manager_id.to_owned(),
            device_id: device_id.to_owned(),
            fingerprint: Some(fingerprint.to_owned()),
        },
        control_id: control_id.to_owned(),
        capability_id: capability_id.to_owned(),
        event_type: event_type.to_owned(),
        value: Some(value),
    }
}

impl Layout {
    /// What a report means, and at which control.
    pub fn binding_for_event(&self, event_id: u16) -> (r: Option<EventBinding>)
        ensures
            r.deep_view() == bound(self.controls.deep_view(), event_id),
    {
        let ghost all = self.controls.deep_view();
        let n: usize = self.controls.len();
        let mut i: usize = 0;
        assert(all.skip(0) =~= all);
        while i < n
            invariant
                i <= n == self.controls@.len(),
                all == self.controls.deep_view(),
                bound(all, event_id) == bound(all.skip(i as int), event_id),
            decreases n - i,
        {
            assert(all.skip(i as int)[0] == self.controls@[i as int].deep_view());
            let binding = self.controls[i].binding(event_id);
            if binding.is_some() {
                return binding;
            }
            assert(all.skip(i as int).drop_first() =~= all.skip(i + 1));
            i += 1;
        }
        None
    }

    /// The display of the control with the name.
    pub fn display_id_for_control(&self, control_id: &str) -> (r: Option<u8>)
        ensures
            r == display_of(self.controls.deep_view(), control_id@),
    {
        let ghost all = self.controls.deep_view();
        let n: usize = self.controls.len();
        let mut i: usize = 0;
        assert(all.skip(0) =~= all);
        while i < n
            invariant
                i <= n == self.controls@.len(),
                all == self.controls.deep_view(),
                display_of(all, control_id@) == display_of(all.skip(i as int), control_id@),
            decreases n - i,
        {
            assert(all.skip(i as int)[0] == self.controls@[i as int].deep_view());
            if let Some(id) = self.controls[i].display_named(control_id) {
                return Some(id);
            }
            assert(all.skip(i as int).drop_first() =~= all.skip(i + 1));
            i += 1;
        }
        None
    }

    /// The messages that an event of the device makes.
    pub fn translate_event(
        &self,
        event: InteractionEvent,
        manager_id: &str,
        device_id: &str,
        fingerprint: &str,
    ) -> (r: Vec<HardwareMessageBody>)
        ensures
            r.deep_view() == translated(
                self.controls.deep_view(),
                event,
                DeviceRefModel {
                    manager_id: manager_id@,
                    device_id: device_id@,
                    fingerprint: Some(fingerprint@),
                },
            ),
    {
        let ghost device = DeviceRefModel {
            manager_id: manager_id@,
            device_id: device_id@,
            fingerprint: Some(fingerprint@),
        };
        let mut bodies: Vec<HardwareMessageBody> = Vec::new();
        let (control_name, capability_id, event_type, value) = match self.binding_for_event(
            event.button_id,
        ) {
            None => {
                assert(bodies.deep_view() =~= Seq::<HardwareMessageBodyModel>::empty());
                return bodies;
            },
            Some(EventBinding::Key { control_name }) => {
                if event.payload == 0 {
                    bodies.push(
                        control_input(
                            manager_id,
                            device_id,
                            fingerprint,
                            control_name.as_str(),
                            "button.momentary",
                            "up",
                            type_value("up"),
                        ),
                    );
                    (control_name, "button.press", "press", type_value("press"))
                } else {
                    (control_name, "button.momentary", "down", type_value("down"))
                }
            },
            Some(EventBinding::Press { control_name }) => (
                control_name,
                "button.press",
                "press",
                type_value("press"),
            ),
            Some(EventBinding::Clockwise { control_name }) => (
                control_name,
                "encoder.relative",
                "rotate",
                turn(JsonValue::Unsigned(1), "clockwise"),
            ),
            Some(EventBinding::Counterclockwise { control_name }) => (
                control_name,
                "encoder.relative",
                "rotate",
                turn(JsonValue::Negative(-1), "counterclockwise"),
            ),
            Some(EventBinding::Tap { control_name }) => (
                control_name,
                "touch.gesture",
                "tap",
                type_value("tap"),
            ),
            Some(EventBinding::LeftSwipe { control_name }) => (
                control_name,
                "touch.gesture",
                "swipe",
                swipe("left"),
            ),
            Some(EventBinding::RightSwipe { control_name }) => (
                control_name,
                "touch.gesture",
                "swipe",
                swipe("right"),
            ),
        };
        bodies.push(
            control_input(
                manager_id,
                device_id,
                fingerprint,
                control_name.as_str(),
                capability_id,
                event_type,
                value,
            ),
        );
        assert(bodies.deep_view() =~= translated(self.controls.deep_view(), event, device));
        bodies
    }
}

// ---------------------------------------------------------------------------------------------
// Laws
// ---------------------------------------------------------------------------------------------

/// Whether a control is described as sending events of the type by the capability.
pub open spec fn announces(
    control: ControlDescriptorModel,
    capability_id: Seq<char>,
    event_type: Seq<char>,
) -> bool {
    exists|j: int|
        {
            &&& 0 <= j < control.input_capabilities.len()
            &&& (#[trigger] control.input_capabilities[j]).capability_id == capability_id
            &&& control.input_capabilities[j].event_types.contains(event_type)
        }
}

proof fn lemma_bound(controls: Seq<ControlModel>, report: u16)
    ensures
        bound(controls, report) matches Some((gesture, name)) ==> exists|i: int|
            {
                &&& 0 <= i < controls.len()
                &&& (#[trigger] controls[i]).name == name
                &&& gesture_of(controls[i].events, report) == Some(gesture)
            },
    decreases controls.len(),
{
    if controls.len() > 0 && gesture_of(controls[0].events, report) is None {
        let rest = controls.drop_first();
        lemma_bound(rest, report);
        if let Some((gesture, name)) = bound(rest, report) {
            let i = choose|i: int|
                {
                    &&& 0 <= i < rest.len()
                    &&& (#[trigger] rest[i]).name == name
                    &&& gesture_of(rest[i].events, report) == Some(gesture)
                };
            assert(controls[i + 1] == rest[i]);
        }
    }
}

proof fn lemma_announced(control: ControlModel, report: u16, payload: u8, k: int)
    requires
        gesture_of(control.events, report) matches Some(gesture) && 0 <= k < gesture_inputs(
            gesture,
            payload,
        ).len() && !(control.events is Dial && gesture is Press),
    ensures
        ({
            let input = gesture_inputs(gesture_of(control.events, report)->0, payload)[k];
            announces(described(control), input.0, input.1)
        }),
{
    let capabilities = described(control).input_capabilities;
    let gesture = gesture_of(control.events, report)->0;
    let input = gesture_inputs(gesture, payload)[k];
    let j: int = match control.events {
        Events::TouchDial(_) => match gesture {
            Gesture::Press => 2,
            Gesture::Tap => 3,
            _ => 0,
        },
        Events::Key(_) | Events::Button(_) => if input.0 == "button.press"@ {
            1
        } else {
            0
        },
        _ => 0,
    };
    reveal_strlit("button.press");
    reveal_strlit("button.momentary");
    assert("button.press"@.len() != "button.momentary"@.len());
    let types = capabilities[j].event_types;
    assert(capabilities[j].capability_id == input.0);
    if types[0] != input.1 {
        assert(types[1] == input.1);
    }
    assert(types.contains(input.1));
}

/// Every input is one that the device's description announces: it comes from a control of the
/// layout, by a capability and of a type that the control is described with. Presses of a plain dial
/// are the exception: a plain dial is described as an encoder alone.
pub proof fn inputs_are_announced(controls: Seq<ControlModel>, event: InteractionEvent, k: int)
    requires
        bound(controls, event.button_id) matches Some((gesture, _)) && 0 <= k < gesture_inputs(
            gesture,
            event.payload,
        ).len(),
    ensures
        ({
            let (gesture, name) = bound(controls, event.button_id)->0;
            let input = gesture_inputs(gesture, event.payload)[k];
            exists|i: int|
                {
                    &&& 0 <= i < controls.len()
                    &&& (#[trigger] controls[i]).name == name
                    &&& (controls[i].events is Dial && gesture is Press) || announces(
                        described(controls[i]),
                        input.0,
                        input.1,
                    )
                }
        }),
{
    lemma_bound(controls, event.button_id);
    let (gesture, name) = bound(controls, event.button_id)->0;
    let i = choose|i: int|
        {
            &&& 0 <= i < controls.len()
            &&& (#[trigger] controls[i]).name == name
            &&& gesture_of(controls[i].events, event.button_id) == Some(gesture)
        };
    if !(controls[i].events is Dial && gesture is Press) {
        lemma_announced(controls[i], event.button_id, event.payload, k);
    }
}

/// A control takes images exactly if it is described as taking output.
pub proof fn displays_are_announced(controls: Seq<ControlModel>, name: Seq<char>)
    ensures
        display_of(controls, name) is Some <==> exists|i: int|
            {
                &&& 0 <= i < controls.len()
                &&& (#[trigger] controls[i]).name == name
                &&& described(controls[i]).output_capabilities.len() > 0
            },
    decreases controls.len(),
{
    if controls.len() > 0 {
        let rest = controls.drop_first();
        displays_are_announced(rest, name);
        if controls[0].name == name && controls[0].display is Some {
            assert(described(controls[0]).output_capabilities.len() > 0);
        } else if display_of(rest, name) is Some {
            let i = choose|i: int|
                {
                    &&& 0 <= i < rest.len()
                    &&& (#[trigger] rest[i]).name == name
                    &&& described(rest[i]).output_capabilities.len() > 0
                };
            assert(controls[i + 1] == rest[i]);
        } else {
            assert forall|i: int| 0 <= i < controls.len() implies !((
            #[trigger] controls[i]).name == name && described(
                controls[i],
            ).output_capabilities.len() > 0) by {
                if i > 0 {
                    assert(controls[i] == rest[i - 1]);
                }
            }
        }
    }
}

/// Devices of different vendors, products or serial numbers have different ids.
pub proof fn hardware_ids_are_distinct(a: HidDeviceCandidateModel, b: HidDeviceCandidateModel)
    requires
        hardware_id_of(a) == hardware_id_of(b),
    ensures
        a.vendor_id == b.vendor_id,
        a.product_id == b.product_id,
        a.serial_number == b.serial_number,
{
    hardware_ids_tell_the_device(a);
    hardware_ids_tell_the_device(b);
    lemma_hex4_distinct(a.vendor_id, b.vendor_id);
    lemma_hex4_distinct(a.product_id, b.product_id);
}

/// Different paths have different keys.
pub proof fn path_keys_are_distinct(a: Seq<u8>, b: Seq<u8>)
    requires
        hex_bytes(a) == hex_bytes(b),
    ensures
        a == b,
{
    lemma_hex_bytes_distinct(a, b);
}

/// What an expression sees of a listed device under each name: the number or the text that was
/// listed, and nothing where nothing was listed or the name is another. Behind the report of the
/// firmware it sees the firmware too, and nothing else changes.
pub proof fn expressions_see_the_device(
    device: HidDeviceCandidateModel,
    firmware: Seq<char>,
    name: Seq<char>,
)
    ensures
        ({
            let seen = evaluated(ExprModel::Identifier(name), device_names(device));
            let told = evaluated(ExprModel::Identifier(name), firmware_names(device, firmware));
            &&& name == "vendor_id"@ ==> seen == Evaluated::Ok(
                ValueModel::Int(device.vendor_id as int),
            )
            &&& name == "product_id"@ ==> seen == Evaluated::Ok(
                ValueModel::Int(device.product_id as int),
            )
            &&& name == "serial_number"@ ==> seen == Evaluated::Ok(
                ValueModel::Str(device.serial_number),
            )
            &&& name == "usage_page"@ ==> seen == Evaluated::Ok(
                match device.usage_page {
                    Some(page) => ValueModel::Int(page as int),
                    None => ValueModel::Missing,
                },
            )
            &&& name == "usage"@ ==> seen == Evaluated::Ok(
                match device.usage {
                    Some(usage) => ValueModel::Int(usage as int),
                    None => ValueModel::Missing,
                },
            )
            &&& name == "interface_number"@ ==> seen == Evaluated::Ok(
                match device.interface_number {
                    Some(number) => ValueModel::Int(number as int),
                    None => ValueModel::Missing,
                },
            )
            &&& !(seq![
                "vendor_id"@,
                "product_id"@,
                "serial_number"@,
                "usage_page"@,
                "usage"@,
                "interface_number"@,
            ].contains(name)) ==> seen == Evaluated::Ok(ValueModel::Missing)
            &&& name == "firmware"@ ==> told == Evaluated::Ok(ValueModel::Str(firmware))
            &&& name != "firmware"@ ==> told == seen
        }),
{
    reveal_strlit("vendor_id");
    reveal_strlit("product_id");
    reveal_strlit("serial_number");
    reveal_strlit("usage_page");
    reveal_strlit("usage");
    reveal_strlit("interface_number");
    reveal_strlit("firmware");
    assert("product_id"@[0] != "usage_page"@[0]);
    let names = seq![
        "vendor_id"@,
        "product_id"@,
        "serial_number"@,
        "usage_page"@,
        "usage"@,
        "interface_number"@,
    ];
    assert(names[0] == "vendor_id"@ && names[1] == "product_id"@ && names[2] == "serial_number"@
        && names[3] == "usage_page"@ && names[4] == "usage"@ && names[5] == "interface_number"@);
    assert("vendor_id"@.len() == 9 && "product_id"@.len() == 10 && "serial_number"@.len() == 13);
    assert("usage_page"@.len() == 10 && "usage"@.len() == 5 && "interface_number"@.len() == 16);
    assert("firmware"@.len() == 8);
    assert(names.contains(names[0]) && names.contains(names[1]) && names.contains(names[2]));
    assert(names.contains(names[3]) && names.contains(names[4]) && names.contains(names[5]));
}

/// The name of a control and its place in the grid: row, then column.
pub open spec fn place_of(control: Control) -> (Seq<char>, i32, i32) {
    match control {
        Control::Key { name, row, column, .. } => (name@, row, column),
        Control::Button { name, row, column, .. } => (name@, row, column),
        Control::TouchDial { name, row, column, .. } => (name@, row, column),
        Control::Dial { name, row, column, .. } => (name@, row, column),
        Control::TouchStrip { name, row, column, .. } => (name@, row, column),
        Control::Screen { name, row, column, .. } => (name@, row, column),
    }
}

/// The display that a control has, if it has one.
pub open spec fn shows_on(control: Control) -> Option<Display> {
    match control {
        Control::Key { display, .. } => Some(display),
        Control::TouchDial { display, .. } => Some(display),
        Control::TouchStrip { display, .. } => Some(display),
        Control::Screen { display, .. } => Some(display),
        _ => None,
    }
}

/// Whether the capability fixes the subject to the value, and to no other.
pub open spec fn fixes(
    capability: CapabilityDescriptorModel,
    subject: Seq<char>,
    value: JsonModel,
) -> bool {
    &&& exists|k: int|
        0 <= k < capability.constraints.len() && (#[trigger] capability.constraints[k]).subject
            == subject
    &&& forall|k: int|
        0 <= k < capability.constraints.len() && (#[trigger] capability.constraints[k]).subject
            == subject ==> capability.constraints[k].constraint_type == "fixed"@
            && capability.constraints[k].value == Some(value)
}

/// A control is described under its name, by its kind, in the one cell of the grid where it is: `x`
/// is the column and `y` the row.
pub proof fn controls_are_described_at_their_place(control: Control)
    ensures
        ({
            let told = described(control.deep_view());
            let (name, row, column) = place_of(control);
            &&& told.control_id == name
            &&& told.label == Some(name)
            &&& told.geometry matches Some(cell)
            &&& cell.x == column
            &&& cell.y == row
            &&& cell.width == Some(1u32)
            &&& cell.height == Some(1u32)
            &&& cell.unit == "grid"@
            &&& told.kind == match control {
                Control::Key { .. } => "key"@,
                Control::Button { .. } => "button"@,
                Control::TouchDial { .. } => "touch_dial"@,
                Control::Dial { .. } => "dial"@,
                Control::TouchStrip { .. } => "touch_strip"@,
                Control::Screen { .. } => "screen"@,
            }
        }),
{
}

/// A control with a display is described as taking images of the width, the height and the rotation
/// of its display, and as being asked to show a frame and to clear it; a control without a display
/// takes no output.
pub proof fn displays_are_described(control: Control)
    ensures
        ({
            let told = described(control.deep_view()).output_capabilities;
            match shows_on(control) {
                Some(display) => {
                    let format = display.format;
                    &&& told.len() == 1
                    &&& told[0].capability_id == "raster.bitmap"@
                    &&& told[0].family == "deckr.output.raster"@
                    &&& told[0].capability_type == "bitmap"@
                    &&& told[0].direction == "output"@
                    &&& told[0].access == seq!["settable"@]
                    &&& told[0].constraints.len() == 3
                    &&& fixes(told[0], "width"@, JsonModel::Unsigned(format.width as u64))
                    &&& fixes(told[0], "height"@, JsonModel::Unsigned(format.height as u64))
                    &&& format.rotation >= 0 ==> fixes(
                        told[0],
                        "rotation"@,
                        JsonModel::Unsigned(format.rotation as u64),
                    )
                    &&& format.rotation < 0 ==> fixes(
                        told[0],
                        "rotation"@,
                        JsonModel::Negative(format.rotation as i64),
                    )
                    &&& told[0].event_types.len() == 0
                    &&& told[0].command_types == seq!["set_frame"@, "clear"@]
                },
                None => told.len() == 0,
            }
        }),
{
    reveal_strlit("width");
    reveal_strlit("height");
    reveal_strlit("rotation");
    if let Some(display) = shows_on(control) {
        let told = described(control.deep_view()).output_capabilities[0];
        assert(told.constraints[0].subject == "width"@);
        assert(told.constraints[1].subject == "height"@);
        assert(told.constraints[2].subject == "rotation"@);
    }
}

/// What the display formats of two controls differ in, their descriptions differ in too.
pub proof fn formats_that_differ_are_described_differently(a: Control, b: Control)
    requires
        shows_on(a) is Some,
        shows_on(b) is Some,
        described(a.deep_view()).output_capabilities == described(b.deep_view()).output_capabilities,
    ensures
        shows_on(a)->0.format.width == shows_on(b)->0.format.width,
        shows_on(a)->0.format.height == shows_on(b)->0.format.height,
        shows_on(a)->0.format.rotation == shows_on(b)->0.format.rotation,
{
    displays_are_described(a);
    displays_are_described(b);
    let first = described(a.deep_view()).output_capabilities[0];
    let second = described(b.deep_view()).output_capabilities[0];
    assert(first == second);
    let k = choose|k: int|
        0 <= k < first.constraints.len() && (#[trigger] first.constraints[k]).subject == "width"@;
    assert(first.constraints[k].value == second.constraints[k].value);
    let k = choose|k: int|
        0 <= k < first.constraints.len() && (#[trigger] first.constraints[k]).subject == "height"@;
    assert(first.constraints[k].value == second.constraints[k].value);
    let k = choose|k: int|
        0 <= k < first.constraints.len() && (#[trigger] first.constraints[k]).subject
            == "rotation"@;
    assert(first.constraints[k].value == second.constraints[k].value);
}

/// Whether the capability is described as one by which input comes and nothing else.
pub open spec fn only_emits(capability: CapabilityDescriptorModel) -> bool {
    &&& capability.direction == "input"@
    &&& capability.access == seq!["emits"@]
    &&& capability.constraints.len() == 0
    &&& capability.command_types.len() == 0
}

/// What input each kind of control is described as sending: keys and buttons go down and up and are
/// pressed; dials turn; dials that can be tapped do all that; strips are swiped; screens send nothing.
pub proof fn inputs_are_described(control: Control)
    ensures
        ({
            let told = described(control.deep_view());
            let given = told.input_capabilities;
            &&& forall|k: int| 0 <= k < given.len() ==> only_emits(#[trigger] given[k])
            &&& match control {
                Control::Key { .. } | Control::Button { .. } => {
                    &&& given.len() == 2
                    &&& announces(told, "button.momentary"@, "down"@)
                    &&& announces(told, "button.momentary"@, "up"@)
                    &&& announces(told, "button.press"@, "press"@)
                },
                Control::TouchDial { .. } => {
                    &&& given.len() == 4
                    &&& announces(told, "encoder.relative"@, "rotate"@)
                    &&& announces(told, "button.momentary"@, "down"@)
                    &&& announces(told, "button.momentary"@, "up"@)
                    &&& announces(told, "button.press"@, "press"@)
                    &&& announces(told, "touch.gesture"@, "tap"@)
                },
                Control::Dial { .. } => given.len() == 1 && announces(
                    told,
                    "encoder.relative"@,
                    "rotate"@,
                ),
                Control::TouchStrip { .. } => given.len() == 1 && announces(
                    told,
                    "touch.gesture"@,
                    "swipe"@,
                ),
                Control::Screen { .. } => given.len() == 0,
            }
        }),
{
    let told = described(control.deep_view());
    let given = told.input_capabilities;
    assert(momentary_capability().event_types[0] == "down"@);
    assert(momentary_capability().event_types[1] == "up"@);
    assert(press_capability().event_types[0] == "press"@);
    assert(encoder_capability().event_types[0] == "rotate"@);
    assert(touch_capability("tap"@).event_types[0] == "tap"@);
    assert(touch_capability("swipe"@).event_types[0] == "swipe"@);
    match control {
        Control::Key { .. } | Control::Button { .. } => {
            assert(given[0] == momentary_capability() && given[1] == press_capability());
        },
        Control::TouchDial { .. } => {
            assert(given[0] == encoder_capability() && given[1] == momentary_capability());
            assert(given[2] == press_capability() && given[3] == touch_capability("tap"@));
        },
        Control::Dial { .. } => {
            assert(given[0] == encoder_capability());
        },
        Control::TouchStrip { .. } => {
            assert(given[0] == touch_capability("swipe"@));
        },
        Control::Screen { .. } => {},
    }
}

/// A device is described by its id, its fingerprint and the name of its layout, with every control of
/// the layout in its order, and as being put to sleep and woken.
pub proof fn devices_are_described(layout: Layout, device_id: Seq<char>, fingerprint: Seq<char>)
    ensures
        ({
            let told = device_described(layout, device_id, fingerprint);
            &&& told.device_id == device_id
            &&& told.fingerprint == fingerprint
            &&& told.serial_number == Some(fingerprint)
            &&& told.display_name == layout.name@
            &&& told.model == Some(layout.name@)
            &&& told.manufacturer == Some("MiraBox"@)
            &&& told.controls.len() == layout.controls@.len()
            &&& forall|i: int|
                0 <= i < layout.controls@.len() ==> #[trigger] told.controls[i] == described(
                    layout.controls@[i].deep_view(),
                )
            &&& told.capabilities.len() == 1
            &&& told.capabilities[0].capability_id == "device.power"@
            &&& told.capabilities[0].direction == "command"@
            &&& told.capabilities[0].access == seq!["invokable"@]
            &&& told.capabilities[0].command_types == seq!["sleep"@, "wake"@]
            &&& told.capabilities[0].constraints.len() == 0
            &&& told.capabilities[0].event_types.len() == 0
        }),
{
}

/// Whether the report is one of those that the control sends.
pub open spec fn sends(control: Control, report: u16) -> bool {
    match control {
        Control::Key { events, .. } | Control::Button { events, .. } => {
            events.key == Some(report) || events.press == Some(report)
        },
        Control::TouchDial { events, .. } => {
            ||| events.tap == report
            ||| events.clockwise == report
            ||| events.counterclockwise == report
            ||| events.key == Some(report)
            ||| events.press == Some(report)
        },
        Control::Dial { events, .. } => {
            ||| events.clockwise == report
            ||| events.counterclockwise == report
            ||| events.key == Some(report)
            ||| events.press == Some(report)
        },
        Control::TouchStrip { events, .. } => {
            events.left_swipe == report || events.right_swipe == report
        },
        Control::Screen { .. } => false,
    }
}

/// Whether the message is an input of the device at the control, by the capability and of the type.
pub open spec fn tells_input(
    message: HardwareMessageBodyModel,
    device: DeviceRefModel,
    control_id: Seq<char>,
    capability_id: Seq<char>,
    event_type: Seq<char>,
) -> bool {
    message matches HardwareMessageBodyModel::ControlInput {
        device_ref,
        control_id: told_control,
        capability_id: told_capability,
        event_type: told_type,
        value,
    } && device_ref == device && told_control == control_id && told_capability == capability_id
        && told_type == event_type && value is Some && value->0 is Object
}

/// The value that an input gives under a name.
pub open spec fn input_value(message: HardwareMessageBodyModel, name: Seq<char>) -> Option<JsonModel> {
    field_of(message->ControlInput_value->0->Object_0, name)
}

proof fn lemma_two_fields(first: Seq<char>, x: JsonModel, second: Seq<char>, y: JsonModel)
    requires
        first != second,
    ensures
        field_of(seq![(first, x), (second, y)], first) == Some(x),
        field_of(seq![(first, x), (second, y)], second) == Some(y),
{
    reveal_with_fuel(field_of, 3);
    assert(seq![(first, x), (second, y)].drop_first() =~= seq![(second, y)]);
}

proof fn lemma_not_sent(control: Control, report: u16)
    ensures
        sends(control, report) <==> gesture_of(control.deep_view().events, report) is Some,
{
}

proof fn lemma_bound_at(controls: Seq<Control>, models: Seq<ControlModel>, i: int, report: u16)
    requires
        controls.len() == models.len(),
        forall|k: int| 0 <= k < controls.len() ==> #[trigger] models[k] == controls[k].deep_view(),
        0 <= i < controls.len(),
        forall|k: int| 0 <= k < i ==> !sends(#[trigger] controls[k], report),
        sends(controls[i], report),
    ensures
        bound(models, report) == Some(
            (gesture_of(models[i].events, report)->0, models[i].name),
        ),
    decreases i,
{
    lemma_not_sent(controls[0], report);
    assert(models[0] == controls[0].deep_view());
    if i > 0 {
        assert(!sends(controls[0], report));
        let rest = controls.drop_first();
        let others = models.drop_first();
        assert forall|k: int| 0 <= k < rest.len() implies #[trigger] others[k]
            == rest[k].deep_view() by {
            assert(models[k + 1] == controls[k + 1].deep_view());
        }
        assert forall|k: int| 0 <= k < i - 1 implies !sends(#[trigger] rest[k], report) by {
            assert(!sends(controls[k + 1], report));
        }
        lemma_bound_at(rest, others, i - 1, report);
    }
}

/// A report that no control sends makes no message.
pub proof fn unknown_reports_make_no_messages(
    controls: Seq<Control>,
    models: Seq<ControlModel>,
    event: InteractionEvent,
    device: DeviceRefModel,
)
    requires
        controls.len() == models.len(),
        forall|k: int| 0 <= k < controls.len() ==> #[trigger] models[k] == controls[k].deep_view(),
        forall|k: int| 0 <= k < controls.len() ==> !sends(#[trigger] controls[k], event.button_id),
    ensures
        translated(models, event, device).len() == 0,
{
    lemma_bound(models, event.button_id);
    if let Some((gesture, name)) = bound(models, event.button_id) {
        let i = choose|i: int|
            {
                &&& 0 <= i < models.len()
                &&& (#[trigger] models[i]).name == name
                &&& gesture_of(models[i].events, event.button_id) == Some(gesture)
            };
        lemma_not_sent(controls[i], event.button_id);
        assert(!sends(controls[i], event.button_id));
    }
}

/// What a report means: it is an input at the first control that sends it. At a key or button, the
/// report of the key tells of going down, or with a payload of zero of going up and being pressed; the
/// other report tells of being pressed. Dials turn by one clockwise and by minus one the other way, and
/// strips are swiped to the left and to the right. Where a report could mean several things, the tap
/// comes first, then the turns, then the press.
pub proof fn reports_mean_inputs_at_their_control(
    controls: Seq<Control>,
    models: Seq<ControlModel>,
    i: int,
    event: InteractionEvent,
    device: DeviceRefModel,
)
    requires
        controls.len() == models.len(),
        forall|k: int| 0 <= k < controls.len() ==> #[trigger] models[k] == controls[k].deep_view(),
        0 <= i < controls.len(),
        sends(controls[i], event.button_id),
        forall|k: int| 0 <= k < i ==> !sends(#[trigger] controls[k], event.button_id),
    ensures
        ({
            let messages = translated(models, event, device);
            let name = place_of(controls[i]).0;
            let report = event.button_id;
            let pressed = messages.len() == 1 && is_typed(
                messages[0],
                device,
                name,
                "button.press"@,
                "press"@,
            );
            let turned = |delta: JsonModel, way: Seq<char>|
                messages.len() == 1 && tells_input(
                    messages[0],
                    device,
                    name,
                    "encoder.relative"@,
                    "rotate"@,
                ) && input_value(messages[0], "delta"@) == Some(delta) && input_value(
                    messages[0],
                    "direction"@,
                ) == Some(JsonModel::Text(way));
            let swiped = |way: Seq<char>|
                messages.len() == 1 && is_typed(
                    messages[0],
                    device,
                    name,
                    "touch.gesture"@,
                    "swipe"@,
                ) && input_value(messages[0], "direction"@) == Some(JsonModel::Text(way));
            match controls[i] {
                Control::Key { events, .. } | Control::Button { events, .. } => {
                    &&& events.key == Some(report) && event.payload != 0 ==> messages.len() == 1
                        && is_typed(messages[0], device, name, "button.momentary"@, "down"@)
                    &&& events.key == Some(report) && event.payload == 0 ==> messages.len() == 2
                        && is_typed(messages[0], device, name, "button.momentary"@, "up"@)
                        && is_typed(messages[1], device, name, "button.press"@, "press"@)
                    &&& events.key != Some(report) ==> pressed
                },
                Control::TouchDial { events, .. } => if events.tap == report {
                    messages.len() == 1 && is_typed(
                        messages[0],
                        device,
                        name,
                        "touch.gesture"@,
                        "tap"@,
                    )
                } else if events.clockwise == report {
                    turned(JsonModel::Unsigned(1), "clockwise"@)
                } else if events.counterclockwise == report {
                    turned(JsonModel::Negative((-1) as i64), "counterclockwise"@)
                } else {
                    pressed
                },
                Control::Dial { events, .. } => if events.clockwise == report {
                    turned(JsonModel::Unsigned(1), "clockwise"@)
                } else if events.counterclockwise == report {
                    turned(JsonModel::Negative((-1) as i64), "counterclockwise"@)
                } else {
                    pressed
                },
                Control::TouchStrip { events, .. } => if events.left_swipe == report {
                    swiped("left"@)
                } else {
                    swiped("right"@)
                },
                Control::Screen { .. } => true,
            }
        }),
{
    lemma_bound_at(controls, models, i, event.button_id);
    lemma_not_sent(controls[i], event.button_id);
    assert(models[i] == controls[i].deep_view());
    reveal_with_fuel(field_of, 3);
    reveal_strlit("eventType");
    reveal_strlit("direction");
    reveal_strlit("delta");
    assert("eventType"@[0] != "direction"@[0]);
    assert("delta"@.len() != "direction"@.len());
    let (right, left) = (JsonModel::Unsigned(1), JsonModel::Negative((-1) as i64));
    lemma_two_fields("delta"@, right, "direction"@, JsonModel::Text("clockwise"@));
    lemma_two_fields("delta"@, left, "direction"@, JsonModel::Text("counterclockwise"@));
    let messages = translated(models, event, device);
    let inputs = gesture_inputs(gesture_of(models[i].events, event.button_id)->0, event.payload);
    assert(messages.len() == inputs.len());
    assert(forall|k: int|
        0 <= k < inputs.len() ==> #[trigger] messages[k] == input_body(
            device,
            models[i].name,
            inputs[k],
        ));
}

/// Whether the message is such an input, and its value tells its type too.
pub open spec fn is_typed(
    message: HardwareMessageBodyModel,
    device: DeviceRefModel,
    control_id: Seq<char>,
    capability_id: Seq<char>,
    event_type: Seq<char>,
) -> bool {
    &&& tells_input(message, device, control_id, capability_id, event_type)
    &&& input_value(message, "eventType"@) == Some(JsonModel::Text(event_type))
}

/// The display of a control is that of the first control with the name that has one.
pub proof fn displays_are_found_by_name(controls: Seq<ControlModel>, name: Seq<char>, i: int)
    requires
        0 <= i < controls.len(),
        controls[i].name == name,
        controls[i].display is Some,
        forall|k: int|
            0 <= k < i ==> (#[trigger] controls[k]).name != name || controls[k].display is None,
    ensures
        display_of(controls, name) == Some(controls[i].display->0.id),
    decreases i,
{
    if i > 0 {
        assert(controls[0].name != name || controls[0].display is None);
        let rest = controls.drop_first();
        assert forall|k: int| 0 <= k < i - 1 implies (#[trigger] rest[k]).name != name
            || rest[k].display is None by {
            assert(rest[k] == controls[k + 1]);
        }
        displays_are_found_by_name(rest, name, i - 1);
    }
}

/// The id of a device can be read: the vendor and the product as four hexadecimal digits each, and
/// then the serial number.
pub proof fn hardware_ids_tell_the_device(device: HidDeviceCandidateModel)
    ensures
        ({
            let id = hardware_id_of(device);
            &&& id.len() == 10 + device.serial_number.len()
            &&& id.take(4) == hex4(device.vendor_id)
            &&& id[4] == ':'
            &&& id.subrange(5, 9) == hex4(device.product_id)
            &&& id[9] == ':'
            &&& id.skip(10) == device.serial_number
        }),
{
    assert(hex4(device.vendor_id).len() == 4 && hex4(device.product_id).len() == 4);
    lemma_id_parts(hex4(device.vendor_id), hex4(device.product_id), device.serial_number);
}

proof fn lemma_id_parts(vendor: Seq<char>, product: Seq<char>, serial: Seq<char>)
    requires
        vendor.len() == 4,
        product.len() == 4,
    ensures
        ({
            let id = vendor + seq![':'] + product + seq![':'] + serial;
            &&& id.len() == 10 + serial.len()
            &&& id.take(4) == vendor
            &&& id[4] == ':'
            &&& id.subrange(5, 9) == product
            &&& id[9] == ':'
            &&& id.skip(10) == serial
        }),
{
    let id = vendor + seq![':'] + product + seq![':'] + serial;
    assert(id.take(4) =~= vendor);
    assert(id.subrange(5, 9) =~= product);
    assert(id.skip(10) =~= serial);
}

/// Every control of a layout is described, in its order.
pub proof fn every_control_is_described(controls: Seq<Control>, models: Seq<ControlModel>, i: int)
    requires
        controls.len() == models.len(),
        forall|k: int| 0 <= k < controls.len() ==> #[trigger] models[k] == controls[k].deep_view(),
    ensures
        all_described(models).len() == controls.len(),
        0 <= i < controls.len() ==> all_described(models)[i] == described(controls[i].deep_view()),
{
}

/// The expressions of a layout are in order exactly if the first speaks of vendor and product and both
/// can be read; what is wrong is told in that order.
pub proof fn layouts_are_held_to_their_expressions(candidate: Seq<char>, match_expr: Seq<char>)
    ensures
        ({
            let fallback = contains_text(candidate, "vendor_id"@) && contains_text(
                candidate,
                "product_id"@,
            );
            &&& linted(candidate, match_expr) is Ok <==> fallback && parsed(candidate) is Ok
                && parsed(match_expr) is Ok
            &&& linted(candidate, match_expr) == Err::<(), LintError>(LintError::MissingFallback)
                <==> !fallback
            &&& fallback && parsed(candidate) is Err ==> linted(candidate, match_expr) == Err::<
                (),
                LintError,
            >(LintError::Candidate(parsed(candidate)->Err_0))
            &&& fallback && parsed(candidate) is Ok && parsed(match_expr) is Err ==> linted(
                candidate,
                match_expr,
            ) == Err::<(), LintError>(LintError::Match(parsed(match_expr)->Err_0))
        }),
{
}

/// What is told of a device without a layout: its id, and where some layout's first expression takes
/// the device, its firmware too.
pub proof fn devices_without_a_layout_are_told_of(
    error: LayoutError,
    layouts: Seq<Layout>,
    device: HidDeviceCandidateModel,
    firmware: Seq<char>,
)
    requires
        says_no_layout(error, layouts, device, firmware),
    ensures
        forall|k: int| 0 <= k < layouts.len() ==> !takes(#[trigger] layouts[k], device, firmware),
        match error {
            LayoutError::NoCandidate { hardware_id } => {
                &&& hardware_id@ == hardware_id_of(device)
                &&& forall|k: int|
                    0 <= k < layouts.len() ==> answer(
                        (#[trigger] layouts[k]).candidate@,
                        device_names(device),
                    ) != Ok::<bool, PolicyError>(true)
            },
            LayoutError::NoMatch { hardware_id, firmware: seen } => {
                &&& hardware_id@ == hardware_id_of(device)
                &&& seen@ == firmware
                &&& exists|k: int|
                    0 <= k < layouts.len() && answer(
                        (#[trigger] layouts[k]).candidate@,
                        device_names(device),
                    ) == Ok::<bool, PolicyError>(true)
            },
        },
{
    assert forall|k: int| 0 <= k < layouts.len() implies !takes(
        #[trigger] layouts[k],
        device,
        firmware,
    ) by {
        layouts_take_device_and_firmware(layouts[k], device, firmware);
        if error is NoCandidate {
            assert(!may_be_for(layouts[k], device));
        } else {
            assert(!is_for(layouts[k], device, firmware));
        }
    }
    match error {
        LayoutError::NoCandidate { .. } => {
            assert forall|k: int| 0 <= k < layouts.len() implies answer(
                (#[trigger] layouts[k]).candidate@,
                device_names(device),
            ) != Ok::<bool, PolicyError>(true) by {
                assert(!may_be_for(layouts[k], device));
            }
        },
        LayoutError::NoMatch { .. } => {
            let k = choose|k: int| 0 <= k < layouts.len() && may_be_for(#[trigger] layouts[k], device);
            assert(answer(layouts[k].candidate@, device_names(device)) == Ok::<bool, PolicyError>(
                true,
            ));
        },
    }
}

/// What is told of a value of `InitCommand`: each field under its own name.
pub proof fn init_command_is_told_by_field(value: InitCommand)
    ensures
        value.deep_view().cmd == value.cmd@,
        value.deep_view().args == value.args.deep_view(),
{
}

/// What is told of a value of `ImageFormat`: each field under its own name.
pub proof fn image_format_is_told_by_field(value: ImageFormat)
    ensures
        value.deep_view().width == value.width,
        value.deep_view().height == value.height,
        value.deep_view().format == value.format@,
        value.deep_view().rotation == value.rotation,
{
}

/// What is told of a value of `Display`: each field under its own name.
pub proof fn display_is_told_by_field(value: Display)
    ensures
        value.deep_view().id == value.id,
        value.deep_view().format == value.format.deep_view(),
{
}

/// What is told of a value of `HidDeviceCandidate`: each field under its own name.
pub proof fn hid_device_candidate_is_told_by_field(value: HidDeviceCandidate)
    ensures
        value.deep_view().path == value.path@,
        value.deep_view().vendor_id == value.vendor_id,
        value.deep_view().product_id == value.product_id,
        value.deep_view().serial_number == value.serial_number@,
        value.deep_view().usage_page == value.usage_page,
        value.deep_view().usage == value.usage,
        value.deep_view().interface_number == value.interface_number,
{
}

/// The layouts with a name are those that have it, in the order in which they stand among the others.
pub proof fn layouts_are_picked_by_name(layouts: Seq<Layout>, layout: Layout, name: Seq<char>)
    ensures
        named(Seq::empty(), name).len() == 0,
        layout.name@ == name ==> named(layouts.push(layout), name) == named(layouts, name).push(layout),
        layout.name@ != name ==> named(layouts.push(layout), name) == named(layouts, name),
        in_name_order(layouts) <==> forall|i: int, j: int|
            0 <= i < j < layouts.len() ==> !text_before(
                (#[trigger] layouts[j]).name@,
                (#[trigger] layouts[i]).name@,
            ),
{
    reveal(Seq::filter);
    assert(layouts.push(layout).drop_last() =~= layouts);
}

} // verus!
