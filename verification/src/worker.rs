//! What is asked of one device, and what the device says.

use vstd::prelude::*;
use vstd::slice::slice_subrange;

use crate::json::{field_of, find_text, text_value, JsonModel, JsonValue};
use crate::lanes::{
    DeviceDescriptor, DeviceDescriptorModel, DeviceRefModel, HardwareMessageBody,
    HardwareMessageBodyModel,
};
use crate::layout::{
    device_described, display_of, hardware_id_of, is_for, resolve_layout, says_no_layout, translated,
    ControlModel, HidDeviceCandidate, HidDeviceCandidateModel, Layout, LayoutError,
};
use crate::numeral::hex_bytes;
use crate::outside::{
    base64_standard_bytes, decode_base64_standard, lossy_text, text_from_utf8_lossy,
};
use crate::protocol::{
    commands_are_told_by_letters, encoded, event_of_report, images_follow_their_commands,
    nothing_else_is_told, number_at, report_bytes, values_are_told, word_at, DeviceCommand,
    DeviceCommandModel, MiraBoxProtocol, ProtocolError,
};
use crate::text::{chars_of, same_text, text_of};

verus! {

// ---------------------------------------------------------------------------------------------
// Commands from controllers
// ---------------------------------------------------------------------------------------------

/// What is asked of a device.
#[derive(Debug, PartialEq, Eq)]
pub enum RuntimeCommand {
    SetRasterFrame { control_id: String, image: Vec<u8> },
    ClearRaster { control_id: String },
    SleepDevice,
    WakeDevice,
    ResetDevice,
    Stop,
}

/// What a request is.
pub enum RuntimeCommandModel {
    SetRasterFrame { control_id: Seq<char>, image: Seq<u8> },
    ClearRaster { control_id: Seq<char> },
    SleepDevice,
    WakeDevice,
    ResetDevice,
    Stop,
}

impl DeepView for RuntimeCommand {
    type V = RuntimeCommandModel;

    open spec fn deep_view(&self) -> RuntimeCommandModel {
        match self {
            RuntimeCommand::SetRasterFrame { control_id, image } =>
                RuntimeCommandModel::SetRasterFrame { control_id: control_id@, image: image@ },
            RuntimeCommand::ClearRaster { control_id } => RuntimeCommandModel::ClearRaster {
                control_id: control_id@,
            },
            RuntimeCommand::SleepDevice => RuntimeCommandModel::SleepDevice,
            RuntimeCommand::WakeDevice => RuntimeCommandModel::WakeDevice,
            RuntimeCommand::ResetDevice => RuntimeCommandModel::ResetDevice,
            RuntimeCommand::Stop => RuntimeCommandModel::Stop,
        }
    }
}

/// Why a message is no request that a device can be asked.
#[derive(Debug, PartialEq, Eq)]
pub enum CommandError {
    /// A message that asks nothing.
    NotACommand,
    /// Something that no control and no device is asked.
    Unsupported { capability_id: String, command_type: String },
    /// A request to a display that names no control.
    MissingControlId,
    /// An image that is not there, or is no text.
    MissingImage,
    /// An encoding that is not there, or is no text.
    MissingEncoding,
    /// An encoding other than JPEG and PNG.
    UnsupportedEncoding,
    /// An image that is no Base64.
    InvalidImage,
    /// Parameters where none are taken.
    UnexpectedParams,
}

/// What is wrong with a request.
pub enum CommandErrorModel {
    NotACommand,
    Unsupported { capability_id: Seq<char>, command_type: Seq<char> },
    MissingControlId,
    MissingImage,
    MissingEncoding,
    UnsupportedEncoding,
    InvalidImage,
    UnexpectedParams,
}

impl DeepView for CommandError {
    type V = CommandErrorModel;

    open spec fn deep_view(&self) -> CommandErrorModel {
        match self {
            CommandError::NotACommand => CommandErrorModel::NotACommand,
            CommandError::Unsupported { capability_id, command_type } =>
                CommandErrorModel::Unsupported {
                capability_id: capability_id@,
                command_type: command_type@,
            },
            CommandError::MissingControlId => CommandErrorModel::MissingControlId,
            CommandError::MissingImage => CommandErrorModel::MissingImage,
            CommandError::MissingEncoding => CommandErrorModel::MissingEncoding,
            CommandError::UnsupportedEncoding => CommandErrorModel::UnsupportedEncoding,
            CommandError::InvalidImage => CommandErrorModel::InvalidImage,
            CommandError::UnexpectedParams => CommandErrorModel::UnexpectedParams,
        }
    }
}

/// A request without parameters.
pub open spec fn plain_request(
    params: Seq<(Seq<char>, JsonModel)>,
    command: RuntimeCommandModel,
) -> Result<RuntimeCommandModel, CommandErrorModel> {
    if params.len() > 0 {
        Err(CommandErrorModel::UnexpectedParams)
    } else {
        Ok(command)
    }
}

/// A request to show an image.
pub open spec fn frame_request(
    control_id: Option<Seq<char>>,
    params: Seq<(Seq<char>, JsonModel)>,
) -> Result<RuntimeCommandModel, CommandErrorModel> {
    let image = text_value(field_of(params, "image"@));
    let encoding = text_value(field_of(params, "encoding"@));
    if control_id is None {
        Err(CommandErrorModel::MissingControlId)
    } else if image is None {
        Err(CommandErrorModel::MissingImage)
    } else if encoding is None {
        Err(CommandErrorModel::MissingEncoding)
    } else if encoding->0 != "jpeg"@ && encoding->0 != "png"@ {
        Err(CommandErrorModel::UnsupportedEncoding)
    } else {
        match base64_standard_bytes(image->0) {
            Some(bytes) => Ok(
                RuntimeCommandModel::SetRasterFrame { control_id: control_id->0, image: bytes },
            ),
            None => Err(CommandErrorModel::InvalidImage),
        }
    }
}

/// What a message asks of a device.
pub open spec fn requested(body: HardwareMessageBodyModel) -> Result<
    RuntimeCommandModel,
    CommandErrorModel,
> {
    match body {
        HardwareMessageBodyModel::ControlCommand {
            control_id,
            capability_id,
            command_type,
            params,
            ..
        } => if capability_id == "raster.bitmap"@ && command_type == "set_frame"@ {
            frame_request(control_id, params)
        } else if capability_id == "raster.bitmap"@ && command_type == "clear"@ {
            match control_id {
                Some(control_id) => plain_request(
                    params,
                    RuntimeCommandModel::ClearRaster { control_id },
                ),
                None => Err(CommandErrorModel::MissingControlId),
            }
        } else if capability_id == "device.power"@ && command_type == "sleep"@ {
            plain_request(params, RuntimeCommandModel::SleepDevice)
        } else if capability_id == "device.power"@ && command_type == "wake"@ {
            plain_request(params, RuntimeCommandModel::WakeDevice)
        } else {
            Err(CommandErrorModel::Unsupported { capability_id, command_type })
        },
        _ => Err(CommandErrorModel::NotACommand),
    }
}

/// What a result of reading a request is.
pub open spec fn request_model(r: Result<RuntimeCommand, CommandError>) -> Result<
    RuntimeCommandModel,
    CommandErrorModel,
> {
    match r {
        Ok(command) => Ok(command.deep_view()),
        Err(error) => Err(error.deep_view()),
    }
}

fn ensure_empty_params(params: &Vec<(String, JsonValue)>) -> (r: Result<(), CommandError>)
    ensures
        r is Ok <==> params.deep_view().len() == 0,
        r matches Err(error) ==> error == CommandError::UnexpectedParams,
{
    if params.len() > 0 {
        Err(CommandError::UnexpectedParams)
    } else {
        Ok(())
    }
}

/// The request to show an image that parameters make, the bytes of the image being given: those
/// that its text was decoded to, or nothing where it was no Base64.
pub fn frame_command(control_id: String, encoding: &str, bytes: Option<Vec<u8>>) -> (r: Result<
    RuntimeCommand,
    CommandError,
>)
    ensures
        request_model(r) == if encoding@ != "jpeg"@ && encoding@ != "png"@ {
            Err::<RuntimeCommandModel, CommandErrorModel>(CommandErrorModel::UnsupportedEncoding)
        } else {
            match bytes {
                Some(image) => Ok(
                    RuntimeCommandModel::SetRasterFrame { control_id: control_id@, image: image@ },
                ),
                None => Err(CommandErrorModel::InvalidImage),
            }
        },
{
    if !same_text(encoding, "jpeg") && !same_text(encoding, "png") {
        return Err(CommandError::UnsupportedEncoding);
    }
    match bytes {
        Some(image) => Ok(RuntimeCommand::SetRasterFrame { control_id, image }),
        None => Err(CommandError::InvalidImage),
    }
}

/// What a message asks of a device.
pub fn runtime_command_from_body(body: HardwareMessageBody) -> (r: Result<
    RuntimeCommand,
    CommandError,
>)
    ensures
        request_model(r) == requested(body.deep_view()),
{
    match body {
        HardwareMessageBody::ControlCommand {
            device_ref: _,
            control_id,
            capability_id,
            command_type,
            params,
        } => {
            let raster = same_text(capability_id.as_str(), "raster.bitmap");
            let power = same_text(capability_id.as_str(), "device.power");
            if raster && same_text(command_type.as_str(), "set_frame") {
                let control_id = match control_id {
                    Some(control_id) => control_id,
                    None => return Err(CommandError::MissingControlId),
                };
                let image = match find_text(&params, "image") {
                    Some(image) => image,
                    None => return Err(CommandError::MissingImage),
                };
                let encoding = match find_text(&params, "encoding") {
                    Some(encoding) => encoding,
                    None => return Err(CommandError::MissingEncoding),
                };
                frame_command(
                    control_id,
                    encoding.as_str(),
                    decode_base64_standard(image.as_str()),
                )
            } else if raster && same_text(command_type.as_str(), "clear") {
                let control_id = match control_id {
                    Some(control_id) => control_id,
                    None => return Err(CommandError::MissingControlId),
                };
                ensure_empty_params(&params)?;
                Ok(RuntimeCommand::ClearRaster { control_id })
            } else if power && same_text(command_type.as_str(), "sleep") {
                ensure_empty_params(&params)?;
                Ok(RuntimeCommand::SleepDevice)
            } else if power && same_text(command_type.as_str(), "wake") {
                ensure_empty_params(&params)?;
                Ok(RuntimeCommand::WakeDevice)
            } else {
                Err(CommandError::Unsupported { capability_id, command_type })
            }
        },
        _ => Err(CommandError::NotACommand),
    }
}

// ---------------------------------------------------------------------------------------------
// Reports to the device
// ---------------------------------------------------------------------------------------------

/// The device commands of a request. A request to a control without a display comes to nothing.
pub open spec fn request_commands(
    controls: Seq<ControlModel>,
    command: RuntimeCommandModel,
) -> Seq<DeviceCommandModel> {
    match command {
        RuntimeCommandModel::SetRasterFrame { control_id, image } => match display_of(
            controls,
            control_id,
        ) {
            Some(key) => seq![
                DeviceCommandModel::SetKeyImage { key, image },
                DeviceCommandModel::Refresh,
            ],
            None => Seq::empty(),
        },
        RuntimeCommandModel::ClearRaster { control_id } => match display_of(controls, control_id) {
            Some(key) => seq![
                DeviceCommandModel::ClearKey { target: key as u32 },
                DeviceCommandModel::Refresh,
            ],
            None => Seq::empty(),
        },
        RuntimeCommandModel::SleepDevice => seq![DeviceCommandModel::SleepDisplay],
        RuntimeCommandModel::WakeDevice => seq![DeviceCommandModel::WakeDisplay],
        RuntimeCommandModel::ResetDevice => seq![
            DeviceCommandModel::ClearKey { target: 0xFF },
            DeviceCommandModel::Refresh,
        ],
        RuntimeCommandModel::Stop => Seq::empty(),
    }
}

/// The reports of a row of device commands, or what is wrong with the first that has none.
pub open spec fn all_encoded(version: int, commands: Seq<DeviceCommandModel>) -> Result<
    Seq<Seq<u8>>,
    ProtocolError,
>
    decreases commands.len(),
{
    if commands.len() == 0 {
        Ok(Seq::empty())
    } else {
        match all_encoded(version, commands.drop_last()) {
            Err(error) => Err(error),
            Ok(reports) => match encoded(version, commands.last()) {
                Err(error) => Err(error),
                Ok(more) => Ok(reports + more),
            },
        }
    }
}

/// The reports of a request.
pub open spec fn request_reports(
    version: int,
    controls: Seq<ControlModel>,
    command: RuntimeCommandModel,
) -> Result<Seq<Seq<u8>>, ProtocolError> {
    all_encoded(version, request_commands(controls, command))
}

fn device_commands(layout: &Layout, command: RuntimeCommand) -> (r: Vec<DeviceCommand>)
    ensures
        r.deep_view() == request_commands(layout.controls.deep_view(), command.deep_view()),
{
    let ghost wanted = request_commands(layout.controls.deep_view(), command.deep_view());
    let mut commands: Vec<DeviceCommand> = Vec::new();
    match command {
        RuntimeCommand::SetRasterFrame { control_id, image } => {
            if let Some(key) = layout.display_id_for_control(control_id.as_str()) {
                commands.push(DeviceCommand::SetKeyImage { key, image });
                commands.push(DeviceCommand::Refresh);
            }
        },
        RuntimeCommand::ClearRaster { control_id } => {
            if let Some(key) = layout.display_id_for_control(control_id.as_str()) {
                commands.push(DeviceCommand::ClearKey { target: key as u32 });
                commands.push(DeviceCommand::Refresh);
            }
        },
        RuntimeCommand::SleepDevice => {
            commands.push(DeviceCommand::SleepDisplay);
        },
        RuntimeCommand::WakeDevice => {
            commands.push(DeviceCommand::WakeDisplay);
        },
        RuntimeCommand::ResetDevice => {
            commands.push(DeviceCommand::ClearKey { target: 0xFF });
            commands.push(DeviceCommand::Refresh);
        },
        RuntimeCommand::Stop => {},
    }
    assert(commands.deep_view() =~= wanted);
    commands
}

proof fn lemma_encoding_fails(version: int, commands: Seq<DeviceCommandModel>, n: int)
    requires
        0 <= n <= commands.len(),
        all_encoded(version, commands.take(n)) is Err,
    ensures
        all_encoded(version, commands) == all_encoded(version, commands.take(n)),
    decreases commands.len(),
{
    if n < commands.len() {
        assert(commands.drop_last().take(n) =~= commands.take(n));
        lemma_encoding_fails(version, commands.drop_last(), n);
    } else {
        assert(commands.take(n) =~= commands);
    }
}

/// The reports of a request: all of them, or none where one of its commands has a value that the
/// device does not take.
pub fn apply_runtime_command(
    protocol: &MiraBoxProtocol,
    layout: &Layout,
    command: RuntimeCommand,
) -> (r: Result<Vec<Vec<u8>>, ProtocolError>)
    ensures
        match r {
            Ok(reports) => request_reports(
                protocol.version(),
                layout.controls.deep_view(),
                command.deep_view(),
            ) == Ok::<Seq<Seq<u8>>, ProtocolError>(report_bytes(reports@)),
            Err(error) => request_reports(
                protocol.version(),
                layout.controls.deep_view(),
                command.deep_view(),
            ) == Err::<Seq<Seq<u8>>, ProtocolError>(error),
        },
{
    let commands = device_commands(layout, command);
    let ghost all = commands.deep_view();
    let mut reports: Vec<Vec<u8>> = Vec::new();
    let n: usize = commands.len();
    let mut i: usize = 0;
    assert(report_bytes(reports@) =~= Seq::<Seq<u8>>::empty());
    assert(all.take(0) =~= Seq::<DeviceCommandModel>::empty());
    while i < n
        invariant
            i <= n == commands@.len(),
            all == commands.deep_view(),
            all_encoded(protocol.version(), all.take(i as int)) == Ok::<
                Seq<Seq<u8>>,
                ProtocolError,
            >(report_bytes(reports@)),
            all == request_commands(layout.controls.deep_view(), command.deep_view()),
        decreases n - i,
    {
        let ghost before = report_bytes(reports@);
        proof {
            assert(all[i as int] == commands@[i as int].deep_view());
            assert(all.take(i + 1).drop_last() =~= all.take(i as int));
        }
        match protocol.encode_command(&commands[i]) {
            Ok(more) => {
                let mut more = more;
                let ghost added = report_bytes(more@);
                reports.append(&mut more);
                assert(report_bytes(reports@) =~= before + added);
            },
            Err(error) => {
                proof {
                    lemma_encoding_fails(protocol.version(), all, i + 1);
                }
                return Err(error);
            },
        }
        i += 1;
    }
    assert(all.take(n as int) =~= all);
    Ok(reports)
}

// ---------------------------------------------------------------------------------------------
// Firmware
// ---------------------------------------------------------------------------------------------

/// The text without the characters `c` at its end.
pub open spec fn without_trailing(text: Seq<char>, c: char) -> Seq<char>
    decreases text.len(),
{
    if text.len() > 0 && text.last() == c {
        without_trailing(text.drop_last(), c)
    } else {
        text
    }
}

/// The firmware that a report tells: what stands behind its first byte, without zeros at the end.
pub open spec fn firmware_of(report: Seq<u8>) -> Option<Seq<char>> {
    if report.len() < 2 {
        None
    } else {
        Some(without_trailing(lossy_text(report.skip(1)), '\0'))
    }
}

/// The text without the zeros at its end.
pub fn trim_zeros(text: &str) -> (r: String)
    ensures
        r@ == without_trailing(text@, '\0'),
        r@.len() > 0 ==> r@.last() != '\0',
{
    let chars = chars_of(text);
    let mut end: usize = chars.len();
    assert(chars@.take(end as int) =~= chars@);
    while end > 0 && chars[end - 1] == '\0'
        invariant
            end <= chars@.len(),
            without_trailing(chars@.take(end as int), '\0') == without_trailing(chars@, '\0'),
        decreases end,
    {
        assert(chars@.take(end as int).drop_last() =~= chars@.take(end - 1));
        end -= 1;
    }
    assert(chars@.subrange(0, end as int) =~= chars@.take(end as int));
    text_of(&chars, 0, end)
}

/// The firmware that a report tells, unless the report is too short to tell one.
pub fn decode_firmware(report: &[u8]) -> (r: Option<String>)
    ensures
        r.deep_view() == firmware_of(report@),
{
    if report.len() < 2 {
        return None;
    }
    let rest = slice_subrange(report, 1, report.len());
    assert(rest@ =~= report@.skip(1));
    let text = text_from_utf8_lossy(rest);
    Some(trim_zeros(text.as_str()))
}

// ---------------------------------------------------------------------------------------------
// One device
// ---------------------------------------------------------------------------------------------

/// Why a device cannot be used.
#[derive(Debug, PartialEq, Eq)]
pub enum ConnectError {
    /// The report of the firmware is too short.
    FirmwareTooShort,
    /// No layout is for the device.
    Layout(LayoutError),
    /// The layout asks for a protocol that there is not.
    Protocol(ProtocolError),
}

/// A device that is in use.
#[derive(Debug)]
pub struct Worker<'a> {
    pub manager_id: String,
    pub device_id: String,
    pub path_key: String,
    pub layout: &'a Layout,
    pub protocol: MiraBoxProtocol,
}

/// What to do with a request.
#[derive(Debug, PartialEq, Eq)]
pub enum CommandStep {
    /// Write the reports.
    Write(Vec<Vec<u8>>),
    /// Send the layout's last commands and be done.
    Finish,
    /// Give the device up.
    Fail(ProtocolError),
}

/// Whether the layout is the first that is for the device with the firmware.
pub open spec fn is_first_for(
    layout: Layout,
    layouts: Seq<Layout>,
    device: HidDeviceCandidateModel,
    firmware: Seq<char>,
) -> bool {
    exists|i: int|
        {
            &&& 0 <= i < layouts.len()
            &&& layout == #[trigger] layouts[i]
            &&& is_for(layouts[i], device, firmware)
            &&& forall|k: int| 0 <= k < i ==> !is_for(#[trigger] layouts[k], device, firmware)
        }
}

impl<'a> Worker<'a> {
    /// Takes a device into use: the report of its firmware decides on the layout, and the layout on
    /// the protocol.
    pub fn connect(
        manager_id: &str,
        layouts: &'a Vec<Layout>,
        descriptor: &HidDeviceCandidate,
        firmware_report: &[u8],
    ) -> (r: Result<Worker<'a>, ConnectError>)
        ensures
            match r {
                Ok(worker) => {
                    &&& worker.manager_id@ == manager_id@
                    &&& worker.device_id@ == hardware_id_of(descriptor.deep_view())
                    &&& worker.path_key@ == hex_bytes(descriptor.path@)
                    &&& firmware_of(firmware_report@) is Some
                    &&& is_first_for(
                        *worker.layout,
                        layouts@,
                        descriptor.deep_view(),
                        firmware_of(firmware_report@)->0,
                    )
                    &&& worker.protocol.version() == worker.layout.protocol_version
                    &&& 1 <= worker.protocol.version() <= 3
                },
                Err(ConnectError::FirmwareTooShort) => firmware_report@.len() < 2,
                Err(ConnectError::Layout(error)) => firmware_report@.len() >= 2 && says_no_layout(
                    error,
                    layouts@,
                    descriptor.deep_view(),
                    firmware_of(firmware_report@)->0,
                ),
                Err(ConnectError::Protocol(error)) => {
                    &&& error == ProtocolError::UnsupportedVersion
                    &&& firmware_report@.len() >= 2
                    &&& exists|i: int|
                        {
                            &&& 0 <= i < layouts@.len()
                            &&& is_first_for(
                                #[trigger] layouts@[i],
                                layouts@,
                                descriptor.deep_view(),
                                firmware_of(firmware_report@)->0,
                            )
                            &&& !(1 <= layouts@[i].protocol_version <= 3)
                        }
                },
            },
    {
        let firmware = match decode_firmware(firmware_report) {
            Some(firmware) => firmware,
            None => return Err(ConnectError::FirmwareTooShort),
        };
        let layout = match resolve_layout(layouts, descriptor, firmware.as_str()) {
            Ok(layout) => layout,
            Err(error) => return Err(ConnectError::Layout(error)),
        };
        assert(is_first_for(*layout, layouts@, descriptor.deep_view(), firmware@));
        let protocol = match MiraBoxProtocol::for_version(layout.protocol_version) {
            Ok(protocol) => protocol,
            Err(error) => return Err(ConnectError::Protocol(error)),
        };
        Ok(
            Worker {
                manager_id: manager_id.to_owned(),
                device_id: descriptor.hardware_id(),
                path_key: descriptor.path_hex(),
                layout,
                protocol,
            },
        )
    }

    /// How the device is described: its id is its fingerprint too.
    pub fn descriptor(&self) -> (r: DeviceDescriptor)
        ensures
            r.deep_view() == device_described(*self.layout, self.device_id@, self.device_id@),
    {
        self.layout.device_descriptor(
            self.device_id.as_str(),
            self.device_id.as_str(),
            self.device_id.as_str(),
        )
    }

    /// What to do with a request.
    pub fn on_command(&self, command: RuntimeCommand) -> (r: CommandStep)
        ensures
            match r {
                CommandStep::Finish => command.deep_view() is Stop,
                CommandStep::Write(reports) => !(command.deep_view() is Stop) && request_reports(
                    self.protocol.version(),
                    self.layout.controls.deep_view(),
                    command.deep_view(),
                ) == Ok::<Seq<Seq<u8>>, ProtocolError>(report_bytes(reports@)),
                CommandStep::Fail(error) => !(command.deep_view() is Stop) && request_reports(
                    self.protocol.version(),
                    self.layout.controls.deep_view(),
                    command.deep_view(),
                ) == Err::<Seq<Seq<u8>>, ProtocolError>(error),
            },
    {
        match command {
            RuntimeCommand::Stop => CommandStep::Finish,
            command => match apply_runtime_command(&self.protocol, self.layout, command) {
                Ok(reports) => CommandStep::Write(reports),
                Err(error) => CommandStep::Fail(error),
            },
        }
    }

    /// The messages that a report of the device makes.
    pub fn on_report(&self, report: &[u8]) -> (r: Vec<HardwareMessageBody>)
        ensures
            r.deep_view() == match event_of_report(self.protocol.version(), report@) {
                Some(event) => translated(
                    self.layout.controls.deep_view(),
                    event,
                    DeviceRefModel {
                        manager_id: self.manager_id@,
                        device_id: self.device_id@,
                        fingerprint: Some(self.device_id@),
                    },
                ),
                None => Seq::empty(),
            },
    {
        if let Ok(Some(event)) = self.protocol.parse_event(report) {
            return self.layout.translate_event(
                event,
                self.manager_id.as_str(),
                self.device_id.as_str(),
                self.device_id.as_str(),
            );
        }
        let bodies: Vec<HardwareMessageBody> = Vec::new();
        assert(bodies.deep_view() =~= Seq::<HardwareMessageBodyModel>::empty());
        bodies
    }
}

/// What the one who uses a device tells of it. The channel is the number of the way by which
/// requests reach the device.
#[derive(Debug)]
pub enum WorkerEvent {
    Connected { path_key: String, device_id: String, channel: u64, device: DeviceDescriptor },
    Input { device_id: String, body: HardwareMessageBody },
    Disconnected { path_key: String, device_id: String },
    Failed { path_key: String, error: String },
}

/// What is told of a device.
pub enum WorkerEventModel {
    Connected {
        path_key: Seq<char>,
        device_id: Seq<char>,
        channel: u64,
        device: DeviceDescriptorModel,
    },
    Input { device_id: Seq<char>, body: HardwareMessageBodyModel },
    Disconnected { path_key: Seq<char>, device_id: Seq<char> },
    Failed { path_key: Seq<char>, error: Seq<char> },
}

impl DeepView for WorkerEvent {
    type V = WorkerEventModel;

    open spec fn deep_view(&self) -> WorkerEventModel {
        match self {
            WorkerEvent::Connected { path_key, device_id, channel, device } =>
                WorkerEventModel::Connected {
                path_key: path_key@,
                device_id: device_id@,
                channel: *channel,
                device: device.deep_view(),
            },
            WorkerEvent::Input { device_id, body } => WorkerEventModel::Input {
                device_id: device_id@,
                body: body.deep_view(),
            },
            WorkerEvent::Disconnected { path_key, device_id } => WorkerEventModel::Disconnected {
                path_key: path_key@,
                device_id: device_id@,
            },
            WorkerEvent::Failed { path_key, error } => WorkerEventModel::Failed {
                path_key: path_key@,
                error: error@,
            },
        }
    }
}

// ---------------------------------------------------------------------------------------------
// Laws
// ---------------------------------------------------------------------------------------------

/// A request fails exactly if it is to show an image of more than 65535 bytes on a display that
/// there is.
pub proof fn only_large_images_fail(
    version: int,
    controls: Seq<ControlModel>,
    command: RuntimeCommandModel,
)
    ensures
        request_reports(version, controls, command) is Err <==> (command matches
            RuntimeCommandModel::SetRasterFrame { control_id, image } && display_of(
            controls,
            control_id,
        ) is Some && image.len() > 65535),
{
    let commands = request_commands(controls, command);
    reveal_with_fuel(all_encoded, 3);
    if commands.len() == 2 {
        assert(commands.drop_last() =~= seq![commands[0]]);
        assert(seq![commands[0]].drop_last() =~= Seq::<DeviceCommandModel>::empty());
    } else if commands.len() == 1 {
        assert(commands.drop_last() =~= Seq::<DeviceCommandModel>::empty());
    }
}

/// What is shown or cleared is followed by a refresh, so that the device shows it.
pub proof fn displays_are_refreshed(
    version: int,
    controls: Seq<ControlModel>,
    command: RuntimeCommandModel,
)
    requires
        command is SetRasterFrame || command is ClearRaster || command is ResetDevice,
        request_reports(version, controls, command) matches Ok(reports) && reports.len() > 0,
    ensures
        request_commands(controls, command).last() == DeviceCommandModel::Refresh,
{
}

/// The reports of one device command and then those of another.
pub open spec fn followed_by(
    first: Result<Seq<Seq<u8>>, ProtocolError>,
    second: Result<Seq<Seq<u8>>, ProtocolError>,
) -> Result<Seq<Seq<u8>>, ProtocolError> {
    match (first, second) {
        (Ok(first), Ok(second)) => Ok(first + second),
        (Err(error), _) => Err(error),
        (_, Err(error)) => Err(error),
    }
}

/// What a request has the device be sent. To show an image is to set it on the display of the control
/// and to refresh; to clear a control is to clear its display, and no other, and to refresh; to reset
/// the device is to clear all its displays and to refresh. A control without a display has nothing be
/// sent.
pub proof fn requests_reach_their_display(
    version: int,
    controls: Seq<ControlModel>,
    command: RuntimeCommandModel,
)
    ensures
        ({
            let reports = request_reports(version, controls, command);
            let refresh = encoded(version, DeviceCommandModel::Refresh);
            let nothing = Ok::<Seq<Seq<u8>>, ProtocolError>(Seq::empty());
            match command {
                RuntimeCommandModel::SetRasterFrame { control_id, image } => match display_of(
                    controls,
                    control_id,
                ) {
                    Some(key) => reports == followed_by(
                        encoded(version, DeviceCommandModel::SetKeyImage { key, image }),
                        refresh,
                    ),
                    None => reports == nothing,
                },
                RuntimeCommandModel::ClearRaster { control_id } => match display_of(
                    controls,
                    control_id,
                ) {
                    Some(key) => reports == followed_by(
                        encoded(version, DeviceCommandModel::ClearKey { target: key as u32 }),
                        refresh,
                    ),
                    None => reports == nothing,
                },
                RuntimeCommandModel::SleepDevice => reports == encoded(
                    version,
                    DeviceCommandModel::SleepDisplay,
                ),
                RuntimeCommandModel::WakeDevice => reports == encoded(
                    version,
                    DeviceCommandModel::WakeDisplay,
                ),
                RuntimeCommandModel::ResetDevice => reports == followed_by(
                    encoded(version, DeviceCommandModel::ClearKey { target: 0xFF }),
                    refresh,
                ),
                RuntimeCommandModel::Stop => reports == nothing,
            }
        }),
{
    let commands = request_commands(controls, command);
    reveal_with_fuel(all_encoded, 3);
    if commands.len() == 2 {
        assert(commands.drop_last() =~= seq![commands[0]]);
        assert(seq![commands[0]].drop_last() =~= Seq::<DeviceCommandModel>::empty());
        if let Ok(first) = encoded(version, commands[0]) {
            assert(Seq::<Seq<u8>>::empty() + first =~= first);
        }
    } else if commands.len() == 1 {
        assert(commands.drop_last() =~= Seq::<DeviceCommandModel>::empty());
        if let Ok(first) = encoded(version, commands[0]) {
            assert(Seq::<Seq<u8>>::empty() + first =~= first);
        }
    }
}

/// Clearing a control is two reports: the first tells the id of the control's display and no other
/// number, the second refreshes.
pub proof fn clearing_tells_the_display(
    version: int,
    controls: Seq<ControlModel>,
    control_id: Seq<char>,
    display: u8,
)
    requires
        display_of(controls, control_id) == Some(display),
    ensures
        ({
            let command = RuntimeCommandModel::ClearRaster { control_id };
            &&& request_reports(version, controls, command) matches Ok(reports)
            &&& reports.len() == 2
            &&& word_at(reports[0], 6, "CLE"@)
            &&& number_at(reports[0], 9, 4) == display
            &&& word_at(reports[1], 6, "STP"@)
        }),
{
    requests_reach_their_display(version, controls, RuntimeCommandModel::ClearRaster { control_id });
    let clear = DeviceCommandModel::ClearKey { target: display as u32 };
    commands_are_told_by_letters(version, clear);
    commands_are_told_by_letters(version, DeviceCommandModel::Refresh);
    values_are_told(version, clear);
    nothing_else_is_told(version, clear);
    nothing_else_is_told(version, DeviceCommandModel::Refresh);
}

/// Clearing controls with different displays has different reports, and only a display with the number
/// that stands for all displays is cleared as by a reset.
pub proof fn clearing_tells_displays_apart(
    version: int,
    controls: Seq<ControlModel>,
    a: Seq<char>,
    b: Seq<char>,
)
    requires
        display_of(controls, a) is Some,
        display_of(controls, b) is Some,
    ensures
        ({
            let first = request_reports(
                version,
                controls,
                RuntimeCommandModel::ClearRaster { control_id: a },
            );
            let second = request_reports(
                version,
                controls,
                RuntimeCommandModel::ClearRaster { control_id: b },
            );
            let reset = request_reports(version, controls, RuntimeCommandModel::ResetDevice);
            &&& first == second <==> display_of(controls, a) == display_of(controls, b)
            &&& first == reset <==> display_of(controls, a) == Some(0xFFu8)
        }),
{
    clearing_tells_the_display(version, controls, a, display_of(controls, a)->0);
    clearing_tells_the_display(version, controls, b, display_of(controls, b)->0);
    requests_reach_their_display(version, controls, RuntimeCommandModel::ClearRaster { control_id: a });
    requests_reach_their_display(version, controls, RuntimeCommandModel::ClearRaster { control_id: b });
    requests_reach_their_display(version, controls, RuntimeCommandModel::ResetDevice);
    let all = DeviceCommandModel::ClearKey { target: 0xFF };
    values_are_told(version, all);
    nothing_else_is_told(version, all);
}

/// Showing an image tells the display of the control and the length of the image in the first report,
/// and refreshes with the last.
pub proof fn showing_tells_the_display(
    version: int,
    controls: Seq<ControlModel>,
    control_id: Seq<char>,
    image: Seq<u8>,
    display: u8,
)
    requires
        display_of(controls, control_id) == Some(display),
        image.len() <= 65535,
    ensures
        ({
            let command = RuntimeCommandModel::SetRasterFrame { control_id, image };
            let size = if version >= 2 {
                1024int
            } else {
                512
            };
            &&& request_reports(version, controls, command) matches Ok(reports)
            &&& reports.len() >= 3
            &&& word_at(reports[0], 6, "BAT"@)
            &&& number_at(reports[0], 11, 2) == image.len()
            &&& reports[0][13] == display
            &&& forall|k: int|
                0 <= k < image.len() ==> reports[1 + #[trigger] (k / size)][1 + k % size]
                    == image[k]
            &&& word_at(reports.last(), 6, "STP"@)
        }),
{
    let command = RuntimeCommandModel::SetRasterFrame { control_id, image };
    requests_reach_their_display(version, controls, command);
    let show = DeviceCommandModel::SetKeyImage { key: display, image };
    commands_are_told_by_letters(version, show);
    commands_are_told_by_letters(version, DeviceCommandModel::Refresh);
    values_are_told(version, show);
    nothing_else_is_told(version, DeviceCommandModel::Refresh);
    images_follow_their_commands(version, show, image);
    let reports = request_reports(version, controls, command)->Ok_0;
    let shown = encoded(version, show)->Ok_0;
    let size = if version >= 2 {
        1024int
    } else {
        512
    };
    let n = shown.len() - 1;
    assert forall|k: int| 0 <= k < image.len() implies reports[1 + #[trigger] (k / size)][1 + k
        % size] == image[k] by {
        assert(k < n * size);
        if size == 512 {
            assert(n * size == n * 512);
        } else {
            assert(n * size == n * 1024);
        }
        assert(k / size < n);
        assert(reports[1 + k / size] == shown[1 + k / size]);
    }
}

/// Which messages ask what: each request comes from messages of one capability and one type, to a
/// control where the request is for one, and with the parameters that it takes. No message asks for a
/// reset or for the end.
pub proof fn messages_ask_what_they_say(body: HardwareMessageBodyModel, command: RuntimeCommandModel)
    ensures
        requested(body) == Ok::<RuntimeCommandModel, CommandErrorModel>(command) <==> {
            &&& body matches HardwareMessageBodyModel::ControlCommand {
                control_id,
                capability_id,
                command_type,
                params,
                ..
            }
            &&& match command {
                RuntimeCommandModel::SetRasterFrame { control_id: shown, image } => {
                    &&& capability_id == "raster.bitmap"@
                    &&& command_type == "set_frame"@
                    &&& control_id == Some(shown)
                    &&& field_of(params, "image"@) matches Some(JsonModel::Text(text))
                    &&& base64_standard_bytes(text) == Some(image)
                    &&& {
                        ||| field_of(params, "encoding"@) == Some(JsonModel::Text("jpeg"@))
                        ||| field_of(params, "encoding"@) == Some(JsonModel::Text("png"@))
                    }
                },
                RuntimeCommandModel::ClearRaster { control_id: cleared } => {
                    &&& capability_id == "raster.bitmap"@
                    &&& command_type == "clear"@
                    &&& control_id == Some(cleared)
                    &&& params.len() == 0
                },
                RuntimeCommandModel::SleepDevice => {
                    &&& capability_id == "device.power"@
                    &&& command_type == "sleep"@
                    &&& params.len() == 0
                },
                RuntimeCommandModel::WakeDevice => {
                    &&& capability_id == "device.power"@
                    &&& command_type == "wake"@
                    &&& params.len() == 0
                },
                RuntimeCommandModel::ResetDevice => false,
                RuntimeCommandModel::Stop => false,
            }
        },
{
    reveal_strlit("raster.bitmap");
    reveal_strlit("device.power");
    reveal_strlit("set_frame");
    reveal_strlit("clear");
    reveal_strlit("sleep");
    reveal_strlit("wake");
    assert("raster.bitmap"@.len() != "device.power"@.len());
    assert("set_frame"@.len() != "clear"@.len());
    assert("sleep"@.len() != "wake"@.len());
}

/// Trimming takes the characters off the end, all of them, and nothing else.
pub proof fn trimming_takes_the_end(text: Seq<char>, c: char)
    ensures
        ({
            let r = without_trailing(text, c);
            &&& r.len() <= text.len()
            &&& r == text.take(r.len() as int)
            &&& forall|k: int| r.len() <= k < text.len() ==> #[trigger] text[k] == c
            &&& r.len() > 0 ==> r.last() != c
        }),
    decreases text.len(),
{
    if text.len() > 0 && text.last() == c {
        let rest = text.drop_last();
        trimming_takes_the_end(rest, c);
        let r = without_trailing(rest, c);
        assert(rest.take(r.len() as int) =~= text.take(r.len() as int));
        assert forall|k: int| r.len() <= k < text.len() implies #[trigger] text[k] == c by {
            if k < rest.len() {
                assert(rest[k] == text[k]);
            }
        }
    } else {
        assert(text.take(text.len() as int) =~= text);
    }
}

/// A report of the firmware tells one exactly if it has a byte behind its first; the first byte does
/// not count.
pub proof fn firmware_stands_behind_the_first_byte(report: Seq<u8>, other: Seq<u8>)
    ensures
        firmware_of(report) is Some <==> report.len() >= 2,
        report.len() >= 1 && other.len() >= 1 && report.skip(1) == other.skip(1) ==> firmware_of(
            report,
        ) == firmware_of(other),
        report.len() >= 2 ==> {
            let told = firmware_of(report)->0;
            let text = lossy_text(report.skip(1));
            &&& told.len() <= text.len()
            &&& told == text.take(told.len() as int)
            &&& told.len() > 0 ==> told.last() != '\0'
            &&& forall|k: int| told.len() <= k < text.len() ==> #[trigger] text[k] == '\0'
        },
{
    if report.len() >= 2 {
        trimming_takes_the_end(lossy_text(report.skip(1)), '\0');
    }
    if report.len() >= 1 && other.len() >= 1 && report.skip(1) == other.skip(1) {
        assert(report.skip(1).len() == other.skip(1).len());
    }
}

/// Why a message is no request: the first of the reasons that hold.
pub proof fn messages_are_refused_for_a_reason(body: HardwareMessageBodyModel)
    ensures
        match body {
            HardwareMessageBodyModel::ControlCommand {
                control_id,
                capability_id,
                command_type,
                params,
                ..
            } => {
                let raster = capability_id == "raster.bitmap"@;
                let power = capability_id == "device.power"@;
                let shows = raster && command_type == "set_frame"@;
                let clears = raster && command_type == "clear"@;
                let switches = power && (command_type == "sleep"@ || command_type == "wake"@);
                let image = field_of(params, "image"@);
                let encoding = field_of(params, "encoding"@);
                let known = encoding == Some(JsonModel::Text("jpeg"@)) || encoding == Some(
                    JsonModel::Text("png"@),
                );
                match requested(body) {
                    Ok(_) => true,
                    Err(CommandErrorModel::NotACommand) => false,
                    Err(CommandErrorModel::Unsupported { capability_id: told, command_type: kind })
                        => told == capability_id && kind == command_type && !shows && !clears
                        && !switches,
                    Err(CommandErrorModel::MissingControlId) => (shows || clears) && control_id
                        is None,
                    Err(CommandErrorModel::MissingImage) => shows && control_id is Some && !(
                    image matches Some(JsonModel::Text(_))),
                    Err(CommandErrorModel::MissingEncoding) => shows && control_id is Some && !(
                    encoding matches Some(JsonModel::Text(_))),
                    Err(CommandErrorModel::UnsupportedEncoding) => shows && control_id is Some
                        && !known,
                    Err(CommandErrorModel::InvalidImage) => shows && control_id is Some && known
                        && (image matches Some(JsonModel::Text(text)) && base64_standard_bytes(text)
                        is None),
                    Err(CommandErrorModel::UnexpectedParams) => (clears || switches)
                        && params.len() > 0,
                }
            },
            _ => requested(body) == Err::<RuntimeCommandModel, CommandErrorModel>(
                CommandErrorModel::NotACommand,
            ),
        },
{
}

/// What is told of a value of `RuntimeCommand`: its variant, and each field under its own name.
pub proof fn runtime_command_is_told_by_field(value: RuntimeCommand)
    ensures
        match (value, value.deep_view()) {
            (RuntimeCommand::SetRasterFrame { control_id, image }, RuntimeCommandModel::SetRasterFrame { control_id: told_control_id, image: told_image }) => told_control_id == control_id@
                && told_image == image@,
            (RuntimeCommand::ClearRaster { control_id }, RuntimeCommandModel::ClearRaster { control_id: told_control_id }) => told_control_id == control_id@,
            (RuntimeCommand::SleepDevice, RuntimeCommandModel::SleepDevice) => true,
            (RuntimeCommand::WakeDevice, RuntimeCommandModel::WakeDevice) => true,
            (RuntimeCommand::ResetDevice, RuntimeCommandModel::ResetDevice) => true,
            (RuntimeCommand::Stop, RuntimeCommandModel::Stop) => true,
            _ => false,
        },
{
}

/// What is told of a value of `CommandError`: its variant, and each field under its own name.
pub proof fn command_error_is_told_by_field(value: CommandError)
    ensures
        match (value, value.deep_view()) {
            (CommandError::NotACommand, CommandErrorModel::NotACommand) => true,
            (CommandError::Unsupported { capability_id, command_type }, CommandErrorModel::Unsupported { capability_id: told_capability_id, command_type: told_command_type }) => told_capability_id == capability_id@
                && told_command_type == command_type@,
            (CommandError::MissingControlId, CommandErrorModel::MissingControlId) => true,
            (CommandError::MissingImage, CommandErrorModel::MissingImage) => true,
            (CommandError::MissingEncoding, CommandErrorModel::MissingEncoding) => true,
            (CommandError::UnsupportedEncoding, CommandErrorModel::UnsupportedEncoding) => true,
            (CommandError::InvalidImage, CommandErrorModel::InvalidImage) => true,
            (CommandError::UnexpectedParams, CommandErrorModel::UnexpectedParams) => true,
            _ => false,
        },
{
}

/// What is told of a value of `WorkerEvent`: its variant, and each field under its own name.
pub proof fn worker_event_is_told_by_field(value: WorkerEvent)
    ensures
        match (value, value.deep_view()) {
            (WorkerEvent::Connected { path_key, device_id, channel, device }, WorkerEventModel::Connected { path_key: told_path_key, device_id: told_device_id, channel: told_channel, device: told_device }) => told_path_key == path_key@
                && told_device_id == device_id@
                && told_channel == channel
                && told_device == device.deep_view(),
            (WorkerEvent::Input { device_id, body }, WorkerEventModel::Input { device_id: told_device_id, body: told_body }) => told_device_id == device_id@
                && told_body == body.deep_view(),
            (WorkerEvent::Disconnected { path_key, device_id }, WorkerEventModel::Disconnected { path_key: told_path_key, device_id: told_device_id }) => told_path_key == path_key@
                && told_device_id == device_id@,
            (WorkerEvent::Failed { path_key, error }, WorkerEventModel::Failed { path_key: told_path_key, error: told_error }) => told_path_key == path_key@
                && told_error == error@,
            _ => false,
        },
{
}

} // verus!
