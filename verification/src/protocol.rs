//! The MiraBox HID report protocol: how commands become output reports and how input reports
//! become interaction events.

use vstd::prelude::*;

verus! {

/// A control on the device that changed, as one input report tells it.
#[derive(Debug, Clone, Copy, PartialEq, Eq, Structural)]
pub struct InteractionEvent {
    pub button_id: u16,
    pub payload: u8,
    pub supports_release: bool,
}

/// A command for the device.
#[derive(Debug, Clone)]
pub enum DeviceCommand {
    WakeDisplay,
    SleepDisplay,
    ClearKey { target: u32 },
    Refresh,
    Connect,
    SetBrightness { value: u8 },
    SetMode { mode: u8 },
    SetLedBrightness { value: u8 },
    SetLedColors { colors: Vec<[u8; 3]> },
    ShutdownClear,
    SetKeyImage { key: u8, image: Vec<u8> },
    SetLogo { image: Vec<u8> },
    SetBackgroundImage {
        image: Vec<u8>,
        x: u16,
        y: u16,
        width: u16,
        height: u16,
        frame_buffer: u16,
    },
}

/// What a command is.
pub enum DeviceCommandModel {
    WakeDisplay,
    SleepDisplay,
    ClearKey { target: u32 },
    Refresh,
    Connect,
    SetBrightness { value: u8 },
    SetMode { mode: u8 },
    SetLedBrightness { value: u8 },
    SetLedColors { colors: Seq<Seq<u8>> },
    ShutdownClear,
    SetKeyImage { key: u8, image: Seq<u8> },
    SetLogo { image: Seq<u8> },
    SetBackgroundImage {
        image: Seq<u8>,
        x: u16,
        y: u16,
        width: u16,
        height: u16,
        frame_buffer: u16,
    },
}

impl DeepView for DeviceCommand {
    type V = DeviceCommandModel;

    open spec fn deep_view(&self) -> DeviceCommandModel {
        match *self {
            DeviceCommand::WakeDisplay => DeviceCommandModel::WakeDisplay,
            DeviceCommand::SleepDisplay => DeviceCommandModel::SleepDisplay,
            DeviceCommand::ClearKey { target } => DeviceCommandModel::ClearKey { target },
            DeviceCommand::Refresh => DeviceCommandModel::Refresh,
            DeviceCommand::Connect => DeviceCommandModel::Connect,
            DeviceCommand::SetBrightness { value } => DeviceCommandModel::SetBrightness { value },
            DeviceCommand::SetMode { mode } => DeviceCommandModel::SetMode { mode },
            DeviceCommand::SetLedBrightness { value } => DeviceCommandModel::SetLedBrightness {
                value,
            },
            DeviceCommand::SetLedColors { colors } => DeviceCommandModel::SetLedColors {
                colors: color_bytes(colors@),
            },
            DeviceCommand::ShutdownClear => DeviceCommandModel::ShutdownClear,
            DeviceCommand::SetKeyImage { key, image } => DeviceCommandModel::SetKeyImage {
                key,
                image: image@,
            },
            DeviceCommand::SetLogo { image } => DeviceCommandModel::SetLogo { image: image@ },
            DeviceCommand::SetBackgroundImage { image, x, y, width, height, frame_buffer } =>
                DeviceCommandModel::SetBackgroundImage {
                image: image@,
                x,
                y,
                width,
                height,
                frame_buffer,
            },
        }
    }
}

/// Why a protocol value was refused.
#[derive(Debug, Clone, Copy, PartialEq, Eq, Structural)]
pub enum ProtocolError {
    /// The protocol version is not 1, 2, or 3.
    UnsupportedVersion,
    /// A percent value is above 100.
    PercentOutOfRange,
    /// A mode is above 9.
    ModeOutOfRange,
    /// A key image is longer than 65535 bytes.
    ImageTooLarge,
}

/// The bytes of each report.
pub open spec fn report_bytes(reports: Seq<Vec<u8>>) -> Seq<Seq<u8>> {
    Seq::new(reports.len(), |i: int| reports[i]@)
}

/// The bytes that every command starts with: `CRT` and two zero bytes.
pub open spec fn crt(rest: Seq<u8>) -> Seq<u8> {
    seq!['C' as u8, 'R' as u8, 'T' as u8, 0u8, 0u8] + rest
}

/// The two bytes of `x`, the most significant first.
pub open spec fn be16(x: int) -> Seq<u8> {
    seq![(x / 0x100 % 0x100) as u8, (x % 0x100) as u8]
}

/// The four bytes of `x` modulo 2^32, the most significant first.
pub open spec fn be32(x: int) -> Seq<u8> {
    seq![
        (x / 0x100_0000 % 0x100) as u8,
        (x / 0x1_0000 % 0x100) as u8,
        (x / 0x100 % 0x100) as u8,
        (x % 0x100) as u8,
    ]
}

/// The components of `colors`, in order.
pub open spec fn flat_colors(colors: Seq<Seq<u8>>) -> Seq<u8> {
    Seq::new(3 * colors.len(), |i: int| colors[i / 3][i % 3])
}

/// The components of each color.
pub open spec fn color_bytes(colors: Seq<[u8; 3]>) -> Seq<Seq<u8>> {
    Seq::new(colors.len(), |i: int| colors[i]@)
}

/// The number of data bytes in one output report of the given protocol version.
pub open spec fn packet_len(version: int) -> nat {
    if version >= 2 {
        1024
    } else {
        512
    }
}

/// How many reports of `size` data bytes carry `len` bytes: as few as hold them, and at least one.
pub open spec fn packet_count(len: nat, size: nat) -> nat {
    if len == 0 {
        1
    } else {
        ((len + size - 1) / (size as int)) as nat
    }
}

/// Report number `i` of `data`: the report id, which is zero, then the data bytes from `i * size`
/// on, and zeros where the data has ended.
pub open spec fn packet(data: Seq<u8>, size: nat, i: int) -> Seq<u8> {
    Seq::new(
        1 + size,
        |j: int|
            if 1 <= j && i * size + j - 1 < data.len() {
                data[i * size + j - 1]
            } else {
                0u8
            },
    )
}

/// The reports that carry `data`.
pub open spec fn packets(data: Seq<u8>, size: nat) -> Seq<Seq<u8>> {
    Seq::new(packet_count(data.len(), size), |i: int| packet(data, size, i))
}

/// The command's own bytes, which go into the first reports.
pub open spec fn command_bytes(command: DeviceCommandModel) -> Seq<u8> {
    match command {
        DeviceCommandModel::WakeDisplay => crt(seq!['D' as u8, 'I' as u8, 'S' as u8]),
        DeviceCommandModel::SleepDisplay => crt(seq!['H' as u8, 'A' as u8, 'N' as u8]),
        DeviceCommandModel::ClearKey { target } => crt(
            seq!['C' as u8, 'L' as u8, 'E' as u8] + be32(target as int),
        ),
        DeviceCommandModel::Refresh => crt(seq!['S' as u8, 'T' as u8, 'P' as u8]),
        DeviceCommandModel::Connect => crt(
            seq!['C' as u8, 'O' as u8, 'N' as u8, 'N' as u8, 'E' as u8, 'C' as u8, 'T' as u8],
        ),
        DeviceCommandModel::SetBrightness { value } => crt(
            seq!['L' as u8, 'I' as u8, 'G' as u8, 0u8, 0u8, value],
        ),
        DeviceCommandModel::SetMode { mode } => crt(
            seq!['M' as u8, 'O' as u8, 'D' as u8, 0u8, 0u8, ('0' as int + mode) as u8],
        ),
        DeviceCommandModel::SetLedBrightness { value } => crt(
            seq!['L' as u8, 'B' as u8, 'L' as u8, 'I' as u8, 'G' as u8, value],
        ),
        DeviceCommandModel::SetLedColors { colors } => crt(
            seq!['S' as u8, 'E' as u8, 'T' as u8, 'L' as u8, 'B' as u8] + flat_colors(colors),
        ),
        DeviceCommandModel::ShutdownClear => crt(
            seq!['C' as u8, 'L' as u8, 'E' as u8, 0u8, 0u8, 'D' as u8, 'C' as u8],
        ),
        DeviceCommandModel::SetKeyImage { key, image } => crt(
            seq!['B' as u8, 'A' as u8, 'T' as u8, 0u8, 0u8] + be16(image.len() as int) + seq![key],
        ),
        DeviceCommandModel::SetLogo { image } => crt(
            seq!['L' as u8, 'O' as u8, 'G' as u8] + be32(image.len() as int),
        ),
        DeviceCommandModel::SetBackgroundImage { image, x, y, width, height, frame_buffer } => crt(
            seq!['B' as u8, 'G' as u8, 'P' as u8, 'I' as u8, 'C' as u8] + be32(image.len() as int)
                + be16(x as int) + be16(y as int) + be16(width as int) + be16(height as int) + be16(
                frame_buffer as int,
            ),
        ),
    }
}

/// The image that follows the command in reports of its own, where the command has one.
pub open spec fn command_image(command: DeviceCommandModel) -> Option<Seq<u8>> {
    match command {
        DeviceCommandModel::SetKeyImage { image, .. } => Some(image),
        DeviceCommandModel::SetLogo { image } => Some(image),
        DeviceCommandModel::SetBackgroundImage { image, .. } => Some(image),
        _ => None,
    }
}

/// What is wrong with the command's values, if anything is.
pub open spec fn command_fault(command: DeviceCommandModel) -> Option<ProtocolError> {
    match command {
        DeviceCommandModel::SetBrightness { value } if value > 100 => Some(
            ProtocolError::PercentOutOfRange,
        ),
        DeviceCommandModel::SetLedBrightness { value } if value > 100 => Some(
            ProtocolError::PercentOutOfRange,
        ),
        DeviceCommandModel::SetMode { mode } if mode > 9 => Some(ProtocolError::ModeOutOfRange),
        DeviceCommandModel::SetKeyImage { image, .. } if image.len() > 65535 => Some(
            ProtocolError::ImageTooLarge,
        ),
        _ => None,
    }
}

/// The output reports of a command in the given protocol version.
pub open spec fn command_packets(version: int, command: DeviceCommandModel) -> Seq<Seq<u8>> {
    let size = packet_len(version);
    match command_image(command) {
        Some(image) => packets(command_bytes(command), size) + packets(image, size),
        None => packets(command_bytes(command), size),
    }
}

/// What encoding a command gives: its reports, or what is wrong with it.
pub open spec fn encoded(version: int, command: DeviceCommandModel) -> Result<
    Seq<Seq<u8>>,
    ProtocolError,
> {
    match command_fault(command) {
        Some(error) => Err(error),
        None => Ok(command_packets(version, command)),
    }
}

/// The event that an input report tells: none if the report is no acknowledgement or too short.
/// Only version 3 reports releases: before it, every report counts as a press.
pub open spec fn event_of_report(version: int, report: Seq<u8>) -> Option<InteractionEvent> {
    if report.len() >= 11 && report[0] == 'A' as u8 && report[1] == 'C' as u8 && report[2]
        == 'K' as u8 {
        Some(
            InteractionEvent {
                button_id: (report[8] * 0x100 + report[9]) as u16,
                payload: if version >= 3 {
                    report[10]
                } else {
                    1
                },
                supports_release: version >= 3,
            },
        )
    } else {
        None
    }
}

fn push_be16(out: &mut Vec<u8>, x: u16)
    ensures
        final(out)@ == old(out)@ + be16(x as int),
{
    out.push((x / 0x100) as u8);
    out.push((x % 0x100) as u8);
}

fn push_be32(out: &mut Vec<u8>, x: u32)
    ensures
        final(out)@ == old(out)@ + be32(x as int),
{
    out.push((x / 0x100_0000) as u8);
    out.push((x / 0x1_0000 % 0x100) as u8);
    out.push((x / 0x100 % 0x100) as u8);
    out.push((x % 0x100) as u8);
}

/// The length of an image as the device reads it: its low 32 bits.
fn push_len32(out: &mut Vec<u8>, len: usize)
    ensures
        final(out)@ == old(out)@ + be32(len as int),
{
    let wide: u64 = len as u64;
    out.push((wide / 0x100_0000 % 0x100) as u8);
    out.push((wide / 0x1_0000 % 0x100) as u8);
    out.push((wide / 0x100 % 0x100) as u8);
    out.push((wide % 0x100) as u8);
}

fn push_colors(out: &mut Vec<u8>, colors: &Vec<[u8; 3]>)
    ensures
        final(out)@ == old(out)@ + flat_colors(color_bytes(colors@)),
{
    let ghost start = out@;
    let mut i: usize = 0;
    while i < colors.len()
        invariant
            i <= colors@.len(),
            out@ == start + flat_colors(color_bytes(colors@)).take(3 * i),
        decreases colors@.len() - i,
    {
        let color: [u8; 3] = colors[i];
        out.push(color[0]);
        out.push(color[1]);
        out.push(color[2]);
        proof {
            let flat = flat_colors(color_bytes(colors@));
            assert(flat[3 * i] == color@[0]);
            assert(flat[3 * i + 1] == color@[1]);
            assert(flat[3 * i + 2] == color@[2]);
            assert(out@ =~= start + flat.take(3 * (i + 1)));
        }
        i += 1;
    }
    assert(flat_colors(color_bytes(colors@)).take(3 * colors@.len() as int) =~= flat_colors(color_bytes(colors@)));
}

fn require_percent(value: u8) -> (r: Result<(), ProtocolError>)
    ensures
        r == if value > 100 {
            Err::<(), ProtocolError>(ProtocolError::PercentOutOfRange)
        } else {
            Ok(())
        },
{
    if value > 100 {
        Err(ProtocolError::PercentOutOfRange)
    } else {
        Ok(())
    }
}

/// One version of the protocol.
#[derive(Debug)]
pub struct MiraBoxProtocol {
    protocol_version: u8,
    report_id: u8,
    packet_size: usize,
    read_size: usize,
}

impl Clone for MiraBoxProtocol {
    fn clone(&self) -> (r: Self)
        ensures
            r.version() == self.version(),
    {
        proof {
            use_type_invariant(self);
        }
        MiraBoxProtocol {
            protocol_version: self.protocol_version,
            report_id: self.report_id,
            packet_size: self.packet_size,
            read_size: self.read_size,
        }
    }
}

impl MiraBoxProtocol {
    #[verifier::type_invariant]
    spec fn well_formed(self) -> bool {
        &&& 1 <= self.protocol_version <= 3
        &&& self.report_id == 0
        &&& self.packet_size == packet_len(self.protocol_version as int)
        &&& self.read_size == 64
    }

    /// The version number.
    pub closed spec fn version(self) -> int {
        self.protocol_version as int
    }

    /// The protocol of the given version, of which there are three.
    pub fn for_version(protocol_version: u8) -> (r: Result<Self, ProtocolError>)
        ensures
            1 <= protocol_version <= 3 ==> r is Ok && r->Ok_0.version() == protocol_version,
            !(1 <= protocol_version <= 3) ==> r == Err::<Self, ProtocolError>(
                ProtocolError::UnsupportedVersion,
            ),
    {
        if protocol_version < 1 || protocol_version > 3 {
            return Err(ProtocolError::UnsupportedVersion);
        }
        Ok(
            MiraBoxProtocol {
                protocol_version,
                report_id: 0,
                packet_size: if protocol_version >= 2 {
                    1024
                } else {
                    512
                },
                read_size: 64,
            },
        )
    }

    /// The length of an input report.
    pub fn read_size(&self) -> (r: usize)
        ensures
            r == 64,
    {
        proof {
            use_type_invariant(self);
        }
        self.read_size
    }

    /// The number of data bytes in an output report.
    pub fn packet_size(&self) -> (r: usize)
        ensures
            r == packet_len(self.version()),
    {
        proof {
            use_type_invariant(self);
        }
        self.packet_size
    }

    pub fn protocol_version(&self) -> (r: u8)
        ensures
            r == self.version(),
            1 <= r <= 3,
    {
        proof {
            use_type_invariant(self);
        }
        self.protocol_version
    }

    /// Whether input reports tell a release from a press.
    pub fn supports_release_events(&self) -> (r: bool)
        ensures
            r == (self.version() >= 3),
    {
        self.protocol_version >= 3
    }

    /// The output reports of a command.
    pub fn encode_command(&self, command: &DeviceCommand) -> (r: Result<
        Vec<Vec<u8>>,
        ProtocolError,
    >)
        ensures
            match r {
                Ok(reports) => encoded(self.version(), command.deep_view()) == Ok::<
                    Seq<Seq<u8>>,
                    ProtocolError,
                >(report_bytes(reports@)),
                Err(error) => encoded(self.version(), command.deep_view()) == Err::<
                    Seq<Seq<u8>>,
                    ProtocolError,
                >(error),
            },
    {
        let mut payload: Vec<u8> = vec!['C' as u8, 'R' as u8, 'T' as u8, 0, 0];
        match command {
            DeviceCommand::WakeDisplay => {
                payload.push('D' as u8);
                payload.push('I' as u8);
                payload.push('S' as u8);
                assert(payload@ =~= command_bytes(command.deep_view()));
                Ok(self.to_chunks(&payload))
            },
            DeviceCommand::SleepDisplay => {
                payload.push('H' as u8);
                payload.push('A' as u8);
                payload.push('N' as u8);
                assert(payload@ =~= command_bytes(command.deep_view()));
                Ok(self.to_chunks(&payload))
            },
            DeviceCommand::ClearKey { target } => {
                payload.push('C' as u8);
                payload.push('L' as u8);
                payload.push('E' as u8);
                push_be32(&mut payload, *target);
                assert(payload@ =~= command_bytes(command.deep_view()));
                Ok(self.to_chunks(&payload))
            },
            DeviceCommand::Refresh => {
                payload.push('S' as u8);
                payload.push('T' as u8);
                payload.push('P' as u8);
                assert(payload@ =~= command_bytes(command.deep_view()));
                Ok(self.to_chunks(&payload))
            },
            DeviceCommand::Connect => {
                payload.push('C' as u8);
                payload.push('O' as u8);
                payload.push('N' as u8);
                payload.push('N' as u8);
                payload.push('E' as u8);
                payload.push('C' as u8);
                payload.push('T' as u8);
                assert(payload@ =~= command_bytes(command.deep_view()));
                Ok(self.to_chunks(&payload))
            },
            DeviceCommand::SetBrightness { value } => {
                require_percent(*value)?;
                payload.push('L' as u8);
                payload.push('I' as u8);
                payload.push('G' as u8);
                payload.push(0);
                payload.push(0);
                payload.push(*value);
                assert(payload@ =~= command_bytes(command.deep_view()));
                Ok(self.to_chunks(&payload))
            },
            DeviceCommand::SetMode { mode } => {
                if *mode > 9 {
                    return Err(ProtocolError::ModeOutOfRange);
                }
                payload.push('M' as u8);
                payload.push('O' as u8);
                payload.push('D' as u8);
                payload.push(0);
                payload.push(0);
                payload.push(0x30 + *mode);
                assert(payload@ =~= command_bytes(command.deep_view()));
                Ok(self.to_chunks(&payload))
            },
            DeviceCommand::SetLedBrightness { value } => {
                require_percent(*value)?;
                payload.push('L' as u8);
                payload.push('B' as u8);
                payload.push('L' as u8);
                payload.push('I' as u8);
                payload.push('G' as u8);
                payload.push(*value);
                assert(payload@ =~= command_bytes(command.deep_view()));
                Ok(self.to_chunks(&payload))
            },
            DeviceCommand::SetLedColors { colors } => {
                payload.push('S' as u8);
                payload.push('E' as u8);
                payload.push('T' as u8);
                payload.push('L' as u8);
                payload.push('B' as u8);
                push_colors(&mut payload, colors);
                assert(payload@ =~= command_bytes(command.deep_view()));
                Ok(self.to_chunks(&payload))
            },
            DeviceCommand::ShutdownClear => {
                payload.push('C' as u8);
                payload.push('L' as u8);
                payload.push('E' as u8);
                payload.push(0);
                payload.push(0);
                payload.push('D' as u8);
                payload.push('C' as u8);
                assert(payload@ =~= command_bytes(command.deep_view()));
                Ok(self.to_chunks(&payload))
            },
            DeviceCommand::SetKeyImage { key, image } => {
                if image.len() > 65535 {
                    return Err(ProtocolError::ImageTooLarge);
                }
                payload.push('B' as u8);
                payload.push('A' as u8);
                payload.push('T' as u8);
                payload.push(0);
                payload.push(0);
                push_be16(&mut payload, image.len() as u16);
                payload.push(*key);
                assert(payload@ =~= command_bytes(command.deep_view()));
                Ok(self.with_image(&payload, image))
            },
            DeviceCommand::SetLogo { image } => {
                payload.push('L' as u8);
                payload.push('O' as u8);
                payload.push('G' as u8);
                push_len32(&mut payload, image.len());
                assert(payload@ =~= command_bytes(command.deep_view()));
                Ok(self.with_image(&payload, image))
            },
            DeviceCommand::SetBackgroundImage { image, x, y, width, height, frame_buffer } => {
                payload.push('B' as u8);
                payload.push('G' as u8);
                payload.push('P' as u8);
                payload.push('I' as u8);
                payload.push('C' as u8);
                push_len32(&mut payload, image.len());
                push_be16(&mut payload, *x);
                push_be16(&mut payload, *y);
                push_be16(&mut payload, *width);
                push_be16(&mut payload, *height);
                push_be16(&mut payload, *frame_buffer);
                assert(payload@ =~= command_bytes(command.deep_view()));
                Ok(self.with_image(&payload, image))
            },
        }
    }

    /// The event that an input report tells.
    pub fn parse_event(&self, report: &[u8]) -> (r: Result<
        Option<InteractionEvent>,
        ProtocolError,
    >)
        ensures
            r == Ok::<Option<InteractionEvent>, ProtocolError>(
                event_of_report(self.version(), report@),
            ),
    {
        if report.len() < 11 {
            return Ok(None);
        }
        if report[0] != 'A' as u8 || report[1] != 'C' as u8 || report[2] != 'K' as u8 {
            return Ok(None);
        }
        Ok(Some(
            InteractionEvent {
                button_id: report[8] as u16 * 0x100 + report[9] as u16,
                payload: if self.supports_release_events() {
                    report[10]
                } else {
                    1
                },
                supports_release: self.supports_release_events(),
            },
        ))
    }

    /// The reports of a command and then those of its image.
    fn with_image(&self, command: &Vec<u8>, image: &Vec<u8>) -> (r: Vec<Vec<u8>>)
        ensures
            report_bytes(r@) == packets(command@, packet_len(self.version())) + packets(
                image@,
                packet_len(self.version()),
            ),
    {
        let mut reports = self.to_chunks(command);
        let mut tail = self.to_chunks(image);
        let ghost first = report_bytes(reports@);
        let ghost second = report_bytes(tail@);
        reports.append(&mut tail);
        assert(report_bytes(reports@) =~= first + second);
        reports
    }

    /// The reports that carry `data`.
    fn to_chunks(&self, data: &Vec<u8>) -> (r: Vec<Vec<u8>>)
        ensures
            report_bytes(r@) == packets(data@, packet_len(self.version())),
    {
        proof {
            use_type_invariant(self);
        }
        let size: usize = self.packet_size;
        let ghost bytes = data@;
        let mut chunks: Vec<Vec<u8>> = Vec::new();
        let mut offset: usize = 0;
        assert(0 * size == 0) by (nonlinear_arith);
        while offset < data.len()
            invariant
                size == 512 || size == 1024,
                self.report_id == 0,
                bytes == data@,
                offset <= bytes.len(),
                offset == bytes.len() || offset == chunks@.len() * size,
                offset > 0 ==> (chunks@.len() - 1) * size < offset <= chunks@.len() * size,
                offset == 0 ==> chunks@.len() == 0,
                forall|k: int|
                    0 <= k < chunks@.len() ==> (#[trigger] chunks@[k])@ == packet(
                        bytes,
                        size as nat,
                        k,
                    ),
            decreases bytes.len() - offset,
        {
            let ghost n = chunks@.len() as int;
            let mut payload: Vec<u8> = Vec::with_capacity(1 + size);
            payload.push(self.report_id);
            let rest: usize = data.len() - offset;
            let mut j: usize = 0;
            while j < size
                invariant
                    j <= size <= 1024,
                    bytes == data@,
                    offset + rest == bytes.len(),
                    offset + rest <= usize::MAX,
                    n * size == offset,
                    payload@ == packet(bytes, size as nat, n).take(1 + j),
                decreases size - j,
            {
                let byte: u8 = if j < rest {
                    data[offset + j]
                } else {
                    0
                };
                payload.push(byte);
                assert(payload@ =~= packet(bytes, size as nat, n).take(1 + (j + 1)));
                j += 1;
            }
            assert(payload@ =~= packet(bytes, size as nat, n));
            chunks.push(payload);
            proof {
                assert((n + 1) * size == n * size + size) by (nonlinear_arith);
            }
            offset += if size < rest {
                size
            } else {
                rest
            };
        }
        if chunks.is_empty() {
            let mut payload: Vec<u8> = vec![self.report_id];
            payload.resize(1 + size, 0);
            assert(payload@ =~= packet(bytes, size as nat, 0)) by {
                assert(payload@.subrange(0, 1)[0] == 0);
            }
            chunks.push(payload);
        }
        proof {
            lemma_packet_count(bytes.len(), size as nat, chunks@.len());
            assert(report_bytes(chunks@) =~= packets(bytes, size as nat));
        }
        chunks
    }
}

/// The count of reports, from the place of the last one.
proof fn lemma_packet_count(len: nat, size: nat, n: nat)
    requires
        size == 512 || size == 1024,
        n >= 1,
        len == 0 ==> n == 1,
        len > 0 ==> (n - 1) * size < len <= n * size,
    ensures
        packet_count(len, size) == n,
{
    if size == 512 {
        assert((n - 1) * size == (n - 1) * 512 && n * size == n * 512);
    } else {
        assert((n - 1) * size == (n - 1) * 1024 && n * size == n * 1024);
    }
}

/// Every report of a command is one byte longer than the version's packet size and starts with the
/// report id, which is zero; and there is at least one report.
pub proof fn reports_have_one_shape(version: int, command: DeviceCommandModel, i: int)
    ensures
        command_packets(version, command).len() >= 1,
        0 <= i < command_packets(version, command).len() ==> {
            &&& command_packets(version, command)[i].len() == 1 + packet_len(version)
            &&& command_packets(version, command)[i][0] == 0
        },
{
    lemma_count_positive(command_bytes(command).len(), packet_len(version));
}

proof fn lemma_count_positive(len: nat, size: nat)
    requires
        size == 512 || size == 1024,
    ensures
        packet_count(len, size) >= 1,
        packet_count(len, size) * size >= len,
{
    if size == 512 {
        assert(packet_count(len, size) * size == packet_count(len, size) * 512);
    } else {
        assert(packet_count(len, size) * size == packet_count(len, size) * 1024);
    }
}

/// Where byte `k` of the data lies: in report `k / size`, at `k % size` behind the report id.
pub proof fn reports_carry_every_byte(data: Seq<u8>, version: int, k: int)
    requires
        0 <= k < data.len(),
    ensures
        ({
            let size = packet_len(version) as int;
            &&& k / size < packets(data, packet_len(version)).len()
            &&& packets(data, packet_len(version))[k / size][1 + k % size] == data[k]
        }),
{
    let size = packet_len(version) as int;
    lemma_count_positive(data.len(), packet_len(version));
    if size == 512 {
        assert(packet_count(data.len(), packet_len(version)) * 512 >= data.len());
        assert((k / size) * size == (k / 512) * 512);
    } else {
        assert(packet_count(data.len(), packet_len(version)) * 1024 >= data.len());
        assert((k / size) * size == (k / 1024) * 1024);
    }
    assert((k / size) * size + k % size == k);
}

/// Data of one length never share their reports: the reports and the length give the data back.
pub proof fn reports_determine_data(a: Seq<u8>, b: Seq<u8>, version: int)
    requires
        a.len() == b.len(),
        packets(a, packet_len(version)) == packets(b, packet_len(version)),
    ensures
        a == b,
{
    assert forall|k: int| 0 <= k < a.len() implies a[k] == b[k] by {
        reports_carry_every_byte(a, version, k);
        reports_carry_every_byte(b, version, k);
    }
    assert(a =~= b);
}

/// The length field of a key image command tells the length of every image that is accepted.
pub proof fn key_image_length_is_told(len: nat)
    requires
        len <= 65535,
    ensures
        be16(len as int)[0] * 0x100 + be16(len as int)[1] == len,
{
}

/// Before version 3 no report tells a release: every event is a press.
pub proof fn only_version_three_reports_releases(version: int, report: Seq<u8>)
    requires
        version < 3,
    ensures
        event_of_report(version, report) matches Some(event) ==> event.payload == 1
            && !event.supports_release,
{
}

/// The number that `n` bytes tell from `at` on, the most significant first.
pub open spec fn number_at(bytes: Seq<u8>, at: int, n: nat) -> int
    decreases n,
{
    if n == 0 {
        0
    } else {
        number_at(bytes, at, (n - 1) as nat) * 256 + bytes[at + n - 1] as int
    }
}

/// Whether the word stands in the bytes from `at` on.
pub open spec fn word_at(bytes: Seq<u8>, at: int, word: Seq<char>) -> bool {
    at + word.len() <= bytes.len() && forall|k: int|
        0 <= k < word.len() ==> bytes[at + k] as int == #[trigger] word[k] as int
}

/// Whether the bytes from `from` up to `to` are all zero.
pub open spec fn zeros_at(bytes: Seq<u8>, from: int, to: int) -> bool {
    forall|k: int| from <= k < to ==> #[trigger] bytes[k] == 0
}

proof fn lemma_first_report(version: int, command: DeviceCommandModel)
    requires
        encoded(version, command) is Ok,
    ensures
        ({
            let first = (encoded(version, command)->Ok_0)[0];
            let bytes = command_bytes(command);
            &&& encoded(version, command)->Ok_0.len() >= 1
            &&& first.len() == 1 + packet_len(version)
            &&& first[0] == 0
            &&& forall|k: int|
                0 <= k < packet_len(version) ==> first[#[trigger] (k + 1)] == if k < bytes.len() {
                    bytes[k]
                } else {
                    0
                }
        }),
{
    lemma_count_positive(command_bytes(command).len(), packet_len(version));
    assert(packets(command_bytes(command), packet_len(version)).len() >= 1);
    let first = (encoded(version, command)->Ok_0)[0];
    assert(first == packet(command_bytes(command), packet_len(version), 0));
    assert(0 * packet_len(version) == 0) by (nonlinear_arith);
}

/// Every accepted command is told in the first of its reports by its letters, behind the report id,
/// the letters `CRT` and two zeros.
pub proof fn commands_are_told_by_letters(version: int, command: DeviceCommandModel)
    requires
        encoded(version, command) is Ok,
    ensures
        ({
            let first = (encoded(version, command)->Ok_0)[0];
            &&& first[0] == 0
            &&& word_at(first, 1, "CRT"@)
            &&& zeros_at(first, 4, 6)
            &&& match command {
                DeviceCommandModel::WakeDisplay => word_at(first, 6, "DIS"@),
                DeviceCommandModel::SleepDisplay => word_at(first, 6, "HAN"@),
                DeviceCommandModel::ClearKey { .. } => word_at(first, 6, "CLE"@),
                DeviceCommandModel::Refresh => word_at(first, 6, "STP"@),
                DeviceCommandModel::Connect => word_at(first, 6, "CONNECT"@),
                DeviceCommandModel::SetBrightness { .. } => word_at(first, 6, "LIG"@) && zeros_at(
                    first,
                    9,
                    11,
                ),
                DeviceCommandModel::SetMode { .. } => word_at(first, 6, "MOD"@) && zeros_at(
                    first,
                    9,
                    11,
                ),
                DeviceCommandModel::SetLedBrightness { .. } => word_at(first, 6, "LBLIG"@),
                DeviceCommandModel::SetLedColors { .. } => word_at(first, 6, "SETLB"@),
                DeviceCommandModel::ShutdownClear => word_at(first, 6, "CLE"@) && zeros_at(
                    first,
                    9,
                    11,
                ) && word_at(first, 11, "DC"@),
                DeviceCommandModel::SetKeyImage { .. } => word_at(first, 6, "BAT"@) && zeros_at(
                    first,
                    9,
                    11,
                ),
                DeviceCommandModel::SetLogo { .. } => word_at(first, 6, "LOG"@),
                DeviceCommandModel::SetBackgroundImage { .. } => word_at(first, 6, "BGPIC"@),
            }
        }),
{
    lemma_first_report(version, command);
    reveal_strlit("CRT");
    reveal_strlit("DIS");
    reveal_strlit("HAN");
    reveal_strlit("CLE");
    reveal_strlit("STP");
    reveal_strlit("CONNECT");
    reveal_strlit("LIG");
    reveal_strlit("MOD");
    reveal_strlit("LBLIG");
    reveal_strlit("SETLB");
    reveal_strlit("DC");
    reveal_strlit("BAT");
    reveal_strlit("LOG");
    reveal_strlit("BGPIC");
    let first = (encoded(version, command)->Ok_0)[0];
    let bytes = command_bytes(command);
    assert forall|k: int| 1 <= k < 13 && k - 1 < bytes.len() implies first[k] == bytes[k - 1] by {
        assert(first[(k - 1) + 1] == bytes[k - 1]);
    }
}

/// The values of an accepted command can be read from its first report: numbers are told with the
/// most significant byte first, a mode by its digit. The length of an image of more than 32 bits is
/// told by its low 32 bits.
pub proof fn values_are_told(version: int, command: DeviceCommandModel)
    requires
        encoded(version, command) is Ok,
    ensures
        ({
            let first = (encoded(version, command)->Ok_0)[0];
            match command {
                DeviceCommandModel::ClearKey { target } => number_at(first, 9, 4) == target,
                DeviceCommandModel::SetBrightness { value } => first[11] == value,
                DeviceCommandModel::SetMode { mode } => first[11] - '0' as int == mode,
                DeviceCommandModel::SetLedBrightness { value } => first[11] == value,
                DeviceCommandModel::SetKeyImage { key, image } => number_at(first, 11, 2)
                    == image.len() && first[11] * 256 + first[12] == image.len() && first[13]
                    == key,
                DeviceCommandModel::SetLogo { image } => number_at(first, 9, 4) == image.len()
                    % 0x1_0000_0000,
                DeviceCommandModel::SetBackgroundImage {
                    image,
                    x,
                    y,
                    width,
                    height,
                    frame_buffer,
                } => {
                    &&& number_at(first, 11, 4) == image.len() % 0x1_0000_0000
                    &&& number_at(first, 15, 2) == x
                    &&& number_at(first, 17, 2) == y
                    &&& number_at(first, 19, 2) == width
                    &&& number_at(first, 21, 2) == height
                    &&& number_at(first, 23, 2) == frame_buffer
                },
                _ => true,
            }
        }),
{
    lemma_first_report(version, command);
    reveal_with_fuel(number_at, 5);
    let first = (encoded(version, command)->Ok_0)[0];
    let bytes = command_bytes(command);
    assert forall|k: int| 1 <= k < 25 && k - 1 < bytes.len() implies first[k] == bytes[k - 1] by {
        assert(first[(k - 1) + 1] == bytes[k - 1]);
    }
    match command {
        DeviceCommandModel::SetBackgroundImage { image, x, y, width, height, frame_buffer } => {
            assert(bytes.len() == 24);
            lemma_be32(image.len() as int);
            let length = be32(image.len() as int);
            assert(bytes[10] == length[0] && bytes[11] == length[1] && bytes[12] == length[2]
                && bytes[13] == length[3]);
            assert(bytes[14] == be16(x as int)[0] && bytes[15] == be16(x as int)[1]);
            assert(bytes[16] == be16(y as int)[0] && bytes[17] == be16(y as int)[1]);
            assert(bytes[18] == be16(width as int)[0] && bytes[19] == be16(width as int)[1]);
            assert(bytes[20] == be16(height as int)[0] && bytes[21] == be16(height as int)[1]);
            assert(bytes[22] == be16(frame_buffer as int)[0] && bytes[23] == be16(
                frame_buffer as int,
            )[1]);
        },
        DeviceCommandModel::SetLogo { image } => {
            assert(bytes.len() == 12);
            lemma_be32(image.len() as int);
            let length = be32(image.len() as int);
            assert(bytes[8] == length[0] && bytes[9] == length[1] && bytes[10] == length[2]
                && bytes[11] == length[3]);
        },
        DeviceCommandModel::ClearKey { target } => {
            assert(bytes.len() == 12);
            lemma_be32(target as int);
            let told = be32(target as int);
            assert(bytes[8] == told[0] && bytes[9] == told[1] && bytes[10] == told[2] && bytes[11]
                == told[3]);
        },
        DeviceCommandModel::SetKeyImage { key, image } => {
            assert(bytes.len() == 13);
            let length = be16(image.len() as int);
            assert(bytes[10] == length[0] && bytes[11] == length[1] && bytes[12] == key);
        },
        _ => {},
    }
}

proof fn lemma_be32(x: int)
    requires
        0 <= x,
    ensures
        ((be32(x)[0] * 256 + be32(x)[1]) * 256 + be32(x)[2]) * 256 + be32(x)[3] == x % 0x1_0000_0000,
{    let (one, two, three) = (x / 0x100, x / 0x1_0000, x / 0x100_0000);
    let four = x / 0x1_0000_0000;
    assert(x == one * 0x100 + x % 0x100);
    assert(two == one / 0x100);
    assert(three == two / 0x100);
    assert(four == three / 0x100);
    assert(one == two * 0x100 + one % 0x100);
    assert(two == three * 0x100 + two % 0x100);
    assert(three == four * 0x100 + three % 0x100);
    assert(be32(x)[0] == three % 0x100);
    assert(be32(x)[1] == two % 0x100);
    assert(be32(x)[2] == one % 0x100);
    assert(be32(x)[3] == x % 0x100);
}

/// The components of the colors of the LEDs follow one another behind the command's letters, through
/// all of its reports.
pub proof fn colors_are_told(version: int, colors: Seq<Seq<u8>>, i: int, c: int)
    requires
        0 <= i < colors.len(),
        0 <= c < 3,
    ensures
        ({
            let place = 10 + 3 * i + c;
            let size = if version >= 2 {
                1024int
            } else {
                512
            };
            &&& encoded(version, DeviceCommandModel::SetLedColors { colors }) matches Ok(reports)
            &&& place / size < reports.len()
            &&& reports[place / size][1 + place % size] == colors[i][c]
        }),
{
    let command = DeviceCommandModel::SetLedColors { colors };
    let place = 10 + 3 * i + c;
    let bytes = command_bytes(command);
    assert(bytes[place] == flat_colors(colors)[3 * i + c]);
    reports_carry_every_byte(bytes, version, place);
}

/// What stands behind the values of a command in its reports is zero, and an accepted command other
/// than that of the colors has one report of its own.
pub proof fn nothing_else_is_told(version: int, command: DeviceCommandModel)
    requires
        encoded(version, command) is Ok,
    ensures
        ({
            let reports = encoded(version, command)->Ok_0;
            let end = match command {
                DeviceCommandModel::Connect => 13int,
                DeviceCommandModel::ShutdownClear => 13,
                DeviceCommandModel::ClearKey { .. } => 13,
                DeviceCommandModel::SetLogo { .. } => 13,
                DeviceCommandModel::SetBrightness { .. } => 12,
                DeviceCommandModel::SetMode { .. } => 12,
                DeviceCommandModel::SetLedBrightness { .. } => 12,
                DeviceCommandModel::SetLedColors { colors } => (11 + 3 * colors.len()) as int,
                DeviceCommandModel::SetKeyImage { .. } => 14,
                DeviceCommandModel::SetBackgroundImage { .. } => 25,
                _ => 9,
            };
            &&& zeros_at(reports[0], end, reports[0].len() as int)
            &&& !(command is SetLedColors) && command_image(command) is None ==> reports.len() == 1
        }),
{
    lemma_first_report(version, command);
    let first = (encoded(version, command)->Ok_0)[0];
    let bytes = command_bytes(command);
    assert forall|k: int| bytes.len() < k < first.len() implies #[trigger] first[k] == 0 by {
        assert(first[(k - 1) + 1] == 0);
    }
    match command {
        DeviceCommandModel::SetLedColors { colors } => {
            assert(bytes.len() == 10 + 3 * colors.len());
        },
        _ => {
            assert(8 <= bytes.len() <= 24);
            assert(packet_count(bytes.len(), packet_len(version)) == 1);
        },
    }
}

/// An image follows the command in reports of its own: as many as hold it and no more, at least one,
/// with every byte at its place and zeros behind the last.
pub proof fn images_follow_their_commands(version: int, command: DeviceCommandModel, image: Seq<u8>)
    requires
        encoded(version, command) is Ok,
        match command {
            DeviceCommandModel::SetKeyImage { image: shown, .. } => shown == image,
            DeviceCommandModel::SetLogo { image: shown } => shown == image,
            DeviceCommandModel::SetBackgroundImage { image: shown, .. } => shown == image,
            _ => false,
        },
    ensures
        ({
            let reports = encoded(version, command)->Ok_0;
            let size = if version >= 2 {
                1024int
            } else {
                512
            };
            let n = reports.len() - 1;
            &&& n >= 1
            &&& image.len() <= n * size
            &&& n > 1 ==> (n - 1) * size < image.len()
            &&& forall|k: int|
                0 <= k < n * size ==> reports[1 + #[trigger] (k / size)][1 + k % size] == if k
                    < image.len() {
                    image[k]
                } else {
                    0
                }
        }),
{
    let reports = encoded(version, command)->Ok_0;
    let size = packet_len(version) as int;
    let own = packets(command_bytes(command), packet_len(version));
    let shown = packets(image, packet_len(version));
    assert(own.len() == 1);
    lemma_count_positive(image.len(), packet_len(version));
    let n = shown.len() as int;
    assert(reports.len() == 1 + n);
    if size == 512 {
        assert(n * size == n * 512 && (n - 1) * size == (n - 1) * 512);
    } else {
        assert(n * size == n * 1024 && (n - 1) * size == (n - 1) * 1024);
    }
    assert forall|k: int| 0 <= k < n * size implies reports[1 + #[trigger] (k / size)][1 + k % size]
        == if k < image.len() {
        image[k]
    } else {
        0
    } by {
        let i = k / size;
        if size == 512 {
            assert(i * size == (k / 512) * 512 && i < n);
        } else {
            assert(i * size == (k / 1024) * 1024 && i < n);
        }
        assert(reports[1 + i] == shown[i]);
        assert(shown[i] == packet(image, packet_len(version), i));
        assert(i * packet_len(version) == i * size);
    }
}

/// Reports are 513 bytes long in the first version of the protocol and 1025 bytes from the second on.
pub proof fn reports_are_as_long_as_the_version_has_them(
    version: int,
    command: DeviceCommandModel,
    i: int,
)
    requires
        encoded(version, command) matches Ok(reports) && 0 <= i < reports.len(),
    ensures
        version <= 1 ==> (encoded(version, command)->Ok_0)[i].len() == 513,
        version >= 2 ==> (encoded(version, command)->Ok_0)[i].len() == 1025,
        (encoded(version, command)->Ok_0)[i][0] == 0,
{
}

/// A command is refused exactly for a percentage above 100, a mode above 9, or a key image of more
/// than 65535 bytes.
pub proof fn only_values_out_of_range_are_refused(version: int, command: DeviceCommandModel)
    ensures
        encoded(version, command) == Err::<Seq<Seq<u8>>, ProtocolError>(
            ProtocolError::PercentOutOfRange,
        ) <==> {
            ||| command matches DeviceCommandModel::SetBrightness { value } && value > 100
            ||| command matches DeviceCommandModel::SetLedBrightness { value } && value > 100
        },
        encoded(version, command) == Err::<Seq<Seq<u8>>, ProtocolError>(
            ProtocolError::ModeOutOfRange,
        ) <==> (command matches DeviceCommandModel::SetMode { mode } && mode > 9),
        encoded(version, command) == Err::<Seq<Seq<u8>>, ProtocolError>(
            ProtocolError::ImageTooLarge,
        ) <==> (command matches DeviceCommandModel::SetKeyImage { image, .. } && image.len()
            > 65535),
        encoded(version, command) != Err::<Seq<Seq<u8>>, ProtocolError>(
            ProtocolError::UnsupportedVersion,
        ),
{
}

/// An input report tells of a control exactly if it is long enough and starts with `ACK`: which
/// control, by the two bytes from the ninth on, and from version 3 on, by the byte behind them,
/// whether it went down or up.
pub proof fn events_are_read_from_reports(version: int, report: Seq<u8>)
    ensures
        event_of_report(version, report) is Some <==> report.len() >= 11 && word_at(
            report,
            0,
            "ACK"@,
        ),
        event_of_report(version, report) matches Some(event) ==> {
            &&& number_at(report, 8, 2) == event.button_id
            &&& version >= 3 ==> event.payload == report[10] && event.supports_release
            &&& version < 3 ==> event.payload == 1 && !event.supports_release
        },
{
    reveal_strlit("ACK");
    reveal_with_fuel(number_at, 3);
    if report.len() >= 3 && word_at(report, 0, "ACK"@) {
        assert(report[0] as int == "ACK"@[0] as int);
        assert(report[1] as int == "ACK"@[1] as int);
        assert(report[2] as int == "ACK"@[2] as int);
    }
}

/// What is told of a value of `DeviceCommand`: its variant, and each field under its own name.
pub proof fn device_command_is_told_by_field(value: DeviceCommand)
    ensures
        match (value, value.deep_view()) {
            (DeviceCommand::WakeDisplay, DeviceCommandModel::WakeDisplay) => true,
            (DeviceCommand::SleepDisplay, DeviceCommandModel::SleepDisplay) => true,
            (DeviceCommand::ClearKey { target }, DeviceCommandModel::ClearKey { target: told_target }) => told_target == target,
            (DeviceCommand::Refresh, DeviceCommandModel::Refresh) => true,
            (DeviceCommand::Connect, DeviceCommandModel::Connect) => true,
            (DeviceCommand::SetBrightness { value }, DeviceCommandModel::SetBrightness { value: told_value }) => told_value == value,
            (DeviceCommand::SetMode { mode }, DeviceCommandModel::SetMode { mode: told_mode }) => told_mode == mode,
            (DeviceCommand::SetLedBrightness { value }, DeviceCommandModel::SetLedBrightness { value: told_value }) => told_value == value,
            (DeviceCommand::SetLedColors { colors }, DeviceCommandModel::SetLedColors { colors: told_colors }) => told_colors == color_bytes(colors@),
            (DeviceCommand::ShutdownClear, DeviceCommandModel::ShutdownClear) => true,
            (DeviceCommand::SetKeyImage { key, image }, DeviceCommandModel::SetKeyImage { key: told_key, image: told_image }) => told_key == key
                && told_image == image@,
            (DeviceCommand::SetLogo { image }, DeviceCommandModel::SetLogo { image: told_image }) => told_image == image@,
            (DeviceCommand::SetBackgroundImage { image, x, y, width, height, frame_buffer }, DeviceCommandModel::SetBackgroundImage { image: told_image, x: told_x, y: told_y, width: told_width, height: told_height, frame_buffer: told_frame_buffer }) => told_image == image@
                && told_x == x
                && told_y == y
                && told_width == width
                && told_height == height
                && told_frame_buffer == frame_buffer,
            _ => false,
        },
{
}

/// The bytes of reports are those of each report, in order; and so for the colors.
pub proof fn reports_keep_their_order(reports: Seq<Vec<u8>>, colors: Seq<[u8; 3]>, i: int)
    ensures
        report_bytes(reports).len() == reports.len(),
        0 <= i < reports.len() ==> report_bytes(reports)[i] == reports[i]@,
        color_bytes(colors).len() == colors.len(),
        0 <= i < colors.len() ==> color_bytes(colors)[i] == colors[i]@,
{
}

} // verus!
