//! The commands that a layout has its devices be sent when they come, while they stay, and when they
//! go.

use vstd::prelude::*;

use crate::layout::{
    lemma_mapping, lemma_sequence, ArgModel, ArgValue, Heartbeat, InitCommand, InitCommandModel,
};
use crate::protocol::{
    color_bytes, encoded, report_bytes, DeviceCommand, DeviceCommandModel, MiraBoxProtocol,
    ProtocolError,
};
use crate::text::same_text;

verus! {

/// Why a command of a layout cannot be sent.
#[derive(Debug, PartialEq, Eq)]
pub enum SetupError {
    /// A command that is not known.
    UnsupportedCommand { cmd: String },
    /// An argument that is not there.
    MissingArgument { name: String },
    /// A number that does not fit into a byte.
    NotAByte { name: String },
    /// An argument that is no list.
    NotASequence { name: String },
    /// A color that is no list of three.
    NotATriple { name: String, index: usize },
    /// A part of a color that is no number.
    ComponentNotAnInteger { name: String, index: usize, component: usize },
    /// A part of a color that does not fit into a byte.
    ComponentNotAByte { name: String, index: usize, component: usize },
    /// A value that the device does not take.
    Protocol(ProtocolError),
}

/// What is wrong with a command of a layout.
pub enum SetupErrorModel {
    UnsupportedCommand { cmd: Seq<char> },
    MissingArgument { name: Seq<char> },
    NotAByte { name: Seq<char> },
    NotASequence { name: Seq<char> },
    NotATriple { name: Seq<char>, index: int },
    ComponentNotAnInteger { name: Seq<char>, index: int, component: int },
    ComponentNotAByte { name: Seq<char>, index: int, component: int },
    Protocol(ProtocolError),
}

impl DeepView for SetupError {
    type V = SetupErrorModel;

    open spec fn deep_view(&self) -> SetupErrorModel {
        match self {
            SetupError::UnsupportedCommand { cmd } => SetupErrorModel::UnsupportedCommand {
                cmd: cmd@,
            },
            SetupError::MissingArgument { name } => SetupErrorModel::MissingArgument { name: name@ },
            SetupError::NotAByte { name } => SetupErrorModel::NotAByte { name: name@ },
            SetupError::NotASequence { name } => SetupErrorModel::NotASequence { name: name@ },
            SetupError::NotATriple { name, index } => SetupErrorModel::NotATriple {
                name: name@,
                index: *index as int,
            },
            SetupError::ComponentNotAnInteger { name, index, component } =>
                SetupErrorModel::ComponentNotAnInteger {
                name: name@,
                index: *index as int,
                component: *component as int,
            },
            SetupError::ComponentNotAByte { name, index, component } =>
                SetupErrorModel::ComponentNotAByte {
                name: name@,
                index: *index as int,
                component: *component as int,
            },
            SetupError::Protocol(error) => SetupErrorModel::Protocol(*error),
        }
    }
}

// ---------------------------------------------------------------------------------------------
// Arguments
// ---------------------------------------------------------------------------------------------

/// The first entry with the name.
pub open spec fn entry_named(entries: Seq<(Seq<char>, ArgModel)>, name: Seq<char>) -> Option<
    ArgModel,
>
    decreases entries.len(),
{
    if entries.len() == 0 {
        None
    } else if entries[0].0 == name {
        Some(entries[0].1)
    } else {
        entry_named(entries.drop_first(), name)
    }
}

/// The argument with the name, if it is there.
pub open spec fn argument(args: ArgModel, name: Seq<char>) -> Option<ArgModel> {
    match args {
        ArgModel::Mapping(entries) => entry_named(entries, name),
        _ => None,
    }
}

/// The number that an argument is. An argument that is no number counts as missing.
pub open spec fn number_argument(args: ArgModel, name: Seq<char>) -> Option<u64> {
    match argument(args, name) {
        Some(ArgModel::Unsigned(value)) => Some(value),
        _ => None,
    }
}

/// The byte that an argument is, if it is there.
pub open spec fn byte_argument(args: ArgModel, name: Seq<char>) -> Result<
    Option<u8>,
    SetupErrorModel,
> {
    match number_argument(args, name) {
        None => Ok(None),
        Some(value) => if value > 255 {
            Err(SetupErrorModel::NotAByte { name })
        } else {
            Ok(Some(value as u8))
        },
    }
}

/// The byte that an argument is, or another where the argument is missing.
pub open spec fn byte_or(args: ArgModel, name: Seq<char>, other: u8) -> Result<
    u8,
    SetupErrorModel,
> {
    match byte_argument(args, name) {
        Err(error) => Err(error),
        Ok(Some(value)) => Ok(value),
        Ok(None) => Ok(other),
    }
}

/// The byte that an argument is, which has to be there.
pub open spec fn required_byte(args: ArgModel, name: Seq<char>) -> Result<u8, SetupErrorModel> {
    match byte_argument(args, name) {
        Err(error) => Err(error),
        Ok(Some(value)) => Ok(value),
        Ok(None) => Err(SetupErrorModel::MissingArgument { name }),
    }
}

/// A part of a color.
pub open spec fn component_byte(
    value: ArgModel,
    name: Seq<char>,
    index: int,
    component: int,
) -> Result<u8, SetupErrorModel> {
    match value {
        ArgModel::Unsigned(value) => if value > 255 {
            Err(SetupErrorModel::ComponentNotAByte { name, index, component })
        } else {
            Ok(value as u8)
        },
        _ => Err(SetupErrorModel::ComponentNotAnInteger { name, index, component }),
    }
}

/// A color: red, green and blue.
pub open spec fn color(value: ArgModel, name: Seq<char>, index: int) -> Result<
    Seq<u8>,
    SetupErrorModel,
> {
    match value {
        ArgModel::Sequence(parts) => if parts.len() != 3 {
            Err(SetupErrorModel::NotATriple { name, index })
        } else {
            match component_byte(parts[0], name, index, 0) {
                Err(error) => Err(error),
                Ok(red) => match component_byte(parts[1], name, index, 1) {
                    Err(error) => Err(error),
                    Ok(green) => match component_byte(parts[2], name, index, 2) {
                        Err(error) => Err(error),
                        Ok(blue) => Ok(seq![red, green, blue]),
                    },
                },
            }
        },
        _ => Err(SetupErrorModel::NotATriple { name, index }),
    }
}

/// The first `n` colors of a list, or what is wrong with the first that is none.
pub open spec fn colors_upto(list: Seq<ArgModel>, name: Seq<char>, n: nat) -> Result<
    Seq<Seq<u8>>,
    SetupErrorModel,
>
    decreases n,
{
    if n == 0 {
        Ok(Seq::empty())
    } else {
        match colors_upto(list, name, (n - 1) as nat) {
            Err(error) => Err(error),
            Ok(colors) => match color(list[n - 1], name, n - 1) {
                Err(error) => Err(error),
                Ok(color) => Ok(colors.push(color)),
            },
        }
    }
}

/// The colors that an argument is, which has to be there.
pub open spec fn required_colors(args: ArgModel, name: Seq<char>) -> Result<
    Seq<Seq<u8>>,
    SetupErrorModel,
> {
    match argument(args, name) {
        None => Err(SetupErrorModel::MissingArgument { name }),
        Some(ArgModel::Sequence(list)) => colors_upto(list, name, list.len()),
        Some(_) => Err(SetupErrorModel::NotASequence { name }),
    }
}

/// The device command that a command of a layout stands for.
pub open spec fn device_command(command: InitCommandModel) -> Result<
    DeviceCommandModel,
    SetupErrorModel,
> {
    let args = command.args;
    if command.cmd == "wake_display"@ {
        Ok(DeviceCommandModel::WakeDisplay)
    } else if command.cmd == "sleep_display"@ {
        Ok(DeviceCommandModel::SleepDisplay)
    } else if command.cmd == "clear_key"@ {
        Ok(
            DeviceCommandModel::ClearKey {
                target: match number_argument(args, "target"@) {
                    Some(value) => (value % 0x1_0000_0000) as u32,
                    None => 0xFF,
                },
            },
        )
    } else if command.cmd == "refresh"@ {
        Ok(DeviceCommandModel::Refresh)
    } else if command.cmd == "connect"@ {
        Ok(DeviceCommandModel::Connect)
    } else if command.cmd == "set_brightness"@ {
        match byte_or(args, "value"@, 100) {
            Ok(value) => Ok(DeviceCommandModel::SetBrightness { value }),
            Err(error) => Err(error),
        }
    } else if command.cmd == "set_mode"@ {
        match required_byte(args, "mode"@) {
            Ok(mode) => Ok(DeviceCommandModel::SetMode { mode }),
            Err(error) => Err(error),
        }
    } else if command.cmd == "set_led_brightness"@ {
        match byte_or(args, "value"@, 100) {
            Ok(value) => Ok(DeviceCommandModel::SetLedBrightness { value }),
            Err(error) => Err(error),
        }
    } else if command.cmd == "set_led_colors"@ {
        match required_colors(args, "colors"@) {
            Ok(colors) => Ok(DeviceCommandModel::SetLedColors { colors }),
            Err(error) => Err(error),
        }
    } else if command.cmd == "shutdown_clear"@ {
        Ok(DeviceCommandModel::ShutdownClear)
    } else {
        Err(SetupErrorModel::UnsupportedCommand { cmd: command.cmd })
    }
}

/// What a result is, with what the value and the error are.
pub open spec fn outcome<T: DeepView>(r: Result<T, SetupError>) -> Result<T::V, SetupErrorModel> {
    match r {
        Ok(value) => Ok(value.deep_view()),
        Err(error) => Err(error.deep_view()),
    }
}

fn find_argument<'a>(args: &'a ArgValue, name: &str) -> (r: Option<&'a ArgValue>)
    ensures
        r.deep_view() == argument(args.deep_view(), name@),
{
    match args {
        ArgValue::Mapping(entries) => {
            let ghost all = entries.deep_view();
            proof {
                lemma_mapping(*entries);
                assert(all.skip(0) =~= all);
            }
            let n: usize = entries.len();
            let mut i: usize = 0;
            while i < n
                invariant
                    i <= n == entries@.len(),
                    all == entries.deep_view(),
                    entry_named(all, name@) == entry_named(all.skip(i as int), name@),
                    args.deep_view() == ArgModel::Mapping(all),
                decreases n - i,
            {
                assert(all.skip(i as int)[0] == entries@[i as int].deep_view());
                if same_text(entries[i].0.as_str(), name) {
                    return Some(&entries[i].1);
                }
                assert(all.skip(i as int).drop_first() =~= all.skip(i + 1));
                i += 1;
            }
            None
        },
        _ => None,
    }
}

fn find_number(args: &ArgValue, name: &str) -> (r: Option<u64>)
    ensures
        r == number_argument(args.deep_view(), name@),
{
    match find_argument(args, name) {
        Some(ArgValue::Unsigned(value)) => Some(*value),
        _ => None,
    }
}

fn optional_u8(args: &ArgValue, name: &str) -> (r: Result<Option<u8>, SetupError>)
    ensures
        outcome(r) == byte_argument(args.deep_view(), name@),
{
    match find_number(args, name) {
        None => Ok(None),
        Some(value) => if value > 255 {
            Err(SetupError::NotAByte { name: name.to_owned() })
        } else {
            Ok(Some(value as u8))
        },
    }
}

fn u8_or(args: &ArgValue, name: &str, other: u8) -> (r: Result<u8, SetupError>)
    ensures
        outcome(r) == byte_or(args.deep_view(), name@, other),
{
    match optional_u8(args, name)? {
        Some(value) => Ok(value),
        None => Ok(other),
    }
}

fn required_u8(args: &ArgValue, name: &str) -> (r: Result<u8, SetupError>)
    ensures
        outcome(r) == required_byte(args.deep_view(), name@),
{
    match optional_u8(args, name)? {
        Some(value) => Ok(value),
        None => Err(SetupError::MissingArgument { name: name.to_owned() }),
    }
}

fn component_u8(value: &ArgValue, name: &str, index: usize, component: usize) -> (r: Result<
    u8,
    SetupError,
>)
    ensures
        outcome(r) == component_byte(value.deep_view(), name@, index as int, component as int),
{
    match value {
        ArgValue::Unsigned(value) => if *value > 255 {
            Err(SetupError::ComponentNotAByte { name: name.to_owned(), index, component })
        } else {
            Ok(*value as u8)
        },
        _ => Err(SetupError::ComponentNotAnInteger { name: name.to_owned(), index, component }),
    }
}

fn required_color(value: &ArgValue, name: &str, index: usize) -> (r: Result<[u8; 3], SetupError>)
    ensures
        match r {
            Ok(parts) => color(value.deep_view(), name@, index as int) == Ok::<
                Seq<u8>,
                SetupErrorModel,
            >(parts@),
            Err(error) => color(value.deep_view(), name@, index as int) == Err::<
                Seq<u8>,
                SetupErrorModel,
            >(error.deep_view()),
        },
{
    match value {
        ArgValue::Sequence(parts) => {
            proof {
                lemma_sequence(*parts);
            }
            if parts.len() != 3 {
                return Err(SetupError::NotATriple { name: name.to_owned(), index });
            }
            assert(parts.deep_view()[0] == parts@[0].deep_view());
            assert(parts.deep_view()[1] == parts@[1].deep_view());
            assert(parts.deep_view()[2] == parts@[2].deep_view());
            let red = component_u8(&parts[0], name, index, 0)?;
            let green = component_u8(&parts[1], name, index, 1)?;
            let blue = component_u8(&parts[2], name, index, 2)?;
            let rgb = [red, green, blue];
            assert(rgb@ =~= seq![red, green, blue]);
            Ok(rgb)
        },
        _ => Err(SetupError::NotATriple { name: name.to_owned(), index }),
    }
}

proof fn lemma_colors_fail(list: Seq<ArgModel>, name: Seq<char>, n: nat, m: nat)
    requires
        n <= m,
        colors_upto(list, name, n) is Err,
    ensures
        colors_upto(list, name, m) == colors_upto(list, name, n),
    decreases m,
{
    if n < m {
        lemma_colors_fail(list, name, n, (m - 1) as nat);
    }
}

fn required_rgb_colors(args: &ArgValue, name: &str) -> (r: Result<Vec<[u8; 3]>, SetupError>)
    ensures
        match r {
            Ok(colors) => required_colors(args.deep_view(), name@) == Ok::<
                Seq<Seq<u8>>,
                SetupErrorModel,
            >(color_bytes(colors@)),
            Err(error) => required_colors(args.deep_view(), name@) == Err::<
                Seq<Seq<u8>>,
                SetupErrorModel,
            >(error.deep_view()),
        },
{
    let list = match find_argument(args, name) {
        None => return Err(SetupError::MissingArgument { name: name.to_owned() }),
        Some(ArgValue::Sequence(list)) => list,
        Some(_) => return Err(SetupError::NotASequence { name: name.to_owned() }),
    };
    let ghost all = list.deep_view();
    proof {
        lemma_sequence(*list);
    }
    let mut colors: Vec<[u8; 3]> = Vec::new();
    assert(color_bytes(colors@) =~= Seq::<Seq<u8>>::empty());
    let n: usize = list.len();
    let mut i: usize = 0;
    while i < n
        invariant
            i <= n == list@.len(),
            all == list.deep_view(),
            required_colors(args.deep_view(), name@) == colors_upto(all, name@, all.len()),
            colors_upto(all, name@, i as nat) == Ok::<Seq<Seq<u8>>, SetupErrorModel>(
                color_bytes(colors@),
            ),
        decreases n - i,
    {
        assert(all[i as int] == list@[i as int].deep_view());
        let ghost before = color_bytes(colors@);
        match required_color(&list[i], name, i) {
            Ok(rgb) => {
                colors.push(rgb);
                assert(color_bytes(colors@) =~= before.push(rgb@));
            },
            Err(error) => {
                proof {
                    lemma_colors_fail(all, name@, (i + 1) as nat, all.len());
                }
                return Err(error);
            },
        }
        i += 1;
    }
    Ok(colors)
}

/// The device command that a command of a layout stands for.
pub fn layout_command_to_protocol(command: &InitCommand) -> (r: Result<DeviceCommand, SetupError>)
    ensures
        outcome(r) == device_command(command.deep_view()),
{
    let args = &command.args;
    let cmd = command.cmd.as_str();
    if same_text(cmd, "wake_display") {
        Ok(DeviceCommand::WakeDisplay)
    } else if same_text(cmd, "sleep_display") {
        Ok(DeviceCommand::SleepDisplay)
    } else if same_text(cmd, "clear_key") {
        let target: u32 = match find_number(args, "target") {
            Some(value) => (value % 0x1_0000_0000) as u32,
            None => 0xFF,
        };
        Ok(DeviceCommand::ClearKey { target })
    } else if same_text(cmd, "refresh") {
        Ok(DeviceCommand::Refresh)
    } else if same_text(cmd, "connect") {
        Ok(DeviceCommand::Connect)
    } else if same_text(cmd, "set_brightness") {
        let value = u8_or(args, "value", 100)?;
        Ok(DeviceCommand::SetBrightness { value })
    } else if same_text(cmd, "set_mode") {
        let mode = required_u8(args, "mode")?;
        Ok(DeviceCommand::SetMode { mode })
    } else if same_text(cmd, "set_led_brightness") {
        let value = u8_or(args, "value", 100)?;
        Ok(DeviceCommand::SetLedBrightness { value })
    } else if same_text(cmd, "set_led_colors") {
        let colors = required_rgb_colors(args, "colors")?;
        Ok(DeviceCommand::SetLedColors { colors })
    } else if same_text(cmd, "shutdown_clear") {
        Ok(DeviceCommand::ShutdownClear)
    } else {
        Err(SetupError::UnsupportedCommand { cmd: command.cmd.clone() })
    }
}

// ---------------------------------------------------------------------------------------------
// Sequences of commands
// ---------------------------------------------------------------------------------------------

/// The reports of a command of a layout.
pub open spec fn setup_reports(version: int, command: InitCommandModel) -> Result<
    Seq<Seq<u8>>,
    SetupErrorModel,
> {
    match device_command(command) {
        Err(error) => Err(error),
        Ok(command) => match encoded(version, command) {
            Ok(reports) => Ok(reports),
            Err(error) => Err(SetupErrorModel::Protocol(error)),
        },
    }
}

fn setup_packets(protocol: &MiraBoxProtocol, command: &InitCommand) -> (r: Result<
    Vec<Vec<u8>>,
    SetupError,
>)
    ensures
        match r {
            Ok(reports) => setup_reports(protocol.version(), command.deep_view()) == Ok::<
                Seq<Seq<u8>>,
                SetupErrorModel,
            >(report_bytes(reports@)),
            Err(error) => setup_reports(protocol.version(), command.deep_view()) == Err::<
                Seq<Seq<u8>>,
                SetupErrorModel,
            >(error.deep_view()),
        },
{
    let command = layout_command_to_protocol(command)?;
    match protocol.encode_command(&command) {
        Ok(reports) => Ok(reports),
        Err(error) => Err(SetupError::Protocol(error)),
    }
}

/// The bytes of groups of reports.
pub open spec fn group_bytes(groups: Seq<Vec<Vec<u8>>>) -> Seq<Seq<Seq<u8>>> {
    Seq::new(groups.len(), |i: int| report_bytes(groups[i]@))
}

/// The reports of a sequence of commands, a group for each, up to the first command that cannot be
/// sent, and what is wrong with that one.
pub open spec fn sequence_reports(version: int, commands: Seq<InitCommandModel>) -> (
    Seq<Seq<Seq<u8>>>,
    Option<SetupErrorModel>,
)
    decreases commands.len(),
{
    if commands.len() == 0 {
        (Seq::empty(), None)
    } else {
        match setup_reports(version, commands[0]) {
            Err(error) => (Seq::empty(), Some(error)),
            Ok(reports) => {
                let (groups, error) = sequence_reports(version, commands.drop_first());
                (seq![reports] + groups, error)
            },
        }
    }
}

/// The reports of a sequence of commands, a batch for each, up to the first command that cannot be
/// sent, and what is wrong with that one.
pub fn run_init_sequence(protocol: &MiraBoxProtocol, commands: &Vec<InitCommand>) -> (r: (
    Vec<Vec<Vec<u8>>>,
    Option<SetupError>,
))
    ensures
        r.0@.len() <= commands@.len(),
        forall|i: int|
            0 <= i < r.0@.len() ==> setup_reports(
                protocol.version(),
                commands@[i].deep_view(),
            ) == Ok::<Seq<Seq<u8>>, SetupErrorModel>(report_bytes((#[trigger] r.0@[i])@)),
        match r.1 {
            None => r.0@.len() == commands@.len(),
            Some(error) => r.0@.len() < commands@.len() && setup_reports(
                protocol.version(),
                commands@[r.0@.len() as int].deep_view(),
            ) == Err::<Seq<Seq<u8>>, SetupErrorModel>(error.deep_view()),
        },
        (group_bytes(r.0@), r.1.deep_view()) == sequence_reports(
            protocol.version(),
            commands.deep_view(),
        ),
{
    let ghost version = protocol.version();
    let ghost all = commands.deep_view();
    let ghost whole = sequence_reports(version, all);
    let mut batches: Vec<Vec<Vec<u8>>> = Vec::new();
    let n: usize = commands.len();
    let mut i: usize = 0;
    proof {
        assert(all.skip(0) =~= all);
        assert(group_bytes(batches@) + whole.0 =~= whole.0);
    }
    while i < n
        invariant
            i <= n == commands@.len(),
            batches@.len() == i,
            version == protocol.version(),
            all == commands.deep_view(),
            whole == sequence_reports(version, all),
            whole.0 == group_bytes(batches@) + sequence_reports(version, all.skip(i as int)).0,
            whole.1 == sequence_reports(version, all.skip(i as int)).1,
            forall|k: int|
                0 <= k < i ==> setup_reports(protocol.version(), commands@[k].deep_view()) == Ok::<
                    Seq<Seq<u8>>,
                    SetupErrorModel,
                >(report_bytes((#[trigger] batches@[k])@)),
        decreases n - i,
    {
        let ghost so_far = group_bytes(batches@);
        let ghost rest = all.skip(i as int);
        assert(rest[0] == commands@[i as int].deep_view());
        assert(rest.drop_first() =~= all.skip(i + 1));
        match setup_packets(protocol, &commands[i]) {
            Ok(reports) => {
                batches.push(reports);
                assert(group_bytes(batches@) =~= so_far.push(report_bytes(reports@)));
                assert(so_far + sequence_reports(version, rest).0 =~= group_bytes(batches@)
                    + sequence_reports(version, all.skip(i + 1)).0);
            },
            Err(error) => {
                assert(so_far + Seq::<Seq<Seq<u8>>>::empty() =~= so_far);
                return (batches, Some(error));
            },
        }
        i += 1;
    }
    assert(group_bytes(batches@) + Seq::<Seq<Seq<u8>>>::empty() =~= group_bytes(batches@));
    (batches, None)
}

// ---------------------------------------------------------------------------------------------
// Heartbeats
// ---------------------------------------------------------------------------------------------

/// The nanoseconds of a number of seconds.
pub open spec fn nanos(seconds: u64) -> int {
    seconds as int * 1_000_000_000
}

/// When each heartbeat of a layout is due, in nanoseconds of a clock that only goes forward.
#[derive(Debug)]
pub struct HeartbeatClock {
    due: Vec<u128>,
}

impl View for HeartbeatClock {
    type V = Seq<u128>;

    closed spec fn view(&self) -> Seq<u128> {
        self.due@
    }
}

impl HeartbeatClock {
    /// Each heartbeat is due when its period is over.
    pub fn start(heartbeats: &Vec<Heartbeat>, now: u64) -> (r: Self)
        ensures
            r@.len() == heartbeats@.len(),
            forall|i: int|
                0 <= i < r@.len() ==> #[trigger] r@[i] == now + nanos(heartbeats@[i].period),
    {
        let mut due: Vec<u128> = Vec::new();
        let n: usize = heartbeats.len();
        let mut i: usize = 0;
        while i < n
            invariant
                i <= n == heartbeats@.len(),
                due@.len() == i,
                forall|k: int|
                    0 <= k < i ==> #[trigger] due@[k] == now + nanos(heartbeats@[k].period),
            decreases n - i,
        {
            due.push(now as u128 + heartbeats[i].period as u128 * 1_000_000_000);
            i += 1;
        }
        HeartbeatClock { due }
    }

    /// Whether a heartbeat is due.
    pub fn is_due(&self, i: usize, now: u64) -> (r: bool)
        requires
            i < self@.len(),
        ensures
            r == (self@[i as int] <= now),
    {
        self.due[i] <= now as u128
    }

    /// The heartbeats that are due. Each of them is due again when its period is over; the others
    /// wait on.
    pub fn tick(&mut self, heartbeats: &Vec<Heartbeat>, now: u64) -> (r: Vec<usize>)
        requires
            old(self)@.len() == heartbeats@.len(),
        ensures
            final(self)@.len() == old(self)@.len(),
            forall|i: int|
                0 <= i < heartbeats@.len() ==> #[trigger] final(self)@[i] == if old(self)@[i]
                    <= now {
                    now + nanos(heartbeats@[i].period)
                } else {
                    old(self)@[i] as int
                },
            forall|k: int| 0 <= k < r@.len() ==> (#[trigger] r@[k]) < heartbeats@.len(),
            forall|k: int, l: int| 0 <= k < l < r@.len() ==> #[trigger] r@[k] < #[trigger] r@[l],
            forall|i: usize|
                i < heartbeats@.len() ==> (#[trigger] r@.contains(i) <==> old(self)@[i as int]
                    <= now),
    {
        let mut ready: Vec<usize> = Vec::new();
        let ghost before = self.due@;
        let n: usize = heartbeats.len();
        let mut i: usize = 0;
        while i < n
            invariant
                i <= n == heartbeats@.len(),
                before.len() == n,
                self.due@.len() == n,
                forall|k: int|
                    0 <= k < i ==> #[trigger] self.due@[k] == if before[k] <= now {
                        now + nanos(heartbeats@[k].period)
                    } else {
                        before[k] as int
                    },
                forall|k: int| i <= k < n ==> #[trigger] self.due@[k] == before[k],
                forall|k: int| 0 <= k < ready@.len() ==> (#[trigger] ready@[k]) < i,
                forall|k: int, l: int|
                    0 <= k < l < ready@.len() ==> #[trigger] ready@[k] < #[trigger] ready@[l],
                forall|k: usize|
                    k < i ==> (#[trigger] ready@.contains(k) <==> before[k as int] <= now),
            decreases n - i,
        {
            let ghost so_far = ready@;
            if self.due[i] <= now as u128 {
                self.due[i] = now as u128 + heartbeats[i].period as u128 * 1_000_000_000;
                ready.push(i);
                assert(ready@[ready@.len() - 1] == i);
            }
            assert forall|k: usize| k < i + 1 implies (#[trigger] ready@.contains(k) <==> before[
                k as int
            ] <= now) by {
                if k < i {
                    if so_far.contains(k) {
                        let at = choose|at: int| 0 <= at < so_far.len() && so_far[at] == k;
                        assert(ready@[at] == k);
                    }
                    if ready@.contains(k) {
                        let at = choose|at: int| 0 <= at < ready@.len() && ready@[at] == k;
                        assert(so_far[at] == k);
                    }
                } else if ready@.contains(k) && before[k as int] > now {
                    let at = choose|at: int| 0 <= at < ready@.len() && ready@[at] == k;
                    assert(ready@[at] < i);
                }
            }
            i += 1;
        }
        ready
    }
}

// ---------------------------------------------------------------------------------------------
// Laws
// ---------------------------------------------------------------------------------------------

/// Whether the argument with the name is the number.
pub open spec fn says_number(args: ArgModel, name: Seq<char>, value: int) -> bool {
    argument(args, name) matches Some(ArgModel::Unsigned(told)) && told == value
}

/// Whether the argument with the name is no number, or not there.
pub open spec fn says_no_number(args: ArgModel, name: Seq<char>) -> bool {
    !(argument(args, name) matches Some(ArgModel::Unsigned(_)))
}

/// Whether the list is that of the colors: each a list of three numbers.
pub open spec fn lists_colors(list: Seq<ArgModel>, colors: Seq<Seq<u8>>) -> bool {
    &&& list.len() == colors.len()
    &&& forall|i: int| 0 <= i < list.len() ==> is_color(#[trigger] list[i], colors[i])
}

/// Whether the argument is the color: red, green and blue.
pub open spec fn is_color(value: ArgModel, parts: Seq<u8>) -> bool {
    &&& value matches ArgModel::Sequence(told)
    &&& told.len() == 3
    &&& parts.len() == 3
    &&& told[0] matches ArgModel::Unsigned(red) && red == parts[0]
    &&& told[1] matches ArgModel::Unsigned(green) && green == parts[1]
    &&& told[2] matches ArgModel::Unsigned(blue) && blue == parts[2]
}

proof fn lemma_is_color(value: ArgModel, name: Seq<char>, index: int, parts: Seq<u8>)
    ensures
        color(value, name, index) == Ok::<Seq<u8>, SetupErrorModel>(parts) <==> is_color(
            value,
            parts,
        ),
{
    if is_color(value, parts) {
        assert(parts =~= seq![parts[0], parts[1], parts[2]]);
    }
}

proof fn lemma_lists_colors(
    list: Seq<ArgModel>,
    name: Seq<char>,
    n: nat,
    colors: Seq<Seq<u8>>,
)
    requires
        n <= list.len(),
    ensures
        colors_upto(list, name, n) == Ok::<Seq<Seq<u8>>, SetupErrorModel>(colors) <==> {
            &&& colors.len() == n
            &&& forall|i: int| 0 <= i < n ==> is_color(#[trigger] list[i], colors[i])
        },
    decreases n,
{
    if n == 0 {
        if colors.len() == 0 {
            assert(colors =~= Seq::<Seq<u8>>::empty());
        }
    } else {
        let m = (n - 1) as nat;
        if let Ok(earlier) = colors_upto(list, name, m) {
            lemma_lists_colors(list, name, m, earlier);
            if let Ok(last) = color(list[n - 1], name, n - 1) {
                lemma_is_color(list[n - 1], name, n - 1, last);
                assert(colors_upto(list, name, n) == Ok::<Seq<Seq<u8>>, SetupErrorModel>(
                    earlier.push(last),
                ));
            }
        }
        if colors.len() == n {
            let first = colors.drop_last();
            lemma_lists_colors(list, name, m, first);
            lemma_is_color(list[n - 1], name, n - 1, colors.last());
            assert(colors =~= first.push(colors.last()));
            if forall|i: int| 0 <= i < n ==> is_color(#[trigger] list[i], colors[i]) {
                assert forall|i: int| 0 <= i < m implies is_color(#[trigger] list[i], first[i]) by {
                    assert(is_color(list[i], colors[i]));
                }
            }
        }
    }
}

/// What a command of a layout stands for, by its name and its arguments. A brightness that is not given
/// is full; a target that is not given is all displays, and only its low 32 bits count; modes and colors
/// have to be given.
pub proof fn layout_commands_stand_for_device_commands(
    command: InitCommandModel,
    meant: DeviceCommandModel,
)
    ensures
        device_command(command) == Ok::<DeviceCommandModel, SetupErrorModel>(meant) <==> {
            let args = command.args;
            match meant {
                DeviceCommandModel::WakeDisplay => command.cmd == "wake_display"@,
                DeviceCommandModel::SleepDisplay => command.cmd == "sleep_display"@,
                DeviceCommandModel::Refresh => command.cmd == "refresh"@,
                DeviceCommandModel::Connect => command.cmd == "connect"@,
                DeviceCommandModel::ShutdownClear => command.cmd == "shutdown_clear"@,
                DeviceCommandModel::ClearKey { target } => {
                    &&& command.cmd == "clear_key"@
                    &&& says_no_number(args, "target"@) ==> target == 255
                    &&& argument(args, "target"@) matches Some(ArgModel::Unsigned(told)) ==> target
                        == told as int % 0x1_0000_0000
                },
                DeviceCommandModel::SetBrightness { value } => {
                    &&& command.cmd == "set_brightness"@
                    &&& says_number(args, "value"@, value as int) || (says_no_number(
                        args,
                        "value"@,
                    ) && value == 100)
                },
                DeviceCommandModel::SetLedBrightness { value } => {
                    &&& command.cmd == "set_led_brightness"@
                    &&& says_number(args, "value"@, value as int) || (says_no_number(
                        args,
                        "value"@,
                    ) && value == 100)
                },
                DeviceCommandModel::SetMode { mode } => {
                    &&& command.cmd == "set_mode"@
                    &&& says_number(args, "mode"@, mode as int)
                },
                DeviceCommandModel::SetLedColors { colors } => {
                    &&& command.cmd == "set_led_colors"@
                    &&& argument(args, "colors"@) matches Some(ArgModel::Sequence(list))
                    &&& lists_colors(list, colors)
                },
                DeviceCommandModel::SetKeyImage { .. } => false,
                DeviceCommandModel::SetLogo { .. } => false,
                DeviceCommandModel::SetBackgroundImage { .. } => false,
            }
        },
{
    lemma_command_names();
    if let Some(ArgModel::Sequence(list)) = argument(command.args, "colors"@) {
        if let DeviceCommandModel::SetLedColors { colors } = meant {
            lemma_lists_colors(list, "colors"@, list.len(), colors);
        }
    }
}

proof fn lemma_command_names()
    ensures
        "wake_display"@.len() == 12,
        "sleep_display"@.len() == 13,
        "clear_key"@.len() == 9,
        "refresh"@.len() == 7,
        "connect"@.len() == 7,
        "refresh"@[0] != "connect"@[0],
        "set_brightness"@.len() == 14,
        "set_mode"@.len() == 8,
        "set_led_brightness"@.len() == 18,
        "set_led_colors"@.len() == 14,
        "set_brightness"@[4] != "set_led_colors"@[4],
        "shutdown_clear"@.len() == 14,
        "shutdown_clear"@[1] != "set_brightness"@[1],
        "shutdown_clear"@[1] != "set_led_colors"@[1],
{
    reveal_strlit("wake_display");
    reveal_strlit("sleep_display");
    reveal_strlit("clear_key");
    reveal_strlit("refresh");
    reveal_strlit("connect");
    reveal_strlit("set_brightness");
    reveal_strlit("set_mode");
    reveal_strlit("set_led_brightness");
    reveal_strlit("set_led_colors");
    reveal_strlit("shutdown_clear");
}

/// What is wrong with a command of a layout whose argument is out of range or not there.
pub proof fn arguments_have_to_be_bytes(command: InitCommandModel, value: u64)
    ensures
        command.cmd == "set_mode"@ && says_no_number(command.args, "mode"@) ==> device_command(
            command,
        ) == Err::<DeviceCommandModel, SetupErrorModel>(
            SetupErrorModel::MissingArgument { name: "mode"@ },
        ),
        command.cmd == "set_mode"@ && value > 255 && says_number(
            command.args,
            "mode"@,
            value as int,
        ) ==> device_command(command) == Err::<DeviceCommandModel, SetupErrorModel>(
            SetupErrorModel::NotAByte { name: "mode"@ },
        ),
        (command.cmd == "set_brightness"@ || command.cmd == "set_led_brightness"@) && value > 255
            && says_number(command.args, "value"@, value as int) ==> device_command(command)
            == Err::<DeviceCommandModel, SetupErrorModel>(
            SetupErrorModel::NotAByte { name: "value"@ },
        ),
        command.cmd == "set_led_colors"@ && argument(command.args, "colors"@) is None
            ==> device_command(command) == Err::<DeviceCommandModel, SetupErrorModel>(
            SetupErrorModel::MissingArgument { name: "colors"@ },
        ),
{
    lemma_command_names();
}

/// An argument is the first entry with its name.
pub proof fn arguments_are_found_by_name(
    entries: Seq<(Seq<char>, ArgModel)>,
    name: Seq<char>,
    i: int,
)
    requires
        0 <= i < entries.len(),
        entries[i].0 == name,
        forall|k: int| 0 <= k < i ==> (#[trigger] entries[k]).0 != name,
    ensures
        argument(ArgModel::Mapping(entries), name) == Some(entries[i].1),
    decreases i,
{
    if i > 0 {
        let rest = entries.drop_first();
        assert(entries[0].0 != name);
        assert forall|k: int| 0 <= k < i - 1 implies (#[trigger] rest[k]).0 != name by {
            assert(rest[k] == entries[k + 1]);
        }
        arguments_are_found_by_name(rest, name, i - 1);
    }
}

/// The reports of a command of a layout are those of the device command that it stands for.
pub proof fn layout_commands_are_sent_as_device_commands(
    version: int,
    command: InitCommandModel,
    reports: Seq<Seq<u8>>,
)
    ensures
        setup_reports(version, command) == Ok::<Seq<Seq<u8>>, SetupErrorModel>(reports) <==> (
        device_command(command) matches Ok(meant) && encoded(version, meant) == Ok::<
            Seq<Seq<u8>>,
            ProtocolError,
        >(reports)),
        setup_reports(version, command) is Err <==> {
            ||| device_command(command) is Err
            ||| encoded(version, device_command(command)->Ok_0) is Err
        },
{
}

/// Of a sequence of commands, all are sent, each by its own reports and in order, up to the first that
/// cannot be sent; that one's fault is told, and there is none where all could be sent.
pub proof fn sequences_are_sent_in_order(version: int, commands: Seq<InitCommandModel>, i: int)
    ensures
        ({
            let (groups, fault) = sequence_reports(version, commands);
            &&& groups.len() <= commands.len()
            &&& 0 <= i < groups.len() ==> setup_reports(version, commands[i]) == Ok::<
                Seq<Seq<u8>>,
                SetupErrorModel,
            >(groups[i])
            &&& fault is None <==> groups.len() == commands.len()
            &&& fault matches Some(error) ==> setup_reports(
                version,
                commands[groups.len() as int],
            ) == Err::<Seq<Seq<u8>>, SetupErrorModel>(error)
        }),
    decreases commands.len(),
{
    if commands.len() > 0 {
        let rest = commands.drop_first();
        sequences_are_sent_in_order(version, rest, i - 1);
        let (groups, fault) = sequence_reports(version, rest);
        if let Ok(reports) = setup_reports(version, commands[0]) {
            let all = seq![reports] + groups;
            assert(sequence_reports(version, commands).0 == all);
            if i > 0 && i < all.len() {
                assert(all[i] == groups[i - 1]);
                assert(commands[i] == rest[i - 1]);
            }
            if fault is Some {
                assert(commands[all.len() as int] == rest[groups.len() as int]);
            }
        }
    }
}

/// A second has a thousand million nanoseconds.
pub proof fn seconds_have_nanoseconds(seconds: u64, more: u64)
    requires
        seconds + more <= u64::MAX,
    ensures
        nanos(seconds) == seconds * 1000 * 1000 * 1000,
        nanos((seconds + more) as u64) == nanos(seconds) + nanos(more),
{
}

/// What is told of a value of `SetupError`: its variant, and each field under its own name.
pub proof fn setup_error_is_told_by_field(value: SetupError)
    ensures
        match (value, value.deep_view()) {
            (SetupError::UnsupportedCommand { cmd }, SetupErrorModel::UnsupportedCommand { cmd: told_cmd }) => told_cmd == cmd@,
            (SetupError::MissingArgument { name }, SetupErrorModel::MissingArgument { name: told_name }) => told_name == name@,
            (SetupError::NotAByte { name }, SetupErrorModel::NotAByte { name: told_name }) => told_name == name@,
            (SetupError::NotASequence { name }, SetupErrorModel::NotASequence { name: told_name }) => told_name == name@,
            (SetupError::NotATriple { name, index }, SetupErrorModel::NotATriple { name: told_name, index: told_index }) => told_name == name@
                && told_index == index,
            (SetupError::ComponentNotAnInteger { name, index, component }, SetupErrorModel::ComponentNotAnInteger { name: told_name, index: told_index, component: told_component }) => told_name == name@
                && told_index == index
                && told_component == component,
            (SetupError::ComponentNotAByte { name, index, component }, SetupErrorModel::ComponentNotAByte { name: told_name, index: told_index, component: told_component }) => told_name == name@
                && told_index == index
                && told_component == component,
            (SetupError::Protocol(held), SetupErrorModel::Protocol(told)) => told == held,
            _ => false,
        },
{
}

/// The bytes of groups are those of each group, in order.
pub proof fn groups_keep_their_order(groups: Seq<Vec<Vec<u8>>>, i: int)
    ensures
        group_bytes(groups).len() == groups.len(),
        0 <= i < groups.len() ==> group_bytes(groups)[i] == report_bytes(groups[i]@),
{
}

/// A command whose name is not known is told, and so are colors that are no list.
pub proof fn unknown_commands_are_told(command: InitCommandModel)
    ensures
        !seq![
            "wake_display"@,
            "sleep_display"@,
            "clear_key"@,
            "refresh"@,
            "connect"@,
            "set_brightness"@,
            "set_mode"@,
            "set_led_brightness"@,
            "set_led_colors"@,
            "shutdown_clear"@,
        ].contains(command.cmd) ==> device_command(command) == Err::<
            DeviceCommandModel,
            SetupErrorModel,
        >(SetupErrorModel::UnsupportedCommand { cmd: command.cmd }),
        command.cmd == "set_led_colors"@ && argument(command.args, "colors"@) is Some && !(argument(
            command.args,
            "colors"@,
        )->0 is Sequence) ==> device_command(command) == Err::<DeviceCommandModel, SetupErrorModel>(
            SetupErrorModel::NotASequence { name: "colors"@ },
        ),
{
    lemma_command_names();
    let known = seq![
        "wake_display"@,
        "sleep_display"@,
        "clear_key"@,
        "refresh"@,
        "connect"@,
        "set_brightness"@,
        "set_mode"@,
        "set_led_brightness"@,
        "set_led_colors"@,
        "shutdown_clear"@,
    ];
    assert(known[0] == "wake_display"@ && known[1] == "sleep_display"@ && known[2] == "clear_key"@
        && known[3] == "refresh"@ && known[4] == "connect"@ && known[5] == "set_brightness"@
        && known[6] == "set_mode"@ && known[7] == "set_led_brightness"@ && known[8]
        == "set_led_colors"@ && known[9] == "shutdown_clear"@);
    assert(forall|k: int| 0 <= k < known.len() ==> known.contains(#[trigger] known[k]));
}

} // verus!
