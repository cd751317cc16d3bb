//! One device from its first report to its end: what is done next, after each answer to what was done
//! before.

use vstd::prelude::*;

use crate::lanes::{DeviceRefModel, HardwareMessageBodyModel};
use crate::layout::{device_described, translated, Heartbeat, Layout};
use crate::protocol::{event_of_report, report_bytes, ProtocolError};
use crate::setup::{
    group_bytes, nanos, run_init_sequence, sequence_reports, HeartbeatClock, SetupError,
    SetupErrorModel,
};
use crate::worker::{
    request_reports, CommandStep, RuntimeCommand, RuntimeCommandModel, Worker, WorkerEvent,
    WorkerEventModel,
};

verus! {

/// What is being done with a device.
#[derive(Debug, Clone, Copy, PartialEq, Eq, Structural)]
pub enum Stage {
    /// The layout's first commands are written.
    Starting,
    /// It is seen whether a request waits.
    Draining,
    /// The reports of a request are written, before the next request is looked for.
    Serving,
    /// The commands of heartbeats are written.
    Beating,
    /// It is seen once more whether a request waits.
    Polling,
    /// The reports of that request are written, before the device is heard.
    Answering,
    /// The device is heard.
    Reading,
    /// The layout's last commands are written.
    Finishing,
    /// The device is not used any more.
    Ended,
}

/// The answer to what was done last.
#[derive(Debug)]
pub enum DeviceEvent {
    /// All was written.
    Written,
    /// Writing failed.
    WriteFailed,
    /// A request waited.
    Command(RuntimeCommand),
    /// No request waited.
    NoCommand,
    /// No request can come any more.
    Closed,
    /// The device was heard. The report is empty where it said nothing.
    Report(Vec<u8>),
    /// The device could not be heard.
    ReadFailed,
}

/// What an answer is.
pub enum DeviceEventModel {
    Written,
    WriteFailed,
    Command(RuntimeCommandModel),
    NoCommand,
    Closed,
    Report(Seq<u8>),
    ReadFailed,
}

impl DeepView for DeviceEvent {
    type V = DeviceEventModel;

    open spec fn deep_view(&self) -> DeviceEventModel {
        match self {
            DeviceEvent::Written => DeviceEventModel::Written,
            DeviceEvent::WriteFailed => DeviceEventModel::WriteFailed,
            DeviceEvent::Command(command) => DeviceEventModel::Command(command.deep_view()),
            DeviceEvent::NoCommand => DeviceEventModel::NoCommand,
            DeviceEvent::Closed => DeviceEventModel::Closed,
            DeviceEvent::Report(report) => DeviceEventModel::Report(report@),
            DeviceEvent::ReadFailed => DeviceEventModel::ReadFailed,
        }
    }
}

/// Why a device is given up.
#[derive(Debug, PartialEq, Eq)]
pub enum Reason {
    /// A command of the layout cannot be sent.
    Setup(SetupError),
    /// A request cannot be sent.
    Command(ProtocolError),
    /// Writing or hearing failed.
    Device,
    /// There was an answer to what was not done.
    OutOfTurn,
}

/// What a reason is.
pub enum ReasonModel {
    Setup(SetupErrorModel),
    Command(ProtocolError),
    Device,
    OutOfTurn,
}

impl DeepView for Reason {
    type V = ReasonModel;

    open spec fn deep_view(&self) -> ReasonModel {
        match self {
            Reason::Setup(error) => ReasonModel::Setup(error.deep_view()),
            Reason::Command(error) => ReasonModel::Command(*error),
            Reason::Device => ReasonModel::Device,
            Reason::OutOfTurn => ReasonModel::OutOfTurn,
        }
    }
}

/// What is to be done next.
#[derive(Debug, PartialEq, Eq)]
pub enum DeviceAction {
    /// Write the reports, and pause after each group.
    WriteGroups(Vec<Vec<Vec<u8>>>),
    /// Write the reports.
    Write(Vec<Vec<u8>>),
    /// See whether a request waits.
    TakeCommand,
    /// Hear the device.
    Read,
    /// Nothing: all is done.
    Stop,
    /// Nothing: the device is given up.
    GiveUp(Reason),
}

/// What an action is.
pub enum DeviceActionModel {
    WriteGroups(Seq<Seq<Seq<u8>>>),
    Write(Seq<Seq<u8>>),
    TakeCommand,
    Read,
    Stop,
    GiveUp(ReasonModel),
}

impl DeepView for DeviceAction {
    type V = DeviceActionModel;

    open spec fn deep_view(&self) -> DeviceActionModel {
        match self {
            DeviceAction::WriteGroups(groups) => DeviceActionModel::WriteGroups(
                group_bytes(groups@),
            ),
            DeviceAction::Write(reports) => DeviceActionModel::Write(report_bytes(reports@)),
            DeviceAction::TakeCommand => DeviceActionModel::TakeCommand,
            DeviceAction::Read => DeviceActionModel::Read,
            DeviceAction::Stop => DeviceActionModel::Stop,
            DeviceAction::GiveUp(reason) => DeviceActionModel::GiveUp(reason.deep_view()),
        }
    }
}

/// What is known of a device in use.
pub struct DeviceModel {
    pub manager_id: Seq<char>,
    pub device_id: Seq<char>,
    pub path_key: Seq<char>,
    pub channel: u64,
    pub version: int,
    pub layout: Layout,
    pub stage: Stage,
    /// When each heartbeat is due.
    pub due: Seq<u128>,
    /// What is wrong with a command that comes after those being written.
    pub fault: Option<SetupErrorModel>,
}

/// What is known next, what is told of the device, and what is to be done.
pub type Outcome = (DeviceModel, Seq<WorkerEventModel>, DeviceActionModel);

/// When the heartbeats are due that start now.
pub open spec fn first_due(heartbeats: Seq<Heartbeat>, now: u64) -> Seq<u128> {
    Seq::new(heartbeats.len(), |i: int| (now + nanos(heartbeats[i].period)) as u128)
}

/// When the heartbeats are due after those that are due now.
pub open spec fn next_due(heartbeats: Seq<Heartbeat>, due: Seq<u128>, now: u64) -> Seq<u128> {
    Seq::new(
        heartbeats.len(),
        |i: int|
            if due[i] <= now {
                (now + nanos(heartbeats[i].period)) as u128
            } else {
                due[i]
            },
    )
}

/// Whether a heartbeat is due.
pub open spec fn any_due(due: Seq<u128>, now: u64) -> bool {
    exists|i: int| 0 <= i < due.len() && #[trigger] due[i] <= now
}

/// The reports of the heartbeats that are due, from one of them on, up to the first command that
/// cannot be sent, and what is wrong with that one.
pub open spec fn beat_reports(
    version: int,
    heartbeats: Seq<Heartbeat>,
    due: Seq<u128>,
    now: u64,
    i: int,
) -> (Seq<Seq<Seq<u8>>>, Option<SetupErrorModel>)
    decreases heartbeats.len() - i,
{
    if i < 0 || i >= heartbeats.len() {
        (Seq::empty(), None)
    } else if due[i] > now {
        beat_reports(version, heartbeats, due, now, i + 1)
    } else {
        let (groups, error) = sequence_reports(version, heartbeats[i].commands.deep_view());
        if error is Some {
            (groups, error)
        } else {
            let (more, fault) = beat_reports(version, heartbeats, due, now, i + 1);
            (groups + more, fault)
        }
    }
}

/// Nothing is told, and one thing is to be done.
pub open spec fn goes_on(device: DeviceModel, stage: Stage, action: DeviceActionModel) -> Outcome {
    (DeviceModel { stage, ..device }, Seq::empty(), action)
}

/// The device is given up.
pub open spec fn given_up(device: DeviceModel, reason: ReasonModel) -> Outcome {
    (
        DeviceModel { stage: Stage::Ended, fault: None, ..device },
        Seq::empty(),
        DeviceActionModel::GiveUp(reason),
    )
}

/// The device is given up, and it is told that it has gone.
pub open spec fn lost(device: DeviceModel, reason: ReasonModel) -> Outcome {
    (
        DeviceModel { stage: Stage::Ended, fault: None, ..device },
        seq![
            WorkerEventModel::Disconnected {
                path_key: device.path_key,
                device_id: device.device_id,
            },
        ],
        DeviceActionModel::GiveUp(reason),
    )
}

/// Commands of the layout are written.
pub open spec fn writes(
    device: DeviceModel,
    stage: Stage,
    reports: (Seq<Seq<Seq<u8>>>, Option<SetupErrorModel>),
) -> Outcome {
    (
        DeviceModel { stage, fault: reports.1, ..device },
        Seq::empty(),
        DeviceActionModel::WriteGroups(reports.0),
    )
}

/// The layout's last commands are written.
pub open spec fn finishes(device: DeviceModel) -> Outcome {
    writes(
        device,
        Stage::Finishing,
        sequence_reports(device.version, device.layout.teardown_sequence.deep_view()),
    )
}

/// A request is served.
pub open spec fn serves(
    device: DeviceModel,
    stage: Stage,
    command: RuntimeCommandModel,
) -> Outcome {
    if command is Stop {
        finishes(device)
    } else {
        match request_reports(device.version, device.layout.controls.deep_view(), command) {
            Ok(reports) => goes_on(device, stage, DeviceActionModel::Write(reports)),
            Err(error) => lost(device, ReasonModel::Command(error)),
        }
    }
}

/// The heartbeats that are due are sent.
pub open spec fn beats(device: DeviceModel, now: u64) -> Outcome {
    let heartbeats = device.layout.heartbeats@;
    let next = DeviceModel { due: next_due(heartbeats, device.due, now), ..device };
    if any_due(device.due, now) {
        writes(
            next,
            Stage::Beating,
            beat_reports(device.version, heartbeats, device.due, now, 0),
        )
    } else {
        goes_on(next, Stage::Polling, DeviceActionModel::TakeCommand)
    }
}

/// The device is set up, and it is told that it is there.
pub open spec fn connects(device: DeviceModel, now: u64) -> Outcome {
    (
        DeviceModel {
            stage: Stage::Draining,
            due: first_due(device.layout.heartbeats@, now),
            ..device
        },
        seq![
            WorkerEventModel::Connected {
                path_key: device.path_key,
                device_id: device.device_id,
                channel: device.channel,
                device: device_described(device.layout, device.device_id, device.device_id),
            },
        ],
        DeviceActionModel::TakeCommand,
    )
}

/// The messages that a report of the device makes.
pub open spec fn heard(device: DeviceModel, report: Seq<u8>) -> Seq<HardwareMessageBodyModel> {
    match event_of_report(device.version, report) {
        Some(event) => translated(
            device.layout.controls.deep_view(),
            event,
            DeviceRefModel {
                manager_id: device.manager_id,
                device_id: device.device_id,
                fingerprint: Some(device.device_id),
            },
        ),
        None => Seq::empty(),
    }
}

/// Messages as what is told of a device.
pub open spec fn as_inputs(device_id: Seq<char>, bodies: Seq<HardwareMessageBodyModel>) -> Seq<
    WorkerEventModel,
> {
    Seq::new(bodies.len(), |i: int| WorkerEventModel::Input { device_id, body: bodies[i] })
}

/// What is done after an answer. Requests that wait are served first, then heartbeats are sent, then
/// one more request is served, and then the device is heard. What a device cannot be told or heard
/// tells that it has gone; what goes wrong with the layout's own commands does not.
pub open spec fn device_step(device: DeviceModel, event: DeviceEventModel, now: u64) -> Outcome {
    match (device.stage, event) {
        (Stage::Starting, DeviceEventModel::Written) => match device.fault {
            Some(error) => given_up(device, ReasonModel::Setup(error)),
            None => connects(device, now),
        },
        (Stage::Draining, DeviceEventModel::Command(command)) => serves(
            device,
            Stage::Serving,
            command,
        ),
        (Stage::Draining, DeviceEventModel::NoCommand) => beats(device, now),
        (Stage::Draining, DeviceEventModel::Closed) => beats(device, now),
        (Stage::Serving, DeviceEventModel::Written) => goes_on(
            device,
            Stage::Draining,
            DeviceActionModel::TakeCommand,
        ),
        (Stage::Beating, DeviceEventModel::Written) => match device.fault {
            Some(error) => given_up(device, ReasonModel::Setup(error)),
            None => goes_on(device, Stage::Polling, DeviceActionModel::TakeCommand),
        },
        (Stage::Polling, DeviceEventModel::Command(command)) => serves(
            device,
            Stage::Answering,
            command,
        ),
        (Stage::Polling, DeviceEventModel::NoCommand) => goes_on(
            device,
            Stage::Reading,
            DeviceActionModel::Read,
        ),
        (Stage::Polling, DeviceEventModel::Closed) => finishes(device),
        (Stage::Answering, DeviceEventModel::Written) => goes_on(
            device,
            Stage::Reading,
            DeviceActionModel::Read,
        ),
        (Stage::Reading, DeviceEventModel::Report(report)) => (
            DeviceModel { stage: Stage::Draining, ..device },
            as_inputs(device.device_id, heard(device, report)),
            DeviceActionModel::TakeCommand,
        ),
        (Stage::Finishing, DeviceEventModel::Written) => match device.fault {
            Some(error) => given_up(device, ReasonModel::Setup(error)),
            None => goes_on(device, Stage::Ended, DeviceActionModel::Stop),
        },
        (Stage::Starting, DeviceEventModel::WriteFailed) => given_up(device, ReasonModel::Device),
        (Stage::Beating, DeviceEventModel::WriteFailed) => given_up(device, ReasonModel::Device),
        (Stage::Finishing, DeviceEventModel::WriteFailed) => given_up(device, ReasonModel::Device),
        (Stage::Serving, DeviceEventModel::WriteFailed) => lost(device, ReasonModel::Device),
        (Stage::Answering, DeviceEventModel::WriteFailed) => lost(device, ReasonModel::Device),
        (Stage::Reading, DeviceEventModel::ReadFailed) => lost(device, ReasonModel::Device),
        _ => given_up(device, ReasonModel::OutOfTurn),
    }
}

/// A device in use.
#[derive(Debug)]
pub struct DeviceLoop<'a> {
    worker: Worker<'a>,
    channel: u64,
    stage: Stage,
    clock: HeartbeatClock,
    fault: Option<SetupError>,
}

impl<'a> View for DeviceLoop<'a> {
    type V = DeviceModel;

    closed spec fn view(&self) -> DeviceModel {
        DeviceModel {
            manager_id: self.worker.manager_id@,
            device_id: self.worker.device_id@,
            path_key: self.worker.path_key@,
            channel: self.channel,
            version: self.worker.protocol.version(),
            layout: *self.worker.layout,
            stage: self.stage,
            due: self.clock@,
            fault: self.fault.deep_view(),
        }
    }
}

impl<'a> DeviceLoop<'a> {
    /// Each heartbeat of the layout is due at some time.
    #[verifier::type_invariant]
    spec fn well_formed(self) -> bool {
        self.clock@.len() == self.worker.layout.heartbeats@.len()
    }

    /// Begins with the layout's first commands.
    pub fn begin(worker: Worker<'a>, channel: u64, now: u64) -> (r: (Self, DeviceAction))
        ensures
            ({
                let device = DeviceModel {
                    manager_id: worker.manager_id@,
                    device_id: worker.device_id@,
                    path_key: worker.path_key@,
                    channel,
                    version: worker.protocol.version(),
                    layout: *worker.layout,
                    stage: Stage::Starting,
                    due: first_due(worker.layout.heartbeats@, now),
                    fault: None,
                };
                (r.0@, Seq::<WorkerEventModel>::empty(), r.1.deep_view()) == writes(
                    device,
                    Stage::Starting,
                    sequence_reports(device.version, device.layout.init_sequence.deep_view()),
                )
            }),
    {
        let clock = HeartbeatClock::start(&worker.layout.heartbeats, now);
        let (groups, fault) = run_init_sequence(&worker.protocol, &worker.layout.init_sequence);
        assert(clock@ =~= first_due(worker.layout.heartbeats@, now));
        (
            DeviceLoop { worker, channel, stage: Stage::Starting, clock, fault },
            DeviceAction::WriteGroups(groups),
        )
    }

    fn go_on(&mut self, stage: Stage, action: DeviceAction) -> (r: (Vec<WorkerEvent>, DeviceAction))
        ensures
            (final(self)@, r.0.deep_view(), r.1.deep_view()) == goes_on(
                old(self)@,
                stage,
                action.deep_view(),
            ),
    {
        proof {
            use_type_invariant(&*self);
        }
        self.stage = stage;
        let told: Vec<WorkerEvent> = Vec::new();
        assert(told.deep_view() =~= Seq::<WorkerEventModel>::empty());
        (told, action)
    }

    fn give_up(&mut self, reason: Reason) -> (r: (Vec<WorkerEvent>, DeviceAction))
        ensures
            (final(self)@, r.0.deep_view(), r.1.deep_view()) == given_up(
                old(self)@,
                reason.deep_view(),
            ),
    {
        proof {
            use_type_invariant(&*self);
        }
        self.fault = None;
        self.go_on(Stage::Ended, DeviceAction::GiveUp(reason))
    }

    fn lose(&mut self, reason: Reason) -> (r: (Vec<WorkerEvent>, DeviceAction))
        ensures
            (final(self)@, r.0.deep_view(), r.1.deep_view()) == lost(
                old(self)@,
                reason.deep_view(),
            ),
    {
        proof {
            use_type_invariant(&*self);
        }
        self.fault = None;
        self.stage = Stage::Ended;
        let mut told: Vec<WorkerEvent> = Vec::new();
        told.push(
            WorkerEvent::Disconnected {
                path_key: self.worker.path_key.clone(),
                device_id: self.worker.device_id.clone(),
            },
        );
        assert(told.deep_view() =~= lost(old(self)@, reason.deep_view()).1);
        (told, DeviceAction::GiveUp(reason))
    }

    fn write(&mut self, stage: Stage, reports: (Vec<Vec<Vec<u8>>>, Option<SetupError>)) -> (r: (
        Vec<WorkerEvent>,
        DeviceAction,
    ))
        ensures
            (final(self)@, r.0.deep_view(), r.1.deep_view()) == writes(
                old(self)@,
                stage,
                (group_bytes(reports.0@), reports.1.deep_view()),
            ),
    {
        proof {
            use_type_invariant(&*self);
        }
        let (groups, fault) = reports;
        self.fault = fault;
        self.go_on(stage, DeviceAction::WriteGroups(groups))
    }

    fn finish(&mut self) -> (r: (Vec<WorkerEvent>, DeviceAction))
        ensures
            (final(self)@, r.0.deep_view(), r.1.deep_view()) == finishes(old(self)@),
    {
        let reports = run_init_sequence(
            &self.worker.protocol,
            &self.worker.layout.teardown_sequence,
        );
        self.write(Stage::Finishing, reports)
    }

    fn serve(&mut self, stage: Stage, command: RuntimeCommand) -> (r: (
        Vec<WorkerEvent>,
        DeviceAction,
    ))
        ensures
            (final(self)@, r.0.deep_view(), r.1.deep_view()) == serves(
                old(self)@,
                stage,
                command.deep_view(),
            ),
    {
        match self.worker.on_command(command) {
            CommandStep::Write(reports) => self.go_on(stage, DeviceAction::Write(reports)),
            CommandStep::Finish => self.finish(),
            CommandStep::Fail(error) => self.lose(Reason::Command(error)),
        }
    }

    /// The reports of the heartbeats that are due.
    fn due_reports(&self, now: u64) -> (r: (Vec<Vec<Vec<u8>>>, Option<SetupError>))
        ensures
            (group_bytes(r.0@), r.1.deep_view()) == beat_reports(
                self@.version,
                self@.layout.heartbeats@,
                self@.due,
                now,
                0,
            ),
    {
        proof {
            use_type_invariant(self);
        }
        let heartbeats = &self.worker.layout.heartbeats;
        let ghost version = self@.version;
        let ghost whole = beat_reports(version, heartbeats@, self@.due, now, 0);
        let mut groups: Vec<Vec<Vec<u8>>> = Vec::new();
        let n: usize = heartbeats.len();
        let mut i: usize = 0;
        assert(group_bytes(groups@) + whole.0 =~= whole.0);
        while i < n
            invariant
                i <= n == heartbeats@.len(),
                *heartbeats == self.worker.layout.heartbeats,
                self.clock@.len() == n,
                self.clock@ == self@.due,
                version == self@.version,
                version == self.worker.protocol.version(),
                whole == beat_reports(version, heartbeats@, self@.due, now, 0),
                whole.0 == group_bytes(groups@) + beat_reports(
                    version,
                    heartbeats@,
                    self@.due,
                    now,
                    i as int,
                ).0,
                whole.1 == beat_reports(version, heartbeats@, self@.due, now, i as int).1,
            decreases n - i,
        {
            let ghost so_far = group_bytes(groups@);
            let ghost later = beat_reports(version, heartbeats@, self@.due, now, i + 1);
            if self.clock.is_due(i, now) {
                let (mut more, error) = run_init_sequence(
                    &self.worker.protocol,
                    &heartbeats[i].commands,
                );
                let ghost added = group_bytes(more@);
                let ghost before = groups@;
                groups.append(&mut more);
                proof {
                    assert(group_bytes(groups@) =~= so_far + added);
                    assert(so_far + (added + later.0) =~= (so_far + added) + later.0);
                }
                if error.is_some() {
                    assert(error.deep_view() is Some);
                    assert(beat_reports(version, heartbeats@, self@.due, now, i as int) == (
                        added,
                        error.deep_view(),
                    ));
                    return (groups, error);
                }
                assert(error.deep_view() is None);
            }
            i += 1;
        }
        assert(group_bytes(groups@) + Seq::<Seq<Seq<u8>>>::empty() =~= group_bytes(groups@));
        (groups, None)
    }

    fn beat(&mut self, now: u64) -> (r: (Vec<WorkerEvent>, DeviceAction))
        ensures
            (final(self)@, r.0.deep_view(), r.1.deep_view()) == beats(old(self)@, now),
    {
        proof {
            use_type_invariant(&*self);
        }
        let ghost before = self@;
        let reports = self.due_reports(now);
        let heartbeats = &self.worker.layout.heartbeats;
        let n: usize = heartbeats.len();
        let mut clock = HeartbeatClock::start(heartbeats, now);
        std::mem::swap(&mut clock, &mut self.clock);
        let ready = clock.tick(heartbeats, now);
        proof {
            assert(clock@ =~= next_due(heartbeats@, before.due, now));
            if ready@.len() > 0 {
                assert(ready@.contains(ready@[0]));
                assert(before.due[ready@[0] as int] <= now);
            }
            if any_due(before.due, now) {
                let i = choose|i: int| 0 <= i < before.due.len() && #[trigger] before.due[i] <= now;
                assert(i < n);
                assert(ready@.contains(i as usize));
            }
        }
        self.clock = clock;
        if ready.len() > 0 {
            self.write(Stage::Beating, reports)
        } else {
            self.go_on(Stage::Polling, DeviceAction::TakeCommand)
        }
    }

    fn connect(&mut self, now: u64) -> (r: (Vec<WorkerEvent>, DeviceAction))
        ensures
            (final(self)@, r.0.deep_view(), r.1.deep_view()) == connects(old(self)@, now),
    {
        proof {
            use_type_invariant(&*self);
        }
        self.stage = Stage::Draining;
        self.clock = HeartbeatClock::start(&self.worker.layout.heartbeats, now);
        let mut told: Vec<WorkerEvent> = Vec::new();
        told.push(
            WorkerEvent::Connected {
                path_key: self.worker.path_key.clone(),
                device_id: self.worker.device_id.clone(),
                channel: self.channel,
                device: self.worker.descriptor(),
            },
        );
        proof {
            assert(told.deep_view() =~= connects(old(self)@, now).1);
            assert(self.clock@ =~= first_due(self@.layout.heartbeats@, now));
        }
        (told, DeviceAction::TakeCommand)
    }

    fn hear(&mut self, report: &Vec<u8>) -> (r: (Vec<WorkerEvent>, DeviceAction))
        ensures
            (final(self)@, r.0.deep_view(), r.1.deep_view()) == (
                DeviceModel { stage: Stage::Draining, ..old(self)@ },
                as_inputs(old(self)@.device_id, heard(old(self)@, report@)),
                DeviceActionModel::TakeCommand,
            ),
    {
        proof {
            use_type_invariant(&*self);
        }
        self.stage = Stage::Draining;
        let bodies = self.worker.on_report(report.as_slice());
        let ghost all = bodies.deep_view();
        let mut told: Vec<WorkerEvent> = Vec::new();
        let n: usize = bodies.len();
        let mut i: usize = 0;
        while i < n
            invariant
                i <= n == bodies@.len(),
                all == bodies.deep_view(),
                told@.len() == i,
                forall|k: int|
                    0 <= k < i ==> (#[trigger] told@[k]).deep_view() == (WorkerEventModel::Input {
                        device_id: self@.device_id,
                        body: all[k],
                    }),
            decreases n - i,
        {
            told.push(
                WorkerEvent::Input {
                    device_id: self.worker.device_id.clone(),
                    body: bodies[i].clone(),
                },
            );
            i += 1;
        }
        assert(told.deep_view() =~= as_inputs(self@.device_id, all));
        (told, DeviceAction::TakeCommand)
    }

    /// What is wrong with a command that comes after those that were written.
    fn take_fault(&mut self) -> (r: Option<SetupError>)
        ensures
            r.deep_view() == old(self)@.fault,
            final(self)@ == (DeviceModel { fault: None, ..old(self)@ }),
    {
        proof {
            use_type_invariant(&*self);
        }
        let mut fault: Option<SetupError> = None;
        std::mem::swap(&mut fault, &mut self.fault);
        fault
    }

    /// What is told of the device, and what is to be done next.
    pub fn on_event(&mut self, event: DeviceEvent, now: u64) -> (r: (
        Vec<WorkerEvent>,
        DeviceAction,
    ))
        ensures
            (final(self)@, r.0.deep_view(), r.1.deep_view()) == device_step(
                old(self)@,
                event.deep_view(),
                now,
            ),
    {
        match (self.stage, event) {
            (Stage::Starting, DeviceEvent::Written) => match self.take_fault() {
                Some(error) => self.give_up(Reason::Setup(error)),
                None => self.connect(now),
            },
            (Stage::Draining, DeviceEvent::Command(command)) => self.serve(Stage::Serving, command),
            (Stage::Draining, DeviceEvent::NoCommand) => self.beat(now),
            (Stage::Draining, DeviceEvent::Closed) => self.beat(now),
            (Stage::Serving, DeviceEvent::Written) => self.go_on(
                Stage::Draining,
                DeviceAction::TakeCommand,
            ),
            (Stage::Beating, DeviceEvent::Written) => match self.take_fault() {
                Some(error) => self.give_up(Reason::Setup(error)),
                None => self.go_on(Stage::Polling, DeviceAction::TakeCommand),
            },
            (Stage::Polling, DeviceEvent::Command(command)) => self.serve(
                Stage::Answering,
                command,
            ),
            (Stage::Polling, DeviceEvent::NoCommand) => self.go_on(
                Stage::Reading,
                DeviceAction::Read,
            ),
            (Stage::Polling, DeviceEvent::Closed) => self.finish(),
            (Stage::Answering, DeviceEvent::Written) => self.go_on(
                Stage::Reading,
                DeviceAction::Read,
            ),
            (Stage::Reading, DeviceEvent::Report(report)) => self.hear(&report),
            (Stage::Finishing, DeviceEvent::Written) => match self.take_fault() {
                Some(error) => self.give_up(Reason::Setup(error)),
                None => self.go_on(Stage::Ended, DeviceAction::Stop),
            },
            (Stage::Starting, DeviceEvent::WriteFailed) => self.give_up(Reason::Device),
            (Stage::Beating, DeviceEvent::WriteFailed) => self.give_up(Reason::Device),
            (Stage::Finishing, DeviceEvent::WriteFailed) => self.give_up(Reason::Device),
            (Stage::Serving, DeviceEvent::WriteFailed) => self.lose(Reason::Device),
            (Stage::Answering, DeviceEvent::WriteFailed) => self.lose(Reason::Device),
            (Stage::Reading, DeviceEvent::ReadFailed) => self.lose(Reason::Device),
            _ => self.give_up(Reason::OutOfTurn),
        }
    }
}

// ---------------------------------------------------------------------------------------------
// Laws
// ---------------------------------------------------------------------------------------------

/// A device is told of as connected only when its layout's first commands have been written, and
/// then it is the only thing that is told.
pub proof fn devices_connect_once_set_up(device: DeviceModel, event: DeviceEventModel, now: u64, i: int)
    requires
        0 <= i < device_step(device, event, now).1.len(),
        device_step(device, event, now).1[i] is Connected,
    ensures
        device.stage == Stage::Starting,
        event is Written,
        device.fault is None,
        device_step(device, event, now).1.len() == 1,
        device_step(device, event, now).0.stage == Stage::Draining,
{
}

/// Nothing comes back to the start: a device connects at most once.
pub proof fn no_device_starts_again(device: DeviceModel, event: DeviceEventModel, now: u64)
    ensures
        device_step(device, event, now).0.stage != Stage::Starting,
{
}

/// A device of which it is told that it has gone is given up at once.
pub proof fn gone_devices_are_given_up(device: DeviceModel, event: DeviceEventModel, now: u64, i: int)
    requires
        0 <= i < device_step(device, event, now).1.len(),
        device_step(device, event, now).1[i] is Disconnected,
    ensures
        device_step(device, event, now).0.stage == Stage::Ended,
        device_step(device, event, now).2 is GiveUp,
        device_step(device, event, now).1.len() == 1,
{
}

/// A device that is not used any more is neither written to nor heard, and nothing is told of it.
pub proof fn ended_devices_stay_ended(device: DeviceModel, event: DeviceEventModel, now: u64)
    requires
        device.stage == Stage::Ended,
    ensures
        device_step(device, event, now).0.stage == Stage::Ended,
        device_step(device, event, now).1.len() == 0,
        device_step(device, event, now).2 is GiveUp,
{
}

/// A device that is asked to stop, or that no request can reach any more, is sent its layout's last
/// commands before all is done.
pub proof fn devices_stop_in_order(device: DeviceModel, event: DeviceEventModel, now: u64)
    requires
        ({
            ||| (device.stage == Stage::Draining || device.stage == Stage::Polling) && event
                == DeviceEventModel::Command(RuntimeCommandModel::Stop)
            ||| device.stage == Stage::Polling && event is Closed
        }),
    ensures
        ({
            let (groups, fault) = sequence_reports(
                device.version,
                device.layout.teardown_sequence.deep_view(),
            );
            let (next, told, action) = device_step(device, event, now);
            &&& next.stage == Stage::Finishing
            &&& action == DeviceActionModel::WriteGroups(groups)
            &&& fault is None ==> device_step(next, DeviceEventModel::Written, now).2
                == DeviceActionModel::Stop
        }),
{
}

/// Every round of a device without requests and due heartbeats hears the device.
pub proof fn idle_devices_are_heard(device: DeviceModel, now: u64, later: u64)
    requires
        device.stage == Stage::Draining,
        !any_due(device.due, now),
    ensures
        ({
            let (polled, _, first) = device_step(device, DeviceEventModel::NoCommand, now);
            let (read, _, second) = device_step(polled, DeviceEventModel::NoCommand, later);
            &&& first == DeviceActionModel::TakeCommand
            &&& second == DeviceActionModel::Read
            &&& read.stage == Stage::Reading
        }),
{
}

/// Nothing that happens changes which device it is, how it is reached, or its layout.
pub proof fn devices_stay_the_same(device: DeviceModel, event: DeviceEventModel, now: u64)
    ensures
        ({
            let next = device_step(device, event, now).0;
            &&& next.manager_id == device.manager_id
            &&& next.device_id == device.device_id
            &&& next.path_key == device.path_key
            &&& next.channel == device.channel
            &&& next.version == device.version
            &&& next.layout == device.layout
        }),
{
}

/// When the layout's first commands have been written, the device is told of by its path, its id, its
/// channel and its description, its heartbeats start, and requests are looked for; if one of the
/// commands could not be sent, the device is given up and nothing is told.
pub proof fn devices_that_are_set_up_are_told_of(device: DeviceModel, now: u64)
    requires
        device.stage == Stage::Starting,
    ensures
        ({
            let (next, told, action) = device_step(device, DeviceEventModel::Written, now);
            match device.fault {
                None => {
                    &&& next.stage == Stage::Draining
                    &&& told.len() == 1
                    &&& told[0] matches WorkerEventModel::Connected {
                        path_key,
                        device_id,
                        channel,
                        device: description,
                    }
                    &&& path_key == device.path_key
                    &&& device_id == device.device_id
                    &&& channel == device.channel
                    &&& description == device_described(
                        device.layout,
                        device.device_id,
                        device.device_id,
                    )
                    &&& action is TakeCommand
                    &&& next.due.len() == device.layout.heartbeats@.len()
                    &&& forall|i: int|
                        0 <= i < next.due.len() ==> #[trigger] next.due[i] == now
                            + device.layout.heartbeats@[i].period * 1_000_000_000
                },
                Some(error) => {
                    &&& next.stage == Stage::Ended
                    &&& told.len() == 0
                    &&& action == DeviceActionModel::GiveUp(ReasonModel::Setup(error))
                },
            }
        }),
{
}

/// A request is served by its reports, before the device is heard; a request that cannot be sent loses
/// the device.
pub proof fn requests_are_served(device: DeviceModel, command: RuntimeCommandModel, now: u64)
    requires
        device.stage == Stage::Draining || device.stage == Stage::Polling,
        !(command is Stop),
    ensures
        ({
            let (next, told, action) = device_step(device, DeviceEventModel::Command(command), now);
            match request_reports(device.version, device.layout.controls.deep_view(), command) {
                Ok(reports) => {
                    &&& action == DeviceActionModel::Write(reports)
                    &&& told.len() == 0
                    &&& device.stage == Stage::Draining ==> {
                        let (then, _, more) = device_step(next, DeviceEventModel::Written, now);
                        then.stage == Stage::Draining && more is TakeCommand
                    }
                    &&& device.stage == Stage::Polling ==> {
                        let (then, _, more) = device_step(next, DeviceEventModel::Written, now);
                        then.stage == Stage::Reading && more is Read
                    }
                    &&& next.due == device.due
                },
                Err(error) => {
                    &&& next.stage == Stage::Ended
                    &&& action == DeviceActionModel::GiveUp(ReasonModel::Command(error))
                    &&& told.len() == 1
                    &&& told[0] == (WorkerEventModel::Disconnected {
                        path_key: device.path_key,
                        device_id: device.device_id,
                    })
                },
            }
        }),
{
}

/// It is told that a device has gone, by its own path and id, exactly if a request could not be sent or
/// written, or the device could not be heard. Failures of the layout's own commands end the device
/// without a word.
pub proof fn devices_that_fail_are_told_to_have_gone(
    device: DeviceModel,
    event: DeviceEventModel,
    now: u64,
)
    ensures
        ({
            let (next, told, action) = device_step(device, event, now);
            let unsendable = (device.stage == Stage::Draining || device.stage == Stage::Polling)
                && (event matches DeviceEventModel::Command(command) && !(command is Stop)
                && request_reports(
                device.version,
                device.layout.controls.deep_view(),
                command,
            ) is Err);
            let unwritten = (device.stage == Stage::Serving || device.stage == Stage::Answering)
                && event is WriteFailed;
            let unheard = device.stage == Stage::Reading && event is ReadFailed;
            let gone = WorkerEventModel::Disconnected {
                path_key: device.path_key,
                device_id: device.device_id,
            };
            &&& unsendable || unwritten || unheard ==> told.len() == 1 && told[0] == gone
                && next.stage == Stage::Ended
            &&& unwritten || unheard ==> action == DeviceActionModel::GiveUp(ReasonModel::Device)
            &&& (exists|i: int| 0 <= i < told.len() && #[trigger] told[i] is Disconnected)
                ==> unsendable || unwritten || unheard
            &&& event is WriteFailed && (device.stage == Stage::Starting || device.stage
                == Stage::Beating || device.stage == Stage::Finishing) ==> told.len() == 0
                && next.stage == Stage::Ended && action == DeviceActionModel::GiveUp(
                ReasonModel::Device,
            )
        }),
{
}

/// What a report of the device says is told, message for message and in order, under the ids of the
/// manager and the device; then requests are looked for again.
pub proof fn reports_are_told(device: DeviceModel, report: Seq<u8>, now: u64, i: int)
    requires
        device.stage == Stage::Reading,
    ensures
        ({
            let (next, told, action) = device_step(device, DeviceEventModel::Report(report), now);
            let own = DeviceRefModel {
                manager_id: device.manager_id,
                device_id: device.device_id,
                fingerprint: Some(device.device_id),
            };
            &&& next.stage == Stage::Draining
            &&& next.due == device.due
            &&& action is TakeCommand
            &&& match event_of_report(device.version, report) {
                None => told.len() == 0,
                Some(event) => {
                    let messages = translated(device.layout.controls.deep_view(), event, own);
                    &&& told.len() == messages.len()
                    &&& 0 <= i < told.len() ==> told[i] == (WorkerEventModel::Input {
                        device_id: device.device_id,
                        body: messages[i],
                    })
                },
            }
        }),
{
}

/// The reports of the heartbeats that are due among the first `n`, in their order.
pub open spec fn due_reports(
    version: int,
    heartbeats: Seq<Heartbeat>,
    due: Seq<u128>,
    now: u64,
    n: nat,
) -> Seq<Seq<Seq<u8>>>
    decreases n,
{
    if n == 0 {
        Seq::empty()
    } else {
        let earlier = due_reports(version, heartbeats, due, now, (n - 1) as nat);
        if due[n - 1] <= now {
            earlier + sequence_reports(version, heartbeats[n - 1].commands.deep_view()).0
        } else {
            earlier
        }
    }
}

proof fn lemma_beat_reports(
    version: int,
    heartbeats: Seq<Heartbeat>,
    due: Seq<u128>,
    now: u64,
    n: nat,
)
    requires
        n <= heartbeats.len(),
        forall|k: int|
            0 <= k < n && due[k] <= now ==> sequence_reports(
                version,
                (#[trigger] heartbeats[k]).commands.deep_view(),
            ).1 is None,
    ensures
        beat_reports(version, heartbeats, due, now, 0).0 == due_reports(
            version,
            heartbeats,
            due,
            now,
            n,
        ) + beat_reports(version, heartbeats, due, now, n as int).0,
        beat_reports(version, heartbeats, due, now, 0).1 == beat_reports(
            version,
            heartbeats,
            due,
            now,
            n as int,
        ).1,
    decreases n,
{
    let whole = beat_reports(version, heartbeats, due, now, 0).0;
    if n == 0 {
        assert(Seq::<Seq<Seq<u8>>>::empty() + whole =~= whole);
    } else {
        let m = (n - 1) as nat;
        lemma_beat_reports(version, heartbeats, due, now, m);
        let earlier = due_reports(version, heartbeats, due, now, m);
        let rest = beat_reports(version, heartbeats, due, now, n as int).0;
        if due[m as int] <= now {
            let own = sequence_reports(version, heartbeats[m as int].commands.deep_view());
            assert(own.1 is None);
            assert(beat_reports(version, heartbeats, due, now, m as int).0 == own.0 + rest);
            assert(earlier + (own.0 + rest) =~= (earlier + own.0) + rest);
        }
    }
}

/// Where no request waits, the heartbeats that are due are sent, all of them and in their order; each of
/// them is due again when its period is over, and the others stay due when they were. Where none is due,
/// the next request is looked for.
pub proof fn due_heartbeats_are_sent(device: DeviceModel, event: DeviceEventModel, now: u64)
    requires
        device.stage == Stage::Draining,
        event is NoCommand || event is Closed,
        device.due.len() == device.layout.heartbeats@.len(),
    ensures
        ({
            let (next, told, action) = device_step(device, event, now);
            let heartbeats = device.layout.heartbeats@;
            let some = exists|i: int| 0 <= i < device.due.len() && #[trigger] device.due[i] <= now;
            &&& told.len() == 0
            &&& next.due.len() == device.due.len()
            &&& forall|i: int|
                0 <= i < next.due.len() ==> #[trigger] next.due[i] == if device.due[i] <= now {
                    now + heartbeats[i].period * 1_000_000_000
                } else {
                    device.due[i] as int
                }
            &&& !some ==> next.stage == Stage::Polling && action is TakeCommand
            &&& some ==> next.stage == Stage::Beating && action is WriteGroups
            &&& some && (forall|k: int|
                0 <= k < heartbeats.len() && device.due[k] <= now ==> sequence_reports(
                    device.version,
                    (#[trigger] heartbeats[k]).commands.deep_view(),
                ).1 is None) ==> {
                &&& action == DeviceActionModel::WriteGroups(
                    due_reports(device.version, heartbeats, device.due, now, heartbeats.len()),
                )
                &&& device_step(next, DeviceEventModel::Written, now).0.stage == Stage::Polling
                &&& device_step(next, DeviceEventModel::Written, now).2 is TakeCommand
            }
        }),
{
    let heartbeats = device.layout.heartbeats@;
    if forall|k: int|
        0 <= k < heartbeats.len() && device.due[k] <= now ==> sequence_reports(
            device.version,
            (#[trigger] heartbeats[k]).commands.deep_view(),
        ).1 is None {
        lemma_beat_reports(device.version, heartbeats, device.due, now, heartbeats.len());
        let all = due_reports(device.version, heartbeats, device.due, now, heartbeats.len());
        assert(all + Seq::<Seq<Seq<u8>>>::empty() =~= all);
    }
}

/// Where a heartbeat that is due has a command that cannot be sent, what is sent is what is due before
/// it and its own commands up to that one, and nothing behind; what is wrong is kept, and the device is
/// given up for it once that has been written.
pub proof fn faulty_heartbeats_are_sent_up_to_the_fault(
    device: DeviceModel,
    event: DeviceEventModel,
    now: u64,
    m: int,
    error: SetupErrorModel,
)
    requires
        device.stage == Stage::Draining,
        event is NoCommand || event is Closed,
        device.due.len() == device.layout.heartbeats@.len(),
        0 <= m < device.layout.heartbeats@.len(),
        device.due[m] <= now,
        sequence_reports(
            device.version,
            device.layout.heartbeats@[m].commands.deep_view(),
        ).1 == Some(error),
        forall|k: int|
            0 <= k < m && device.due[k] <= now ==> sequence_reports(
                device.version,
                (#[trigger] device.layout.heartbeats@[k]).commands.deep_view(),
            ).1 is None,
    ensures
        ({
            let (next, told, action) = device_step(device, event, now);
            let heartbeats = device.layout.heartbeats@;
            let own = sequence_reports(device.version, heartbeats[m].commands.deep_view()).0;
            let (then, after, last) = device_step(next, DeviceEventModel::Written, now);
            &&& told.len() == 0
            &&& next.stage == Stage::Beating
            &&& action == DeviceActionModel::WriteGroups(
                due_reports(device.version, heartbeats, device.due, now, m as nat) + own,
            )
            &&& next.fault == Some(error)
            &&& then.stage == Stage::Ended
            &&& after.len() == 0
            &&& last == DeviceActionModel::GiveUp(ReasonModel::Setup(error))
        }),
{
    lemma_beat_reports(device.version, device.layout.heartbeats@, device.due, now, m as nat);
}

/// A heartbeat whose commands cannot all be sent has the device be given up once those before have been
/// written, and the same holds of the layout's last commands.
pub proof fn faults_give_the_device_up(device: DeviceModel, error: SetupErrorModel, now: u64)
    requires
        device.stage == Stage::Beating || device.stage == Stage::Finishing || device.stage
            == Stage::Starting,
        device.fault == Some(error),
    ensures
        ({
            let (next, told, action) = device_step(device, DeviceEventModel::Written, now);
            &&& next.stage == Stage::Ended
            &&& told.len() == 0
            &&& action == DeviceActionModel::GiveUp(ReasonModel::Setup(error))
        }),
{
}

/// An answer to what was not done has the device be given up.
pub proof fn answers_out_of_turn_give_the_device_up(
    device: DeviceModel,
    event: DeviceEventModel,
    now: u64,
)
    requires
        match device.stage {
            Stage::Starting | Stage::Serving | Stage::Beating | Stage::Answering
            | Stage::Finishing => !(event is Written) && !(event is WriteFailed),
            Stage::Draining | Stage::Polling => !(event is Command) && !(event is NoCommand) && !(
            event is Closed),
            Stage::Reading => !(event is Report) && !(event is ReadFailed),
            Stage::Ended => true,
        },
    ensures
        device_step(device, event, now).0.stage == Stage::Ended,
        device_step(device, event, now).1.len() == 0,
        device_step(device, event, now).2 == DeviceActionModel::GiveUp(ReasonModel::OutOfTurn),
{
}

/// What is told of a value of `DeviceEvent`: its variant, and each field under its own name.
pub proof fn device_event_is_told_by_field(value: DeviceEvent)
    ensures
        match (value, value.deep_view()) {
            (DeviceEvent::Written, DeviceEventModel::Written) => true,
            (DeviceEvent::WriteFailed, DeviceEventModel::WriteFailed) => true,
            (DeviceEvent::Command(held), DeviceEventModel::Command(told)) => told == held.deep_view(),
            (DeviceEvent::NoCommand, DeviceEventModel::NoCommand) => true,
            (DeviceEvent::Closed, DeviceEventModel::Closed) => true,
            (DeviceEvent::Report(held), DeviceEventModel::Report(told)) => told == held@,
            (DeviceEvent::ReadFailed, DeviceEventModel::ReadFailed) => true,
            _ => false,
        },
{
}

/// What is told of a value of `Reason`: its variant, and each field under its own name.
pub proof fn reason_is_told_by_field(value: Reason)
    ensures
        match (value, value.deep_view()) {
            (Reason::Setup(held), ReasonModel::Setup(told)) => told == held.deep_view(),
            (Reason::Command(held), ReasonModel::Command(told)) => told == held,
            (Reason::Device, ReasonModel::Device) => true,
            (Reason::OutOfTurn, ReasonModel::OutOfTurn) => true,
            _ => false,
        },
{
}

/// What is told of a value of `DeviceAction`: its variant, and each field under its own name.
pub proof fn device_action_is_told_by_field(value: DeviceAction)
    ensures
        match (value, value.deep_view()) {
            (DeviceAction::WriteGroups(held), DeviceActionModel::WriteGroups(told)) => told
                == group_bytes(held@),
            (DeviceAction::Write(held), DeviceActionModel::Write(told)) => told == report_bytes(
                held@,
            ),
            (DeviceAction::TakeCommand, DeviceActionModel::TakeCommand) => true,
            (DeviceAction::Read, DeviceActionModel::Read) => true,
            (DeviceAction::Stop, DeviceActionModel::Stop) => true,
            (DeviceAction::GiveUp(held), DeviceActionModel::GiveUp(told)) => told == held.deep_view(),
            _ => false,
        },
{
}

} // verus!
