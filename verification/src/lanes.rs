//! The hardware messages of the lane: devices as they are described to controllers, what comes from
//! them, and what is asked of them.

use vstd::prelude::*;

use crate::json::{copy_fields, JsonModel, JsonValue};

verus! {

/// Which device of which manager.
#[derive(Debug, PartialEq, Eq)]
pub struct DeviceRef {
    pub manager_id: String,
    pub device_id: String,
    pub fingerprint: Option<String>,
}

/// What a device reference is.
pub struct DeviceRefModel {
    pub manager_id: Seq<char>,
    pub device_id: Seq<char>,
    pub fingerprint: Option<Seq<char>>,
}

impl DeepView for DeviceRef {
    type V = DeviceRefModel;

    open spec fn deep_view(&self) -> DeviceRefModel {
        DeviceRefModel {
            manager_id: self.manager_id.deep_view(),
            device_id: self.device_id.deep_view(),
            fingerprint: self.fingerprint.deep_view(),
        }
    }
}

impl Clone for DeviceRef {
    fn clone(&self) -> (r: Self)
        ensures
            r.deep_view() == self.deep_view(),
    {
        DeviceRef {
            manager_id: self.manager_id.clone(),
            device_id: self.device_id.clone(),
            fingerprint: self.fingerprint.clone(),
        }
    }
}

/// A bound on what a capability takes.
#[derive(Debug, PartialEq, Eq)]
pub struct CapabilityConstraint {
    pub constraint_type: String,
    pub subject: String,
    pub value: Option<JsonValue>,
}

/// What a constraint is.
pub struct CapabilityConstraintModel {
    pub constraint_type: Seq<char>,
    pub subject: Seq<char>,
    pub value: Option<JsonModel>,
}

impl DeepView for CapabilityConstraint {
    type V = CapabilityConstraintModel;

    open spec fn deep_view(&self) -> CapabilityConstraintModel {
        CapabilityConstraintModel {
            constraint_type: self.constraint_type.deep_view(),
            subject: self.subject.deep_view(),
            value: self.value.deep_view(),
        }
    }
}

impl Clone for CapabilityConstraint {
    fn clone(&self) -> (r: Self)
        ensures
            r.deep_view() == self.deep_view(),
    {
        CapabilityConstraint {
            constraint_type: self.constraint_type.clone(),
            subject: self.subject.clone(),
            value: self.value.clone(),
        }
    }
}

/// Something that a control or a device can do.
#[derive(Debug, PartialEq, Eq)]
pub struct CapabilityDescriptor {
    pub capability_id: String,
    pub family: String,
    pub capability_type: String,
    pub direction: String,
    pub access: Vec<String>,
    pub constraints: Vec<CapabilityConstraint>,
    pub event_types: Vec<String>,
    pub command_types: Vec<String>,
}

/// What a capability is.
pub struct CapabilityDescriptorModel {
    pub capability_id: Seq<char>,
    pub family: Seq<char>,
    pub capability_type: Seq<char>,
    pub direction: Seq<char>,
    pub access: Seq<Seq<char>>,
    pub constraints: Seq<CapabilityConstraintModel>,
    pub event_types: Seq<Seq<char>>,
    pub command_types: Seq<Seq<char>>,
}

impl DeepView for CapabilityDescriptor {
    type V = CapabilityDescriptorModel;

    open spec fn deep_view(&self) -> CapabilityDescriptorModel {
        CapabilityDescriptorModel {
            capability_id: self.capability_id.deep_view(),
            family: self.family.deep_view(),
            capability_type: self.capability_type.deep_view(),
            direction: self.direction.deep_view(),
            access: self.access.deep_view(),
            constraints: self.constraints.deep_view(),
            event_types: self.event_types.deep_view(),
            command_types: self.command_types.deep_view(),
        }
    }
}

impl Clone for CapabilityDescriptor {
    fn clone(&self) -> (r: Self)
        ensures
            r.deep_view() == self.deep_view(),
    {
        CapabilityDescriptor {
            capability_id: self.capability_id.clone(),
            family: self.family.clone(),
            capability_type: self.capability_type.clone(),
            direction: self.direction.clone(),
            access: self.access.clone(),
            constraints: self.constraints.clone(),
            event_types: self.event_types.clone(),
            command_types: self.command_types.clone(),
        }
    }
}

/// Where a control lies, in whole units.
#[derive(Debug, PartialEq, Eq)]
pub struct ControlGeometry {
    pub x: i32,
    pub y: i32,
    pub width: Option<u32>,
    pub height: Option<u32>,
    pub unit: String,
}

/// What a place is.
pub struct ControlGeometryModel {
    pub x: i32,
    pub y: i32,
    pub width: Option<u32>,
    pub height: Option<u32>,
    pub unit: Seq<char>,
}

impl DeepView for ControlGeometry {
    type V = ControlGeometryModel;

    open spec fn deep_view(&self) -> ControlGeometryModel {
        ControlGeometryModel {
            x: self.x.deep_view(),
            y: self.y.deep_view(),
            width: self.width.deep_view(),
            height: self.height.deep_view(),
            unit: self.unit.deep_view(),
        }
    }
}

impl Clone for ControlGeometry {
    fn clone(&self) -> (r: Self)
        ensures
            r.deep_view() == self.deep_view(),
    {
        ControlGeometry {
            x: self.x,
            y: self.y,
            width: self.width,
            height: self.height,
            unit: self.unit.clone(),
        }
    }
}

/// A control of a device.
#[derive(Debug, PartialEq, Eq)]
pub struct ControlDescriptor {
    pub control_id: String,
    pub kind: String,
    pub label: Option<String>,
    pub geometry: Option<ControlGeometry>,
    pub input_capabilities: Vec<CapabilityDescriptor>,
    pub output_capabilities: Vec<CapabilityDescriptor>,
}

/// What a control is.
pub struct ControlDescriptorModel {
    pub control_id: Seq<char>,
    pub kind: Seq<char>,
    pub label: Option<Seq<char>>,
    pub geometry: Option<ControlGeometryModel>,
    pub input_capabilities: Seq<CapabilityDescriptorModel>,
    pub output_capabilities: Seq<CapabilityDescriptorModel>,
}

impl DeepView for ControlDescriptor {
    type V = ControlDescriptorModel;

    open spec fn deep_view(&self) -> ControlDescriptorModel {
        ControlDescriptorModel {
            control_id: self.control_id.deep_view(),
            kind: self.kind.deep_view(),
            label: self.label.deep_view(),
            geometry: self.geometry.deep_view(),
            input_capabilities: self.input_capabilities.deep_view(),
            output_capabilities: self.output_capabilities.deep_view(),
        }
    }
}

impl Clone for ControlDescriptor {
    fn clone(&self) -> (r: Self)
        ensures
            r.deep_view() == self.deep_view(),
    {
        ControlDescriptor {
            control_id: self.control_id.clone(),
            kind: self.kind.clone(),
            label: self.label.clone(),
            geometry: self.geometry.clone(),
            input_capabilities: self.input_capabilities.clone(),
            output_capabilities: self.output_capabilities.clone(),
        }
    }
}

/// A device.
#[derive(Debug, PartialEq, Eq)]
pub struct DeviceDescriptor {
    pub device_id: String,
    pub fingerprint: String,
    pub display_name: String,
    pub manufacturer: Option<String>,
    pub model: Option<String>,
    pub serial_number: Option<String>,
    pub controls: Vec<ControlDescriptor>,
    pub capabilities: Vec<CapabilityDescriptor>,
}

/// What a device is.
pub struct DeviceDescriptorModel {
    pub device_id: Seq<char>,
    pub fingerprint: Seq<char>,
    pub display_name: Seq<char>,
    pub manufacturer: Option<Seq<char>>,
    pub model: Option<Seq<char>>,
    pub serial_number: Option<Seq<char>>,
    pub controls: Seq<ControlDescriptorModel>,
    pub capabilities: Seq<CapabilityDescriptorModel>,
}

impl DeepView for DeviceDescriptor {
    type V = DeviceDescriptorModel;

    open spec fn deep_view(&self) -> DeviceDescriptorModel {
        DeviceDescriptorModel {
            device_id: self.device_id.deep_view(),
            fingerprint: self.fingerprint.deep_view(),
            display_name: self.display_name.deep_view(),
            manufacturer: self.manufacturer.deep_view(),
            model: self.model.deep_view(),
            serial_number: self.serial_number.deep_view(),
            controls: self.controls.deep_view(),
            capabilities: self.capabilities.deep_view(),
        }
    }
}

impl Clone for DeviceDescriptor {
    fn clone(&self) -> (r: Self)
        ensures
            r.deep_view() == self.deep_view(),
    {
        DeviceDescriptor {
            device_id: self.device_id.clone(),
            fingerprint: self.fingerprint.clone(),
            display_name: self.display_name.clone(),
            manufacturer: self.manufacturer.clone(),
            model: self.model.clone(),
            serial_number: self.serial_number.clone(),
            controls: self.controls.clone(),
            capabilities: self.capabilities.clone(),
        }
    }
}

/// What a hardware message says.
#[derive(Debug, PartialEq, Eq)]
pub enum HardwareMessageBody {
    DeviceAvailable { descriptor: DeviceDescriptor },
    DeviceUnavailable { device_ref: DeviceRef, reason: Option<String> },
    ControlInput {
        device_ref: DeviceRef,
        control_id: String,
        capability_id: String,
        event_type: String,
        value: Option<JsonValue>,
    },
    ControlCommand {
        device_ref: DeviceRef,
        control_id: Option<String>,
        capability_id: String,
        command_type: String,
        params: Vec<(String, JsonValue)>,
    },
}

/// What the body of a hardware message is.
pub enum HardwareMessageBodyModel {
    DeviceAvailable { descriptor: DeviceDescriptorModel },
    DeviceUnavailable { device_ref: DeviceRefModel, reason: Option<Seq<char>> },
    ControlInput {
        device_ref: DeviceRefModel,
        control_id: Seq<char>,
        capability_id: Seq<char>,
        event_type: Seq<char>,
        value: Option<JsonModel>,
    },
    ControlCommand {
        device_ref: DeviceRefModel,
        control_id: Option<Seq<char>>,
        capability_id: Seq<char>,
        command_type: Seq<char>,
        params: Seq<(Seq<char>, JsonModel)>,
    },
}

impl DeepView for HardwareMessageBody {
    type V = HardwareMessageBodyModel;

    open spec fn deep_view(&self) -> HardwareMessageBodyModel {
        match self {
            HardwareMessageBody::DeviceAvailable { descriptor } => HardwareMessageBodyModel::DeviceAvailable {
                descriptor: descriptor.deep_view(),
            },
            HardwareMessageBody::DeviceUnavailable { device_ref, reason } => HardwareMessageBodyModel::DeviceUnavailable {
                device_ref: device_ref.deep_view(),
                reason: reason.deep_view(),
            },
            HardwareMessageBody::ControlInput { device_ref, control_id, capability_id, event_type, value } =>
                HardwareMessageBodyModel::ControlInput {
                device_ref: device_ref.deep_view(),
                control_id: control_id@,
                capability_id: capability_id@,
                event_type: event_type@,
                value: value.deep_view(),
            },
            HardwareMessageBody::ControlCommand {
                device_ref,
                control_id,
                capability_id,
                command_type,
                params,
            } => HardwareMessageBodyModel::ControlCommand {
                device_ref: device_ref.deep_view(),
                control_id: control_id.deep_view(),
                capability_id: capability_id@,
                command_type: command_type@,
                params: params.deep_view(),
            },
        }
    }
}

impl Clone for HardwareMessageBody {
    fn clone(&self) -> (r: Self)
        ensures
            r.deep_view() == self.deep_view(),
    {
        match self {
            HardwareMessageBody::DeviceAvailable { descriptor } =>
                HardwareMessageBody::DeviceAvailable { descriptor: descriptor.clone() },
            HardwareMessageBody::DeviceUnavailable { device_ref, reason } =>
                HardwareMessageBody::DeviceUnavailable {
                device_ref: device_ref.clone(),
                reason: reason.clone(),
            },
            HardwareMessageBody::ControlInput {
                device_ref,
                control_id,
                capability_id,
                event_type,
                value,
            } => HardwareMessageBody::ControlInput {
                device_ref: device_ref.clone(),
                control_id: control_id.clone(),
                capability_id: capability_id.clone(),
                event_type: event_type.clone(),
                value: value.clone(),
            },
            HardwareMessageBody::ControlCommand {
                device_ref,
                control_id,
                capability_id,
                command_type,
                params,
            } => HardwareMessageBody::ControlCommand {
                device_ref: device_ref.clone(),
                control_id: control_id.clone(),
                capability_id: capability_id.clone(),
                command_type: command_type.clone(),
                params: copy_fields(params),
            },
        }
    }
}

impl HardwareMessageBody {
    /// Whether the message asks something of a device.
    pub fn is_command(&self) -> (r: bool)
        ensures
            r == (self.deep_view() is ControlCommand),
    {
        matches!(self, HardwareMessageBody::ControlCommand { .. })
    }
}

/// What is told of a value of `DeviceRef`: each field under its own name.
pub proof fn device_ref_is_told_by_field(value: DeviceRef)
    ensures
        value.deep_view().manager_id == value.manager_id@,
        value.deep_view().device_id == value.device_id@,
        value.deep_view().fingerprint == value.fingerprint.deep_view(),
{
}

/// What is told of a value of `CapabilityConstraint`: each field under its own name.
pub proof fn capability_constraint_is_told_by_field(value: CapabilityConstraint)
    ensures
        value.deep_view().constraint_type == value.constraint_type@,
        value.deep_view().subject == value.subject@,
        value.deep_view().value == value.value.deep_view(),
{
}

/// What is told of a value of `CapabilityDescriptor`: each field under its own name.
pub proof fn capability_descriptor_is_told_by_field(value: CapabilityDescriptor)
    ensures
        value.deep_view().capability_id == value.capability_id@,
        value.deep_view().family == value.family@,
        value.deep_view().capability_type == value.capability_type@,
        value.deep_view().direction == value.direction@,
        value.deep_view().access == value.access.deep_view(),
        value.deep_view().constraints == value.constraints.deep_view(),
        value.deep_view().event_types == value.event_types.deep_view(),
        value.deep_view().command_types == value.command_types.deep_view(),
{
}

/// What is told of a value of `ControlGeometry`: each field under its own name.
pub proof fn control_geometry_is_told_by_field(value: ControlGeometry)
    ensures
        value.deep_view().x == value.x,
        value.deep_view().y == value.y,
        value.deep_view().width == value.width,
        value.deep_view().height == value.height,
        value.deep_view().unit == value.unit@,
{
}

/// What is told of a value of `ControlDescriptor`: each field under its own name.
pub proof fn control_descriptor_is_told_by_field(value: ControlDescriptor)
    ensures
        value.deep_view().control_id == value.control_id@,
        value.deep_view().kind == value.kind@,
        value.deep_view().label == value.label.deep_view(),
        value.deep_view().geometry == value.geometry.deep_view(),
        value.deep_view().input_capabilities == value.input_capabilities.deep_view(),
        value.deep_view().output_capabilities == value.output_capabilities.deep_view(),
{
}

/// What is told of a value of `DeviceDescriptor`: each field under its own name.
pub proof fn device_descriptor_is_told_by_field(value: DeviceDescriptor)
    ensures
        value.deep_view().device_id == value.device_id@,
        value.deep_view().fingerprint == value.fingerprint@,
        value.deep_view().display_name == value.display_name@,
        value.deep_view().manufacturer == value.manufacturer.deep_view(),
        value.deep_view().model == value.model.deep_view(),
        value.deep_view().serial_number == value.serial_number.deep_view(),
        value.deep_view().controls == value.controls.deep_view(),
        value.deep_view().capabilities == value.capabilities.deep_view(),
{
}

/// What is told of a value of `HardwareMessageBody`: its variant, and each field under its own name.
pub proof fn hardware_message_body_is_told_by_field(value: HardwareMessageBody)
    ensures
        match (value, value.deep_view()) {
            (HardwareMessageBody::DeviceAvailable { descriptor }, HardwareMessageBodyModel::DeviceAvailable { descriptor: told_descriptor }) => told_descriptor == descriptor.deep_view(),
            (HardwareMessageBody::DeviceUnavailable { device_ref, reason }, HardwareMessageBodyModel::DeviceUnavailable { device_ref: told_device_ref, reason: told_reason }) => told_device_ref == device_ref.deep_view()
                && told_reason == reason.deep_view(),
            (HardwareMessageBody::ControlInput { device_ref, control_id, capability_id, event_type, value }, HardwareMessageBodyModel::ControlInput { device_ref: told_device_ref, control_id: told_control_id, capability_id: told_capability_id, event_type: told_event_type, value: told_value }) => told_device_ref == device_ref.deep_view()
                && told_control_id == control_id@
                && told_capability_id == capability_id@
                && told_event_type == event_type@
                && told_value == value.deep_view(),
            (HardwareMessageBody::ControlCommand { device_ref, control_id, capability_id, command_type, params }, HardwareMessageBodyModel::ControlCommand { device_ref: told_device_ref, control_id: told_control_id, capability_id: told_capability_id, command_type: told_command_type, params: told_params }) => told_device_ref == device_ref.deep_view()
                && told_control_id == control_id.deep_view()
                && told_capability_id == capability_id@
                && told_command_type == command_type@
                && told_params == params.deep_view(),
            _ => false,
        },
{
}

} // verus!
