//! What the message-bus sink publishes: the topics of each field of a device
//! and the discovery description of each sensor.
use vstd::prelude::*;
use crate::fields::{Field, FieldType};

verus! {

/// Device class and state class under which a field's sensor is announced.
pub struct ClassInfo {
    pub device_class: Option<String>,
    pub state_class: String,
}

/// Views of an optional text.
pub open spec fn opt_view(s: Option<String>) -> Option<Seq<char>> {
    match s {
        Some(t) => Some(t@),
        None => None,
    }
}

/// The device class announced for a field type, if any.
pub open spec fn device_class_of(ft: FieldType) -> Option<Seq<char>> {
    match ft {
        FieldType::Charge | FieldType::Unitless | FieldType::Frequency => None,
        FieldType::Current => Some("current"@),
        FieldType::Energy => Some("energy"@),
        FieldType::Power => Some("power"@),
        FieldType::StateOfCharge => Some("battery"@),
        FieldType::Temperature => Some("temperature"@),
        FieldType::Time => Some("duration"@),
        FieldType::Voltage => Some("voltage"@),
    }
}

/// The state class announced for a field type.
pub open spec fn state_class_of(ft: FieldType) -> Seq<char> {
    match ft {
        FieldType::Energy => "total_increasing"@,
        _ => "measurement"@,
    }
}

impl ClassInfo {
    pub fn new(device_class: &str, state_class: &str) -> (r: Self)
        ensures
            opt_view(r.device_class) == Some(device_class@),
            r.state_class@ == state_class@,
    {
        ClassInfo {
            device_class: Some(String::from_str(device_class)),
            state_class: String::from_str(state_class),
        }
    }

    pub fn new_no_device(state_class: &str) -> (r: Self)
        ensures
            r.device_class is None,
            r.state_class@ == state_class@,
    {
        ClassInfo { device_class: None, state_class: String::from_str(state_class) }
    }
}

impl ClassInfo {
    /// The classes of a field type.
    pub fn from(ft: FieldType) -> (r: Self)
        ensures
            opt_view(r.device_class) == device_class_of(ft),
            r.state_class@ == state_class_of(ft),
    {
        match ft {
            FieldType::Charge | FieldType::Unitless => ClassInfo::new_no_device("measurement"),
            FieldType::Current => ClassInfo::new("current", "measurement"),
            FieldType::Energy => ClassInfo::new("energy", "total_increasing"),
            FieldType::Frequency => ClassInfo::new_no_device("measurement"),
            FieldType::Power => ClassInfo::new("power", "measurement"),
            FieldType::StateOfCharge => ClassInfo::new("battery", "measurement"),
            FieldType::Temperature => ClassInfo::new("temperature", "measurement"),
            FieldType::Time => ClassInfo::new("duration", "measurement"),
            FieldType::Voltage => ClassInfo::new("voltage", "measurement"),
        }
    }
}

/// Prefix of the topics of every sensor.
pub open spec fn topic_root() -> Seq<char> {
    "homeassistant/sensor/"@
}

/// Identifier of a field of a given device.
pub open spec fn unique_id_of(serial: Seq<char>, id: Seq<char>) -> Seq<char> {
    "sunsniff_"@ + serial + "_"@ + id
}

/// Field associated with a specific device: its identifier and topics.
pub struct DeviceField {
    pub unique_id: String,
    pub state_topic: String,
    pub config_topic: String,
}

impl DeviceField {
    pub fn new(field: &Field, serial: &str) -> (r: Self)
        ensures
            r.unique_id@ == unique_id_of(serial@, field.id@),
            r.state_topic@ == topic_root() + unique_id_of(serial@, field.id@) + "/state"@,
            r.config_topic@ == topic_root() + unique_id_of(serial@, field.id@) + "/config"@,
    {
        let mut unique_id = String::from_str("sunsniff_");
        unique_id.append(serial);
        unique_id.append("_");
        unique_id.append(field.id.as_str());
        let mut state_topic = String::from_str("homeassistant/sensor/");
        state_topic.append(unique_id.as_str());
        state_topic.append("/state");
        let mut config_topic = String::from_str("homeassistant/sensor/");
        config_topic.append(unique_id.as_str());
        config_topic.append("/config");
        DeviceField { unique_id, state_topic, config_topic }
    }
}

/// Seconds after which a sensor without news counts as unavailable.
pub const EXPIRE_AFTER: i32 = 600;

/// The discovery description of a field's sensor.
pub struct SensorConfig {
    /// Identifier of the device that the sensor belongs to
    pub device: String,
    pub device_class: Option<String>,
    pub expire_after: i32,
    pub name: String,
    pub object_id: String,
    pub state_class: String,
    pub state_topic: String,
    pub unique_id: String,
    pub unit_of_measurement: String,
}

/// Describes the sensor of a field of the device with the given serial: its
/// name is the group and the field's name, its classes those of its type.
pub fn sensor_config(field: &Field, serial: &str) -> (r: SensorConfig)
    ensures
        r.device@ == serial@,
        opt_view(r.device_class) == device_class_of(field.field_type),
        r.expire_after == EXPIRE_AFTER,
        r.name@ == field.group@ + " "@ + field.name@,
        r.object_id@ == unique_id_of(serial@, field.id@),
        r.state_class@ == state_class_of(field.field_type),
        r.state_topic@ == topic_root() + unique_id_of(serial@, field.id@) + "/state"@,
        r.unique_id@ == unique_id_of(serial@, field.id@),
        r.unit_of_measurement@ == field.unit@,
{
    let df = DeviceField::new(field, serial);
    let class_info = ClassInfo::from(field.field_type);
    let mut name = field.group.clone();
    name.append(" ");
    name.append(field.name.as_str());
    SensorConfig {
        device: String::from_str(serial),
        device_class: class_info.device_class,
        expire_after: EXPIRE_AFTER,
        name,
        object_id: df.unique_id.clone(),
        state_class: class_info.state_class,
        state_topic: df.state_topic,
        unique_id: df.unique_id,
        unit_of_measurement: field.unit.clone(),
    }
}

} // verus!
