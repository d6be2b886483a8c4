use sunsniff::fields::{Field, FieldType};
use sunsniff::influxdb2::{default_host, point_tags};
use sunsniff::mqtt::{sensor_config, ClassInfo, DeviceField};

fn field(field_type: FieldType, scale: Option<i64>) -> Field {
    Field::new(
        field_type,
        "Battery".to_string(),
        "Temperature".to_string(),
        "battery_temperature".to_string(),
        scale,
        vec![],
    )
    .unwrap()
}

#[test]
fn class_info_per_type() {
    let c = ClassInfo::from(FieldType::Energy);
    assert_eq!((c.device_class.as_deref(), c.state_class.as_str()), (Some("energy"), "total_increasing"));
    let c = ClassInfo::from(FieldType::Charge);
    assert_eq!((c.device_class.as_deref(), c.state_class.as_str()), (None, "measurement"));
    let c = ClassInfo::from(FieldType::StateOfCharge);
    assert_eq!(c.device_class.as_deref(), Some("battery"));
    let c = ClassInfo::new("voltage", "measurement");
    assert_eq!(c.device_class.as_deref(), Some("voltage"));
    let c = ClassInfo::new_no_device("measurement");
    assert!(c.device_class.is_none());
}

#[test]
fn device_field_topics() {
    let f = field(FieldType::Temperature, None);
    let d = DeviceField::new(&f, "1235687108");
    assert_eq!(d.unique_id, "sunsniff_1235687108_battery_temperature");
    assert_eq!(d.state_topic, "homeassistant/sensor/sunsniff_1235687108_battery_temperature/state");
    assert_eq!(d.config_topic, "homeassistant/sensor/sunsniff_1235687108_battery_temperature/config");
}

#[test]
fn sensor_description() {
    let f = field(FieldType::Temperature, None);
    let s = sensor_config(&f, "42");
    assert_eq!(s.device, "42");
    assert_eq!(s.name, "Battery Temperature");
    assert_eq!(s.device_class.as_deref(), Some("temperature"));
    assert_eq!(s.state_class, "measurement");
    assert_eq!(s.expire_after, 600);
    assert_eq!(s.object_id, "sunsniff_42_battery_temperature");
    assert_eq!(s.unit_of_measurement, "\u{b0}C");
}

#[test]
fn influx_tags() {
    assert_eq!(default_host(), "http://localhost:8086");
    let f = field(FieldType::Temperature, None);
    let tags = point_tags("42", &f);
    let tags: Vec<(&str, &str)> = tags.iter().map(|(k, v)| (k.as_str(), v.as_str())).collect();
    assert_eq!(
        tags,
        vec![("serial", "42"), ("group", "Battery"), ("name", "Temperature"), ("unit", "\u{b0}C")]
    );
    let g = field(FieldType::Unitless, None);
    assert_eq!(point_tags("42", &g).len(), 3);
}
