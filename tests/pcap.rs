use std::collections::HashMap;
use std::sync::Arc;
use sunsniff::catalog::Catalog;
use sunsniff::fields::{Field, FieldType, UNIT};
use sunsniff::pcap::{parse_serial, parse_timestamp, Codec, FrameLayout};

/// Sample data from a real packet, but with the serial number altered for privacy
fn sample_packet() -> Vec<u8> {
    vec![
        0x04, 0x42, 0x1a, 0x78, 0xac, 0xd0, 0x60, 0x55, 0xf9, 0xb0, 0x92, 0x14, 0x08, 0x00,
        0x45, 0x00, 0x01, 0x4c, 0x04, 0xf5, 0x00, 0x00, 0xff, 0x06, 0x80, 0x75, 0xc0, 0xa8,
        0x00, 0xca, 0x2f, 0xf2, 0x43, 0xdd, 0xc5, 0x9a, 0xc7, 0x9c, 0x67, 0x56, 0xe9, 0xb1,
        0x8d, 0xea, 0x57, 0xed, 0x50, 0x18, 0x15, 0xb6, 0xd3, 0x84, 0x00, 0x00, 0xa5, 0x06,
        0x01, 0x09, 0x02, 0xce, 0x00, 0x00, 0xfa, 0x01, 0x19, 0x31, 0x32, 0x33, 0x35, 0x36,
        0x38, 0x37, 0x31, 0x30, 0x38, 0x00, 0x00, 0x00, 0x00, 0x00, 0x00, 0x00, 0x00, 0x00,
        0x00, 0x00, 0x00, 0x00, 0x00, 0x00, 0x00, 0x16, 0x0b, 0x05, 0x08, 0x20, 0x2e, 0x01,
        0x00, 0x02, 0x00, 0x0a, 0x00, 0x00, 0x00, 0x00, 0x09, 0x7a, 0x00, 0x00, 0x01, 0x29,
        0x01, 0x13, 0x00, 0xc8, 0x0d, 0x1d, 0x00, 0x00, 0x00, 0x03, 0x00, 0x08, 0x08, 0x4a,
        0x00, 0x00, 0x05, 0x52, 0x00, 0x00, 0x00, 0x04, 0x00, 0x00, 0x02, 0xe7, 0x13, 0x7a,
        0x00, 0x00, 0x00, 0x05, 0x00, 0x00, 0x00, 0x00, 0x00, 0x0f, 0x0c, 0x5f, 0x00, 0x00,
        0x0a, 0xe1, 0x00, 0x00, 0x00, 0x00, 0x06, 0x30, 0x05, 0x9f, 0x00, 0x00, 0x00, 0x01,
        0x07, 0xd0, 0x00, 0x00, 0x0d, 0xfa, 0x00, 0x00, 0x08, 0x3e, 0x00, 0x00, 0x0a, 0x01,
        0x00, 0x00, 0x00, 0x00, 0x00, 0x00, 0x00, 0x00, 0x00, 0x00, 0x00, 0x00, 0x00, 0x64,
        0x00, 0x07, 0x06, 0x65, 0x00, 0x39, 0x00, 0x4c, 0x00, 0x01, 0x00, 0x00, 0x00, 0x00,
        0x00, 0x00, 0x00, 0x00, 0x00, 0x00, 0x00, 0x00, 0x9e, 0x00, 0x01, 0xa2, 0x00, 0x01,
        0xcf, 0x5e, 0x21, 0xc1, 0x00, 0x2b, 0x09, 0x1d, 0x00, 0x00, 0x09, 0x1d, 0x00, 0x00,
        0x09, 0x1d, 0x00, 0x00, 0x09, 0x1d, 0x09, 0x4b, 0x00, 0x00, 0x00, 0x00, 0x00, 0x84,
        0x00, 0x00, 0x01, 0x4d, 0x00, 0x00, 0x00, 0x64, 0x00, 0x00, 0x00, 0x00, 0xff, 0xb8,
        0x00, 0x00, 0x00, 0x00, 0x00, 0x00, 0x00, 0x00, 0x00, 0x00, 0x00, 0xe6, 0x00, 0x00,
        0x00, 0xe6, 0x00, 0xe6, 0x00, 0x00, 0x00, 0xe6, 0x00, 0x9e, 0x00, 0x00, 0x00, 0x7e,
        0x04, 0xba, 0x14, 0xdf, 0x00, 0x36, 0x00, 0x9e, 0x03, 0xa2, 0x00, 0x00, 0x00, 0x00,
        0x00, 0x00, 0xfd, 0x81, 0xfb, 0x54, 0x13, 0x7a, 0x13, 0x7a, 0x00, 0x01, 0x00, 0x10,
        0x00, 0x00, 0x00, 0x00, 0x00, 0x00, 0x00, 0x00, 0x15, 0xea, 0x00, 0x00, 0x00, 0x64,
        0x00, 0x69, 0x00, 0x36, 0x14, 0xda, 0x00, 0x0a, 0x04, 0xba,
    ]
}

fn field(field_type: FieldType, group: &str, name: &str, id: &str, scale: Option<i64>) -> Field {
    Field::new(field_type, group.to_string(), name.to_string(), id.to_string(), scale, vec![])
        .unwrap()
}

/// A small catalog of the 292-byte variant, with the offsets of its fields.
fn codec() -> Codec {
    let fields = vec![
        field(FieldType::Voltage, "Grid", "Voltage", "grid_voltage", Some(100_000)),
        field(FieldType::Temperature, "Battery", "Temperature", "battery_temperature", None),
        field(FieldType::StateOfCharge, "Battery", "SOC", "battery_soc", None),
    ];
    let catalog = Arc::new(Catalog::new(fields).unwrap());
    let offsets = vec![vec![176], vec![240], vec![244]];
    let layout = FrameLayout::new(catalog, offsets, 292).unwrap();
    Codec::new("Africa/Johannesburg".to_string(), vec![layout]).unwrap()
}

fn units(v: i64) -> f64 {
    v as f64 / UNIT as f64
}

#[test]
fn test_decode_packet() {
    let packet_data = sample_packet();
    let c = codec();
    let update = c.decode_data(&packet_data).unwrap();
    assert_eq!(update.serial, "1235687108");
    assert_eq!(update.timestamp, 1667629966000000000);
    let mut values = HashMap::<&str, f64>::new();
    for (field, value) in update.fields.fields().iter().zip(update.values.iter()) {
        values.insert(field.id.as_str(), units(*value));
    }
    assert_eq!(values["grid_voltage"], 233.3);
    assert_eq!(values["battery_temperature"], 21.0);
    assert_eq!(values["battery_soc"], 54.0);
}

#[test]
fn payload_of_wrong_length_is_not_decoded() {
    let c = codec();
    let payload = sample_packet()[54..].to_vec();
    assert!(c.decode_payload(&payload).is_some());
    let mut longer = payload.clone();
    longer.push(0);
    assert!(c.decode_payload(&longer).is_none());
    assert!(c.decode_payload(&payload[..291].to_vec()).is_none());
    assert!(c.decode_payload(&vec![]).is_none());
}

#[test]
fn payload_with_wrong_magic_is_not_decoded() {
    let c = codec();
    let mut payload = sample_packet()[54..].to_vec();
    payload[0] = 0xa4;
    assert!(c.decode_payload(&payload).is_none());
}

#[test]
fn frame_that_does_not_parse_is_not_decoded() {
    let c = codec();
    assert!(c.decode_data(&[0x01, 0x02, 0x03]).is_none());
    assert!(c.decode_data(&sample_packet()[..60]).is_none());
}

#[test]
fn invalid_date_is_not_decoded() {
    let c = codec();
    let mut payload = sample_packet()[54..].to_vec();
    payload[38] = 13; // month 13
    assert!(c.decode_payload(&payload).is_none());
    assert_eq!(parse_timestamp(&payload, "Africa/Johannesburg"), None);
}

#[test]
fn skipped_local_time_is_not_decoded() {
    let mut payload = sample_packet()[54..].to_vec();
    // 2022-03-13 02:30:00 does not exist in New York.
    payload[37..43].copy_from_slice(&[22, 3, 13, 2, 30, 0]);
    assert_eq!(parse_timestamp(&payload, "America/New_York"), None);
    // 2022-11-06 01:30:00 happens twice there.
    payload[37..43].copy_from_slice(&[22, 11, 6, 1, 30, 0]);
    assert_eq!(parse_timestamp(&payload, "America/New_York"), None);
    payload[37..43].copy_from_slice(&[22, 11, 7, 1, 30, 0]);
    assert_eq!(parse_timestamp(&payload, "America/New_York"), Some(1667802600000000000));
}

#[test]
fn serial_that_is_not_text_reads_unknown() {
    let mut payload = sample_packet()[54..].to_vec();
    assert_eq!(parse_serial(&payload), "1235687108");
    payload[12] = 0xff;
    assert_eq!(parse_serial(&payload), "unknown");
    let c = codec();
    assert_eq!(c.decode_payload(&payload).unwrap().serial, "unknown");
}

#[test]
fn layout_offsets_must_fit_the_packet() {
    let fields = vec![field(FieldType::Power, "G", "P", "p", None)];
    let catalog = Arc::new(Catalog::new(fields).unwrap());
    assert!(FrameLayout::new(catalog.clone(), vec![vec![290]], 292).is_some());
    assert!(FrameLayout::new(catalog.clone(), vec![vec![291]], 292).is_none());
    assert!(FrameLayout::new(catalog.clone(), vec![vec![]], 292).is_none());
    assert!(FrameLayout::new(catalog.clone(), vec![vec![1, 2, 3]], 292).is_none());
    assert!(FrameLayout::new(catalog.clone(), vec![], 292).is_none());
    assert!(FrameLayout::new(catalog, vec![vec![0]], 10).is_none());
}

#[test]
fn variant_is_chosen_by_length() {
    let fields = vec![field(FieldType::Power, "G", "P", "p", None)];
    let catalog = Arc::new(Catalog::new(fields).unwrap());
    let short = FrameLayout::new(catalog.clone(), vec![vec![176]], 292).unwrap();
    let long = FrameLayout::new(catalog.clone(), vec![vec![176, 180]], 302).unwrap();
    let same = FrameLayout::new(catalog.clone(), vec![vec![176]], 292).unwrap();
    let again = FrameLayout::new(catalog, vec![vec![184]], 292).unwrap();
    assert!(Codec::new("UTC".to_string(), vec![same, again]).is_none());
    let c = Codec::new("UTC".to_string(), vec![short, long]).unwrap();
    let mut payload = sample_packet()[54..].to_vec();
    let u = c.decode_payload(&payload).unwrap();
    assert_eq!(u.values, vec![2333 * UNIT]);
    assert_eq!(u.timestamp, 1667637166000000000);
    payload.extend_from_slice(&[0; 10]);
    let u = c.decode_payload(&payload).unwrap();
    assert_eq!(u.values, vec![(2333 + 2333 * 65536) * UNIT]);
}

#[test]
fn nonexistent_date_is_not_decoded() {
    let mut payload = sample_packet()[54..].to_vec();
    // 29 February 2022 does not exist.
    payload[37..43].copy_from_slice(&[22, 2, 29, 12, 0, 0]);
    assert_eq!(parse_timestamp(&payload, "Africa/Johannesburg"), None);
    assert!(codec().decode_payload(&payload).is_none());
    // 2024 is a leap year.
    payload[37..43].copy_from_slice(&[24, 2, 29, 12, 0, 0]);
    assert_eq!(parse_timestamp(&payload, "Africa/Johannesburg"), Some(1709200800000000000));
}
