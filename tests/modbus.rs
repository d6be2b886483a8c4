use std::sync::Arc;
use sunsniff::catalog::Catalog;
use sunsniff::fields::{Field, FieldType, UNIT};
use sunsniff::modbus::{
    clock_seconds, default_baud, default_modbus_id, select_program, serial_from_registers,
    PollLayout, ProgramLayout, ProgramWindow,
};

fn window(start: i64, stop: i64, index: usize) -> ProgramWindow {
    ProgramWindow { start, stop, power_index: index, soc_index: index }
}

#[test]
fn schedule_selection() {
    let windows = vec![window(0, 28800, 0), window(28800, 64800, 1), window(64800, 86400, 2)];
    assert_eq!(select_program(&windows, 30000), 1);
    assert_eq!(select_program(&windows, 90000), 2);
    assert_eq!(select_program(&windows, 0), 0);
    assert_eq!(select_program(&windows, 28800), 1);
    assert_eq!(select_program(&windows, 28799), 0);
    assert_eq!(select_program(&windows, -1), 2);
}

#[test]
fn last_window_is_a_catch_all() {
    let windows = vec![window(100, 200, 0), window(300, 400, 1)];
    assert_eq!(select_program(&windows, 50), 1);
    assert_eq!(select_program(&windows, 500), 1);
    assert_eq!(select_program(&vec![window(10, 20, 0)], 0), 0);
}

#[test]
fn clock_block() {
    // hour 13 in the low byte of the second register; 45 minutes and 30
    // seconds in the high and low bytes of the third.
    assert_eq!(clock_seconds(&vec![0x1705, 0x040d, 0x2d1e]), 13 * 3600 + 45 * 60 + 30);
    assert_eq!(clock_seconds(&vec![0, 0, 0]), 0);
}

#[test]
fn serial_from_big_endian_registers() {
    let words = vec![0x3132, 0x3335, 0x3638, 0x3731, 0x3038];
    assert_eq!(serial_from_registers(&words).unwrap(), "1235687108");
    assert_eq!(serial_from_registers(&vec![0x31ff, 0x3233]), None);
}

#[test]
fn config_defaults() {
    assert_eq!(default_baud(), 9600);
    assert_eq!(default_modbus_id(), 1);
}

fn direct(field_type: FieldType, id: &str) -> Field {
    Field::new(field_type, "Inverter".to_string(), id.to_string(), id.to_string(), None, vec![])
        .unwrap()
}

/// Three programs: start times, powers, states of charge, then the current
/// program's power and state of charge, then a battery power read from two
/// registers and a field that this device does not have.
fn poll_layout() -> PollLayout {
    let mut fields = vec![];
    for i in 0..3 {
        fields.push(direct(FieldType::Time, &format!("program_time_{i}")));
    }
    for i in 0..3 {
        fields.push(direct(FieldType::Power, &format!("program_power_{i}")));
    }
    for i in 0..3 {
        fields.push(direct(FieldType::StateOfCharge, &format!("program_soc_{i}")));
    }
    fields.push(direct(FieldType::Power, "program_power"));
    fields.push(direct(FieldType::StateOfCharge, "program_soc"));
    fields.push(direct(FieldType::Power, "battery_power"));
    fields.push(direct(FieldType::Power, "absent"));
    let catalog = Arc::new(Catalog::new(fields).unwrap());
    let mut registers: Vec<Vec<u16>> = (0..11).map(|i| vec![100 + i]).collect();
    registers.push(vec![200, 201]);
    registers.push(vec![]);
    let programs = ProgramLayout {
        time_first: 0,
        power_first: 3,
        soc_first: 6,
        power: 9,
        soc: 10,
        count: 3,
    };
    PollLayout::new(catalog, registers, programs).unwrap()
}

fn poll_words() -> Vec<Vec<u16>> {
    // Programs start at 00:00, 08:00 and 18:00.
    let mut words = vec![vec![0], vec![800], vec![1800]];
    words.extend([vec![1000], vec![2000], vec![3000]]);
    words.extend([vec![10], vec![20], vec![30]]);
    words.extend([vec![0], vec![0]]);
    words.push(vec![0xfffe, 0xffff]);
    words.push(vec![]);
    words
}

#[test]
fn poll_picks_the_current_program() {
    let layout = poll_layout();
    assert_eq!(layout.len(), 13);
    assert_eq!(layout.registers_of(11), &vec![200, 201]);
    // 09:00:00 falls in the second program.
    let values = layout.decode_values(&poll_words(), &vec![0, 9, 0]);
    assert_eq!(values[9], 2000 * UNIT);
    assert_eq!(values[10], 20 * UNIT);
    assert_eq!(values[1], 8 * 3600 * UNIT);
    assert_eq!(values[11], -2 * UNIT);
    assert_eq!(values[12], 0);
    // 20:00:00 is past every stop but the last program's.
    let values = layout.decode_values(&poll_words(), &vec![0, 20, 0]);
    assert_eq!((values[9], values[10]), (3000 * UNIT, 30 * UNIT));
    // 07:59:59 is still in the first.
    let values = layout.decode_values(&poll_words(), &vec![0, 7, 59 * 256 + 59]);
    assert_eq!((values[9], values[10]), (1000 * UNIT, 10 * UNIT));
}

#[test]
fn poll_record_carries_stamp_and_serial() {
    let layout = poll_layout();
    let u = layout.decode_poll(42, "1235687108".to_string(), &poll_words(), &vec![0, 9, 0]);
    assert_eq!(u.timestamp, 42);
    assert_eq!(u.serial, "1235687108");
    assert_eq!(u.fields.len(), 13);
    assert_eq!(u.values.len(), 13);
}

#[test]
fn poll_layout_must_fit_the_catalog() {
    let catalog = Arc::new(Catalog::new(vec![direct(FieldType::Power, "a")]).unwrap());
    let programs = ProgramLayout { time_first: 0, power_first: 0, soc_first: 0, power: 0, soc: 0, count: 1 };
    assert!(PollLayout::new(catalog.clone(), vec![vec![1]], programs).is_some());
    assert!(PollLayout::new(catalog.clone(), vec![vec![1, 2, 3]], programs).is_none());
    assert!(PollLayout::new(catalog.clone(), vec![], programs).is_none());
    let wide = ProgramLayout { count: 2, ..programs };
    assert!(PollLayout::new(catalog, vec![vec![1]], wide).is_none());
}
