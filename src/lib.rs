//! Decoding of solar inverter telemetry and its distribution to sinks.
//!
//! A [`catalog::Catalog`] describes the fields of the inverter; each field's
//! raw 16-bit words are decoded by [`fields::Field::from_u16s`], either out of
//! a captured packet ([`pcap`]) or out of polled holding registers
//! ([`modbus`]). The resulting [`receiver::Update`] records are fanned out to
//! the queues of all sinks by a [`receiver::Dispatcher`]; [`mqtt`] and
//! [`influxdb2`] hold what two kinds of sink derive from each value.
pub mod fields;
pub mod catalog;
pub mod text;
pub mod receiver;
pub mod pcap;
pub mod modbus;
pub mod influxdb2;
pub mod mqtt;
