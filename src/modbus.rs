//! Active polling: identifying the inverter from its holding registers, and
//! turning one poll's register words and clock into a record's values, with
//! the selection of the program that applies at the inverter's time of day.
use vstd::prelude::*;
use std::sync::Arc;
use crate::catalog::{Catalog, catalog_values, ints, words_view};
use crate::fields::{Field, UNIT};
use crate::receiver::{Update, share};
use crate::text::{utf8_of, utf8_text};

verus! {

/// First register of the inverter's clock block
pub const REG_CLOCK: u16 = 22;

/// First register of the inverter's serial number
pub const REG_SERIAL: u16 = 3;

/// Number of registers holding the serial number
pub const SERIAL_REGS: u16 = 5;

/// Default baud rate of a serial line
pub fn default_baud() -> (r: u32)
    ensures
        r == 9600,
{
    9600
}

/// Default modbus address of the inverter
pub fn default_modbus_id() -> (r: u8)
    ensures
        r == 1,
{
    1
}

/// The bytes of a list of words, each word big-endian.
pub open spec fn be_bytes(words: Seq<u16>) -> Seq<u8> {
    Seq::new(
        2 * words.len(),
        |k: int|
            if k % 2 == 0 {
                (words[k / 2] / 256) as u8
            } else {
                (words[k / 2] % 256) as u8
            },
    )
}

/// Reads the serial number out of its registers: their big-endian bytes as
/// text; `None` where they are not text.
pub fn serial_from_registers(words: &Vec<u16>) -> (r: Option<String>)
    ensures
        match r {
            Some(s) => utf8_of(be_bytes(words@)) == Some(s@),
            None => utf8_of(be_bytes(words@)) is None,
        },
{
    let mut bytes: Vec<u8> = Vec::new();
    let mut i: usize = 0;
    while i < words.len()
        invariant
            i <= words@.len(),
            bytes@.len() == 2 * i,
            forall|k: int| 0 <= k < 2 * i ==> #[trigger] bytes@[k] == be_bytes(words@)[k],
        decreases words@.len() - i,
    {
        let w = words[i];
        bytes.push((w / 256) as u8);
        bytes.push((w % 256) as u8);
        proof {
            assert((2 * i) / 2 == i as int && (2 * i) % 2 == 0);
            assert((2 * i + 1) / 2 == i as int && (2 * i + 1) % 2 == 1);
        }
        i = i + 1;
    }
    assert(bytes@ == be_bytes(words@));
    utf8_text(bytes.as_slice())
}

/// Seconds since local midnight encoded in the clock block: the hour in the
/// low byte of its second register, minutes and seconds in the high and low
/// bytes of its third.
pub open spec fn clock_of(regs: Seq<u16>) -> int {
    (regs[1] % 256) as int * 3600 + (regs[2] / 256) as int * 60 + (regs[2] % 256) as int
}

/// Decodes the inverter's time of day, in seconds, from its clock block.
pub fn clock_seconds(regs: &Vec<u16>) -> (r: u32)
    requires
        regs@.len() >= 3,
    ensures
        r == clock_of(regs@),
{
    let hour = (regs[1] % 256) as u32;
    let minute = (regs[2] / 256) as u32;
    let second = (regs[2] % 256) as u32;
    hour * 3600 + minute * 60 + second
}

/// A time-of-day interval and the positions of the values that apply in it.
#[derive(Clone, Copy, PartialEq, Eq, Debug, Structural)]
pub struct ProgramWindow {
    pub start: i64,
    pub stop: i64,
    pub power_index: usize,
    pub soc_index: usize,
}

/// `now` lies within the window, start included and stop excluded.
pub open spec fn in_window(w: ProgramWindow, now: int) -> bool {
    w.start <= now < w.stop
}

/// The first of the windows from position `i` on that holds `now`, the last
/// window holding every time that no earlier one does.
pub open spec fn first_window_from(ws: Seq<ProgramWindow>, now: int, i: int) -> int
    decreases ws.len() - i,
{
    if i >= ws.len() - 1 {
        ws.len() - 1
    } else if in_window(ws[i], now) {
        i
    } else {
        first_window_from(ws, now, i + 1)
    }
}

/// The position of the window selected at time `now`.
pub open spec fn program_index(ws: Seq<ProgramWindow>, now: int) -> int {
    first_window_from(ws, now, 0)
}

/// Selects the first window, but the last, that holds `now`; where none does,
/// the last window.
pub fn select_program(windows: &Vec<ProgramWindow>, now: i64) -> (r: usize)
    requires
        windows@.len() >= 1,
    ensures
        r == program_index(windows@, now as int),
        r < windows@.len(),
        r < windows@.len() - 1 ==> in_window(windows@[r as int], now as int),
        forall|i: int| 0 <= i < r ==> !in_window(#[trigger] windows@[i], now as int),
{
    let last = windows.len() - 1;
    let mut i: usize = 0;
    while i < last
        invariant
            last == windows@.len() - 1,
            i <= last,
            program_index(windows@, now as int) == first_window_from(windows@, now as int, i as int),
            forall|j: int| 0 <= j < i ==> !in_window(#[trigger] windows@[j], now as int),
        decreases last - i,
    {
        let w = windows[i];
        if w.start <= now && now < w.stop {
            return i;
        }
        i = i + 1;
    }
    last
}

/// Where the program fields stand in the catalog: `count` consecutive start
/// times, powers and states of charge, and the two fields that receive the
/// values of the program that applies now.
#[derive(Clone, Copy, PartialEq, Eq, Debug, Structural)]
pub struct ProgramLayout {
    pub time_first: usize,
    pub power_first: usize,
    pub soc_first: usize,
    pub power: usize,
    pub soc: usize,
    pub count: usize,
}

impl ProgramLayout {
    /// The program fields all stand among `n` fields.
    pub open spec fn fits(&self, n: int) -> bool {
        &&& self.count >= 1
        &&& self.time_first + self.count <= n
        &&& self.power_first + self.count <= n
        &&& self.soc_first + self.count <= n
        &&& self.power < n
        &&& self.soc < n
    }
}

/// The program windows that a record's values describe: program `i` runs
/// from its start time to the next program's, the last one round to the
/// first program's start.
pub open spec fn windows_of(values: Seq<i64>, pl: ProgramLayout) -> Seq<ProgramWindow> {
    Seq::new(
        pl.count as nat,
        |i: int|
            ProgramWindow {
                start: values[pl.time_first + i],
                stop: if i + 1 < pl.count {
                    values[pl.time_first + i + 1]
                } else {
                    values[pl.time_first as int]
                },
                power_index: (pl.power_first + i) as usize,
                soc_index: (pl.soc_first + i) as usize,
            },
    )
}

/// The values of one poll: the catalog's values, with the current program's
/// power and state of charge copied into their two fields.
pub open spec fn polled_values(
    fields: Seq<Field>,
    words: Seq<Seq<u16>>,
    pl: ProgramLayout,
    now: int,
) -> Seq<int> {
    let v = catalog_values(fields, words);
    let ws = windows_of(v.map_values(|x: int| x as i64), pl);
    let p = program_index(ws, now * UNIT);
    let v1 = v.update(pl.power as int, v[ws[p].power_index as int]);
    v1.update(pl.soc as int, v1[ws[p].soc_index as int])
}

/// The registers of each field fit the catalog: none, one or two for a field
/// read directly, and none for a sum.
pub open spec fn registers_fit(fields: Seq<Field>, registers: Seq<Seq<u16>>) -> bool {
    &&& registers.len() == fields.len()
    &&& forall|i: int|
        0 <= i < registers.len() ==> {
            &&& #[trigger] registers[i].len() <= 2
            &&& fields[i].is_sum() ==> registers[i].len() == 0
        }
}

/// Views of register lists.
pub open spec fn registers_view(registers: Seq<Vec<u16>>) -> Seq<Seq<u16>> {
    registers.map_values(|r: Vec<u16>| r@)
}

/// Where each field of a catalog is read in the device's registers.
pub struct PollLayout {
    fields: Arc<Catalog>,
    registers: Vec<Vec<u16>>,
    programs: ProgramLayout,
}

impl PollLayout {
    #[verifier::type_invariant]
    spec fn inv(&self) -> bool {
        &&& registers_fit((*self.fields)@, registers_view(self.registers@))
        &&& self.programs.fits((*self.fields)@.len() as int)
    }

    /// The fields of a poll's record.
    pub closed spec fn catalog(&self) -> Seq<Field> {
        (*self.fields)@
    }

    /// The registers of each field.
    pub closed spec fn registers(&self) -> Seq<Seq<u16>> {
        registers_view(self.registers@)
    }

    /// Where the program fields stand.
    pub closed spec fn programs(&self) -> ProgramLayout {
        self.programs
    }

    /// Pairs a catalog with the registers of its fields and the positions of
    /// its program fields; `None` where they do not fit the catalog.
    pub fn new(fields: Arc<Catalog>, registers: Vec<Vec<u16>>, programs: ProgramLayout) -> (r:
        Option<PollLayout>)
        ensures
            r is Some <==> registers_fit((*fields)@, registers_view(registers@)) && programs.fits(
                (*fields)@.len() as int,
            ),
            r matches Some(l) ==> l.catalog() == (*fields)@ && l.registers() == registers_view(
                registers@,
            ) && l.programs() == programs,
    {
        let ghost rv = registers_view(registers@);
        let n = fields.len();
        if registers.len() != n {
            return None;
        }
        if programs.count < 1 || programs.time_first > n || n - programs.time_first
            < programs.count || programs.power_first > n || n - programs.power_first
            < programs.count || programs.soc_first > n || n - programs.soc_first < programs.count
            || programs.power >= n || programs.soc >= n {
            return None;
        }
        let catalog_fields = fields.fields();
        let mut i: usize = 0;
        while i < n
            invariant
                i <= n,
                n == registers@.len(),
                rv == registers_view(registers@),
                catalog_fields@ == (*fields)@,
                catalog_fields@.len() == n,
                forall|j: int|
                    0 <= j < i ==> {
                        &&& #[trigger] rv[j].len() <= 2
                        &&& catalog_fields@[j].is_sum() ==> rv[j].len() == 0
                    },
            decreases n - i,
        {
            assert(rv[i as int] == registers@[i as int]@);
            if registers[i].len() > 2 || (catalog_fields[i].sum_of.len() > 0 && registers[i].len()
                > 0) {
                return None;
            }
            i = i + 1;
        }
        Some(PollLayout { fields, registers, programs })
    }

    /// The registers to read for the field at position `i`.
    pub fn registers_of(&self, i: usize) -> (r: &Vec<u16>)
        requires
            i < self.registers().len(),
        ensures
            r@ == self.registers()[i as int],
    {
        &self.registers[i]
    }

    /// Number of fields.
    pub fn len(&self) -> (r: usize)
        ensures
            r == self.registers().len(),
            r == self.catalog().len(),
    {
        proof {
            use_type_invariant(self);
        }
        self.registers.len()
    }

    /// Computes the values of one poll from the words read at each field's
    /// registers and the clock block: the catalog's values, where the fields
    /// of the current program receive the power and state of charge of the
    /// program that applies at the inverter's time of day.
    pub fn decode_values(&self, words: &Vec<Vec<u16>>, clock: &Vec<u16>) -> (r: Vec<i64>)
        requires
            words@.len() == self.registers().len(),
            forall|i: int|
                0 <= i < words@.len() ==> #[trigger] words@[i]@.len() == self.registers()[i].len(),
            clock@.len() >= 3,
        ensures
            r@.len() == self.catalog().len(),
            ints(r@) == polled_values(
                self.catalog(),
                words_view(words@),
                self.programs(),
                clock_of(clock@),
            ),
    {
        proof {
            use_type_invariant(self);
        }
        let ghost rv = registers_view(self.registers@);
        proof {
            assert forall|i: int| 0 <= i < (*self.fields)@.len() implies #[trigger] words@[i]@.len()
                <= 2 by {
                assert(rv[i].len() <= 2);
            }
        }
        let mut values = self.fields.evaluate(words);
        let ghost v = ints(values@);
        let pl = self.programs;
        let mut windows: Vec<ProgramWindow> = Vec::new();
        let n = values.len();
        let mut i: usize = 0;
        while i < pl.count
            invariant
                n == values@.len(),
                i <= pl.count,
                pl == self.programs,
                pl.fits(values@.len() as int),
                values@.len() == (*self.fields)@.len(),
                windows@.len() == i,
                forall|j: int|
                    0 <= j < i ==> #[trigger] windows@[j] == windows_of(values@, pl)[j],
            decreases pl.count - i,
        {
            let stop = if i + 1 < pl.count {
                values[pl.time_first + i + 1]
            } else {
                values[pl.time_first]
            };
            windows.push(
                ProgramWindow {
                    start: values[pl.time_first + i],
                    stop,
                    power_index: pl.power_first + i,
                    soc_index: pl.soc_first + i,
                },
            );
            i = i + 1;
        }
        assert(windows@ == windows_of(values@, pl));
        assert(values@ == v.map_values(|x: int| x as i64));
        let now = clock_seconds(clock) as i64 * UNIT;
        let p = select_program(&windows, now);
        let power = values[windows[p].power_index];
        values.set(pl.power, power);
        let soc = values[windows[p].soc_index];
        values.set(pl.soc, soc);
        proof {
            let ws = windows_of(v.map_values(|x: int| x as i64), pl);
            let v1 = v.update(pl.power as int, v[ws[p as int].power_index as int]);
            assert(ints(values@) == v1.update(pl.soc as int, v1[ws[p as int].soc_index as int]));
        }
        values
    }

    /// The record of one poll, stamped with the given time and serial number.
    pub fn decode_poll(&self, timestamp: i64, serial: String, words: &Vec<Vec<u16>>, clock: &Vec<
        u16,
    >) -> (r: Update)
        requires
            words@.len() == self.registers().len(),
            forall|i: int|
                0 <= i < words@.len() ==> #[trigger] words@[i]@.len() == self.registers()[i].len(),
            clock@.len() >= 3,
        ensures
            r.timestamp == timestamp,
            r.serial@ == serial@,
            (*r.fields)@ == self.catalog(),
            ints(r.values@) == polled_values(
                self.catalog(),
                words_view(words@),
                self.programs(),
                clock_of(clock@),
            ),
    {
        let values = self.decode_values(words, clock);
        let fields = share(&self.fields);
        Update::new(timestamp, serial, fields, values)
    }
}

} // verus!
