//! Passive capture: decoding the inverter's telemetry packet out of a
//! captured Ethernet frame.
use vstd::prelude::*;
use std::sync::Arc;
use crate::catalog::{Catalog, catalog_values, ints, words_view};
use crate::fields::Field;
use crate::receiver::{Update, share};
use crate::text::{utf8_of, utf8_text};

verus! {

/// Expected first byte of the packet
pub const MAGIC_HEADER: u8 = 0xa5;

/// First offset of the inverter serial number
pub const SERIAL_START: usize = 11;

/// End (exclusive) of the offsets holding the inverter serial number
pub const SERIAL_END: usize = 21;

/// Offset at which the timestamp is located
pub const DATETIME_OFFSET: usize = 37;

/// Shortest packet that holds the serial number and the timestamp.
pub const MIN_LENGTH: usize = 43;

/// A name for the instant, in nanoseconds since the UNIX epoch, at which the
/// given local date and time occur in the named time zone; `None` where the
/// zone is unknown, the date or time does not exist, the local time is
/// skipped or repeated by the zone, or the instant is out of range.
pub uninterp spec fn local_instant_nanos(
    tz: Seq<char>,
    year: int,
    month: int,
    day: int,
    hour: int,
    minute: int,
    second: int,
) -> Option<i64>;

/// A name for the transport payload of an Ethernet frame, `None` where the
/// frame's headers do not parse.
pub uninterp spec fn ethernet_payload(frame: Seq<u8>) -> Option<Seq<u8>>;

/// Gregorian leap years.
pub open spec fn is_leap_year(y: int) -> bool {
    (y % 4 == 0 && y % 100 != 0) || y % 400 == 0
}

/// Number of days in a month of a year.
pub open spec fn days_in_month(y: int, m: int) -> int {
    if m == 2 {
        if is_leap_year(y) {
            29
        } else {
            28
        }
    } else if m == 4 || m == 6 || m == 9 || m == 11 {
        30
    } else {
        31
    }
}

/// A date and a time of day that exist on the calendar and the clock.
pub open spec fn valid_civil(y: int, mo: int, d: int, h: int, mi: int, s: int) -> bool {
    &&& 1 <= mo <= 12
    &&& 1 <= d <= days_in_month(y, mo)
    &&& 0 <= h < 24
    &&& 0 <= mi < 60
    &&& 0 <= s < 60
}

/// Relies on chrono-tz's `Tz::from_str` to find the zone by name, chrono's
/// `NaiveDate::from_ymd_opt` and `NaiveDate::and_hms_opt` to build the local
/// date and time (`None` on a date or time that does not exist),
/// `NaiveDateTime::and_local_timezone` with `single` for the one instant it
/// maps to, and `DateTime::timestamp_nanos_opt`.
#[verifier::external_body]
fn local_to_nanos(tz: &str, year: i32, month: u32, day: u32, hour: u32, minute: u32, second: u32) -> (r:
    Option<i64>)
    ensures
        r == local_instant_nanos(
            tz@,
            year as int,
            month as int,
            day as int,
            hour as int,
            minute as int,
            second as int,
        ),
        r is Some ==> valid_civil(
            year as int,
            month as int,
            day as int,
            hour as int,
            minute as int,
            second as int,
        ),
{
    let zone: chrono_tz::Tz = tz.parse().ok()?;
    let date = chrono::NaiveDate::from_ymd_opt(year, month, day)?;
    let local = date.and_hms_opt(hour, minute, second)?;
    local.and_local_timezone(zone).single()?.timestamp_nanos_opt()
}

/// Relies on etherparse's `SlicedPacket::from_ethernet`: it slices the
/// Ethernet, IP and transport headers off a frame and leaves the payload.
#[verifier::external_body]
fn sliced_payload(frame: &[u8]) -> (r: Option<Vec<u8>>)
    ensures
        match r {
            Some(p) => ethernet_payload(frame@) == Some(p@),
            None => ethernet_payload(frame@) is None,
        },
{
    match etherparse::SlicedPacket::from_ethernet(frame) {
        Ok(sliced) => Some(sliced.payload.to_vec()),
        Err(_) => None,
    }
}

/// The big-endian word at an offset of the payload.
pub open spec fn be_word(p: Seq<u8>, off: int) -> u16 {
    (p[off] as int * 256 + p[off + 1] as int) as u16
}

/// The words at a list of offsets, in the order of the list.
pub open spec fn words_at(p: Seq<u8>, offs: Seq<usize>) -> Seq<u16> {
    Seq::new(offs.len(), |k: int| be_word(p, offs[k] as int))
}

/// The words of every field, read at the field's offsets.
pub open spec fn frame_words(p: Seq<u8>, offsets: Seq<Seq<usize>>) -> Seq<Seq<u16>> {
    Seq::new(offsets.len(), |i: int| words_at(p, offsets[i]))
}

/// The instant at which the packet was stamped: six bytes of local time,
/// the year counted from 2000.
pub open spec fn frame_time(tz: Seq<char>, p: Seq<u8>) -> Option<i64> {
    let o = DATETIME_OFFSET as int;
    local_instant_nanos(
        tz,
        p[o] as int + 2000,
        p[o + 1] as int,
        p[o + 2] as int,
        p[o + 3] as int,
        p[o + 4] as int,
        p[o + 5] as int,
    )
}

/// The six timestamp bytes of the packet name a date and a time of day that
/// exist.
pub open spec fn frame_civil_valid(p: Seq<u8>) -> bool {
    let o = DATETIME_OFFSET as int;
    valid_civil(
        p[o] as int + 2000,
        p[o + 1] as int,
        p[o + 2] as int,
        p[o + 3] as int,
        p[o + 4] as int,
        p[o + 5] as int,
    )
}

/// The serial number text of the packet, or `unknown` where it is not text.
pub open spec fn frame_serial(p: Seq<u8>) -> Seq<char> {
    match utf8_of(p.subrange(SERIAL_START as int, SERIAL_END as int)) {
        Some(s) => s,
        None => "unknown"@,
    }
}

/// The offsets fit a payload of the given length, with one or two offsets
/// for each directly read field.
pub open spec fn offsets_fit(fields: Seq<Field>, offsets: Seq<Seq<usize>>, length: int) -> bool {
    &&& offsets.len() == fields.len()
    &&& length >= MIN_LENGTH
    &&& forall|i: int|
        0 <= i < offsets.len() ==> {
            &&& #[trigger] offsets[i].len() <= 2
            &&& !fields[i].is_sum() ==> offsets[i].len() >= 1
            &&& forall|k: int| 0 <= k < offsets[i].len() ==> offsets[i][k] + 2 <= length
        }
}

/// Where each field of a catalog sits in the packet of one protocol variant.
pub struct FrameLayout {
    fields: Arc<Catalog>,
    offsets: Vec<Vec<usize>>,
    length: usize,
}

/// Views of offset lists.
pub open spec fn offsets_view(offsets: Seq<Vec<usize>>) -> Seq<Seq<usize>> {
    offsets.map_values(|o: Vec<usize>| o@)
}

impl FrameLayout {
    #[verifier::type_invariant]
    spec fn inv(&self) -> bool {
        offsets_fit((*self.fields)@, offsets_view(self.offsets@), self.length as int)
    }

    /// The fields decoded from packets of this variant.
    pub closed spec fn catalog(&self) -> Seq<Field> {
        (*self.fields)@
    }

    /// The offsets of each field's words.
    pub closed spec fn offsets(&self) -> Seq<Seq<usize>> {
        offsets_view(self.offsets@)
    }

    /// Length of the packets of this variant.
    pub closed spec fn length(&self) -> nat {
        self.length as nat
    }

    /// Pairs a catalog with the offsets of its fields in packets of the given
    /// length; `None` where the offsets do not fit such a packet.
    pub fn new(fields: Arc<Catalog>, offsets: Vec<Vec<usize>>, length: usize) -> (r: Option<
        FrameLayout,
    >)
        ensures
            r is Some <==> offsets_fit((*fields)@, offsets_view(offsets@), length as int),
            r matches Some(l) ==> l.catalog() == (*fields)@ && l.offsets() == offsets_view(offsets@)
                && l.length() == length,
    {
        let ghost ov = offsets_view(offsets@);
        if offsets.len() != fields.len() || length < MIN_LENGTH {
            return None;
        }
        let catalog_fields = fields.fields();
        let mut i: usize = 0;
        while i < offsets.len()
            invariant
                i <= offsets@.len(),
                ov == offsets_view(offsets@),
                offsets@.len() == catalog_fields@.len(),
                catalog_fields@ == (*fields)@,
                forall|j: int|
                    0 <= j < i ==> {
                        &&& #[trigger] ov[j].len() <= 2
                        &&& !catalog_fields@[j].is_sum() ==> ov[j].len() >= 1
                        &&& forall|k: int| 0 <= k < ov[j].len() ==> ov[j][k] + 2 <= length
                    },
            decreases offsets@.len() - i,
        {
            let offs = &offsets[i];
            assert(ov[i as int] == offs@);
            if offs.len() > 2 || (catalog_fields[i].sum_of.len() == 0 && offs.len() == 0) {
                return None;
            }
            let mut k: usize = 0;
            while k < offs.len()
                invariant
                    k <= offs@.len(),
                    i < offsets@.len(),
                    ov == offsets_view(offsets@),
                    ov[i as int] == offs@,
                    forall|m: int| 0 <= m < k ==> offs@[m] + 2 <= length,
                decreases offs@.len() - k,
            {
                if offs[k] >= length || length - offs[k] < 2 {
                    assert(ov[i as int][k as int] + 2 > length);
                    return None;
                }
                k = k + 1;
            }
            i = i + 1;
        }
        Some(FrameLayout { fields, offsets, length })
    }

    /// Length of the packets of this variant.
    pub fn length_of(&self) -> (r: usize)
        ensures
            r == self.length(),
    {
        self.length
    }

    /// The words of every field, read big-endian at the field's offsets.
    fn gather_words(&self, payload: &Vec<u8>) -> (r: Vec<Vec<u16>>)
        requires
            payload@.len() == self.length(),
        ensures
            words_view(r@) == frame_words(payload@, self.offsets()),
            r@.len() == self.catalog().len(),
    {
        proof {
            use_type_invariant(self);
        }
        let ghost ov = self.offsets();
        let mut words: Vec<Vec<u16>> = Vec::new();
        let mut i: usize = 0;
        while i < self.offsets.len()
            invariant
                i <= ov.len(),
                ov == offsets_view(self.offsets@),
                payload@.len() == self.length,
                offsets_fit((*self.fields)@, ov, self.length as int),
                words@.len() == i,
                forall|j: int| 0 <= j < i ==> #[trigger] words@[j]@ == words_at(payload@, ov[j]),
            decreases ov.len() - i,
        {
            let offs = &self.offsets[i];
            let mut w: Vec<u16> = Vec::new();
            let mut k: usize = 0;
            while k < offs.len()
                invariant
                    k <= offs@.len(),
                    offs@ == ov[i as int],
                    i < ov.len(),
                    payload@.len() == self.length,
                    offsets_fit((*self.fields)@, ov, self.length as int),
                    w@.len() == k,
                    forall|m: int| 0 <= m < k ==> #[trigger] w@[m] == be_word(payload@, offs@[m] as int),
                decreases offs@.len() - k,
            {
                let o = offs[k];
                assert(o + 2 <= payload@.len());
                let word: u16 = payload[o] as u16 * 256 + payload[o + 1] as u16;
                w.push(word);
                k = k + 1;
            }
            assert(w@ == words_at(payload@, ov[i as int]));
            words.push(w);
            i = i + 1;
        }
        assert(words_view(words@) == frame_words(payload@, ov));
        words
    }
}

/// Extracts the timestamp from the packet.
///
/// The timestamp consists of YY-MM-DD HH:MM:SS in 6 one-byte fields, with the
/// year relative to 2000, in local time of the zone `tz`. Returns `None` where
/// the time is invalid, or is skipped or repeated by the zone.
pub fn parse_timestamp(payload: &Vec<u8>, tz: &str) -> (r: Option<i64>)
    requires
        payload@.len() >= MIN_LENGTH,
    ensures
        r == frame_time(tz@, payload@),
        r is Some ==> frame_civil_valid(payload@),
{
    let o = DATETIME_OFFSET;
    local_to_nanos(
        tz,
        payload[o] as i32 + 2000,
        payload[o + 1] as u32,
        payload[o + 2] as u32,
        payload[o + 3] as u32,
        payload[o + 4] as u32,
        payload[o + 5] as u32,
    )
}

/// Extracts the serial number text from the packet, or `unknown` where the
/// bytes are not text.
pub fn parse_serial(payload: &Vec<u8>) -> (r: String)
    requires
        payload@.len() >= MIN_LENGTH,
    ensures
        r@ == frame_serial(payload@),
{
    let mut bytes: Vec<u8> = Vec::new();
    let mut i: usize = SERIAL_START;
    while i < SERIAL_END
        invariant
            SERIAL_START <= i <= SERIAL_END,
            payload@.len() >= MIN_LENGTH,
            bytes@ == payload@.subrange(SERIAL_START as int, i as int),
        decreases SERIAL_END - i,
    {
        bytes.push(payload[i]);
        i = i + 1;
    }
    match utf8_text(bytes.as_slice()) {
        Some(s) => s,
        None => String::from_str("unknown"),
    }
}

/// Decoder of captured frames: the time zone in which the inverter stamps
/// its packets, and the layouts of the protocol variants, of distinct lengths.
pub struct Codec {
    tz: String,
    layouts: Vec<FrameLayout>,
}

/// No two layouts share a packet length.
pub open spec fn lengths_distinct(layouts: Seq<FrameLayout>) -> bool {
    forall|a: int, b: int|
        0 <= a < layouts.len() && 0 <= b < layouts.len() && a != b ==> #[trigger] layouts[a].length()
            != #[trigger] layouts[b].length()
}

impl Codec {
    #[verifier::type_invariant]
    spec fn inv(&self) -> bool {
        lengths_distinct(self.layouts@)
    }

    /// Name of the time zone of the packets' timestamps.
    pub closed spec fn tz(&self) -> Seq<char> {
        self.tz@
    }

    /// The layouts of the protocol variants.
    pub closed spec fn layouts(&self) -> Seq<FrameLayout> {
        self.layouts@
    }

    /// A packet of this length and first byte is a telemetry packet of the
    /// variant at position `j`.
    pub open spec fn matches_variant(&self, p: Seq<u8>, j: int) -> bool {
        &&& 0 <= j < self.layouts().len()
        &&& p.len() == self.layouts()[j].length()
        &&& p[0] == MAGIC_HEADER
    }

    /// Some variant takes the packet and its timestamp is a valid instant.
    pub open spec fn accepts(&self, p: Seq<u8>) -> bool {
        &&& exists|j: int| self.matches_variant(p, j)
        &&& frame_time(self.tz(), p) is Some
    }

    /// `u` is the record decoded from the packet by the variant at `j`.
    pub open spec fn decodes_to(&self, p: Seq<u8>, j: int, u: Update) -> bool {
        let l = self.layouts()[j];
        &&& u.timestamp == frame_time(self.tz(), p)->0
        &&& u.serial@ == frame_serial(p)
        &&& (*u.fields)@ == l.catalog()
        &&& ints(u.values@) == catalog_values(l.catalog(), frame_words(p, l.offsets()))
    }

    /// A decoder for the named time zone; `None` where two layouts share a
    /// packet length.
    pub fn new(tz: String, layouts: Vec<FrameLayout>) -> (r: Option<Codec>)
        ensures
            r is Some <==> lengths_distinct(layouts@),
            r matches Some(c) ==> c.tz() == tz@ && c.layouts() == layouts@,
    {
        let mut a: usize = 0;
        while a < layouts.len()
            invariant
                a <= layouts@.len(),
                forall|x: int, y: int|
                    0 <= x < a && 0 <= y < layouts@.len() && x != y ==> #[trigger] layouts@[x].length()
                        != #[trigger] layouts@[y].length(),
            decreases layouts@.len() - a,
        {
            let mut b: usize = 0;
            while b < layouts.len()
                invariant
                    a < layouts@.len(),
                    b <= layouts@.len(),
                    forall|x: int, y: int|
                        0 <= x < a && 0 <= y < layouts@.len() && x != y ==> #[trigger] layouts@[x].length()
                            != #[trigger] layouts@[y].length(),
                    forall|y: int|
                        0 <= y < b && y != a ==> layouts@[a as int].length() != #[trigger] layouts@[y].length(),
                decreases layouts@.len() - b,
            {
                if a != b && layouts[a].length_of() == layouts[b].length_of() {
                    return None;
                }
                b = b + 1;
            }
            a = a + 1;
        }
        Some(Codec { tz, layouts })
    }

    /// Decodes a telemetry packet (the TCP payload). A packet of no variant's
    /// length, with another first byte, or whose timestamp is not a valid
    /// instant in the zone yields nothing.
    pub fn decode_payload(&self, payload: &Vec<u8>) -> (r: Option<Update>)
        ensures
            r is Some <==> self.accepts(payload@),
            r is Some ==> frame_civil_valid(payload@),
            (forall|j: int| !self.matches_variant(payload@, j)) ==> r is None,
            r matches Some(u) ==> forall|j: int|
                self.matches_variant(payload@, j) ==> self.decodes_to(payload@, j, u),
    {
        proof {
            use_type_invariant(self);
        }
        let n = self.layouts.len();
        let mut found: usize = n;
        let mut j: usize = 0;
        while j < n
            invariant
                n == self.layouts@.len(),
                j <= n,
                found == n || (found < n && self.layouts@[found as int].length() == payload@.len()),
                found == n ==> forall|x: int|
                    0 <= x < j ==> #[trigger] self.layouts@[x].length() != payload@.len(),
            decreases n - j,
        {
            if found == n && self.layouts[j].length_of() == payload.len() {
                found = j;
            }
            j = j + 1;
        }
        if found == n {
            return None;
        }
        let layout = &self.layouts[found];
        proof {
            use_type_invariant(layout);
        }
        if payload[0] != MAGIC_HEADER {
            return None;
        }
        let timestamp = match parse_timestamp(payload, self.tz.as_str()) {
            Some(t) => t,
            None => {
                return None;
            },
        };
        let serial = parse_serial(payload);
        let words = layout.gather_words(payload);
        let catalog = share(&layout.fields);
        proof {
            assert forall|i: int| 0 <= i < catalog@.len() implies #[trigger] words@[i]@.len() <= 2 by {
                assert(words_view(words@)[i] == words@[i]@);
                assert(offsets_view(layout.offsets@)[i].len() <= 2);
            }
        }
        let values = catalog.evaluate(&words);
        assert(self.matches_variant(payload@, found as int));
        Some(Update::new(timestamp, serial, catalog, values))
    }

    /// Decodes a captured Ethernet frame: its transport payload, where the
    /// headers parse, is decoded as a telemetry packet.
    pub fn decode_data(&self, packet_data: &[u8]) -> (r: Option<Update>)
        ensures
            ethernet_payload(packet_data@) is None ==> r is None,
            ethernet_payload(packet_data@) matches Some(p) ==> {
                &&& r is Some <==> self.accepts(p)
                &&& r is Some ==> frame_civil_valid(p)
                &&& r matches Some(u) ==> forall|j: int|
                    self.matches_variant(p, j) ==> self.decodes_to(p, j, u)
            },
    {
        match sliced_payload(packet_data) {
            Some(payload) => self.decode_payload(&payload),
            None => None,
        }
    }
}

} // verus!
