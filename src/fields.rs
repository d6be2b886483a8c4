//! Field descriptors and the decoding of raw 16-bit words into physical values.
//!
//! Physical values are fixed-point integers counted in millionths of the
//! field's unit, so that `233_300_000` stands for 233.3 V. Scales and biases
//! use the same fixed point: a scale of `100_000` is 0.1 unit per raw count.
use vstd::prelude::*;

verus! {

/// Number of fixed-point steps in one unit of a physical value.
pub const UNIT: i64 = 1000000;

/// Largest magnitude that a two-word raw value can take after sign conversion.
pub const RAW_LIMIT: i64 = 2147483648;

/// Type of quantity stored in a field
#[derive(Clone, Copy, PartialEq, Eq, Debug, Structural)]
pub enum FieldType {
    Charge,
    Current,
    Energy,
    Frequency,
    Power,
    StateOfCharge,
    Temperature,
    Time,
    Voltage,
    Unitless,
}

/// Static description of a field in the data
#[derive(Clone, Debug)]
pub struct Field {
    pub field_type: FieldType,
    pub group: String,
    pub name: String,
    pub id: String,
    /// Amount by which to scale the raw integer value, in millionths
    pub scale: i64,
    /// Amount to add to the value after scaling, in millionths of the unit
    pub bias: i64,
    pub unit: String,
    /// Indices of other fields to sum to get this field; empty for a field
    /// read directly from the transport
    pub sum_of: Vec<usize>,
}

/// Two's complement reading of a 16-bit word.
pub open spec fn twoscomp16(w: int) -> int {
    if w >= 0x8000 {
        w - 0x10000
    } else {
        w
    }
}

/// Two's complement reading of a 32-bit word.
pub open spec fn twoscomp32(w: int) -> int {
    if w >= 0x8000_0000 {
        w - 0x1_0000_0000
    } else {
        w
    }
}

/// The signed integer carried by one or two words, the first word being the
/// least significant; the sign threshold follows the number of words.
pub open spec fn signed_of_words(parts: Seq<u16>) -> int {
    if parts.len() == 1 {
        twoscomp16(parts[0] as int)
    } else {
        twoscomp32(parts[0] as int + parts[1] as int * 0x10000)
    }
}

/// Integer division rounding towards zero, as machine division does.
pub open spec fn div_toward_zero(a: int, b: int) -> int {
    if a >= 0 {
        a / b
    } else {
        -((-a) / b)
    }
}

/// Remainder of `div_toward_zero`: it carries the sign of `a`.
pub open spec fn rem_toward_zero(a: int, b: int) -> int {
    a - div_toward_zero(a, b) * b
}

/// Rewrites a value encoded as `HH*100 + MM` as minutes since midnight.
pub open spec fn minutes_of_hhmm(raw: int) -> int {
    div_toward_zero(raw, 100) * 60 + rem_toward_zero(raw, 100)
}

/// Magnitude of an integer.
pub open spec fn abs(x: int) -> int {
    if x < 0 {
        -x
    } else {
        x
    }
}

/// Scale applied by default for a field type, in millionths; `None` where the
/// type has no default and a scale must be given.
pub open spec fn default_scale_of(t: FieldType) -> Option<i64> {
    match t {
        FieldType::Charge | FieldType::Power | FieldType::StateOfCharge | FieldType::Unitless => {
            Some(1000000)
        },
        FieldType::Energy | FieldType::Temperature => Some(100000),
        FieldType::Frequency => Some(10000),
        FieldType::Time => Some(60000000),
        FieldType::Current | FieldType::Voltage => None,
    }
}

/// Bias applied by default for a field type, in millionths of the unit.
pub open spec fn default_bias_of(t: FieldType) -> i64 {
    match t {
        FieldType::Temperature => -100000000i64,
        _ => 0i64,
    }
}

/// Unit in which a field type is reported.
pub open spec fn unit_of(t: FieldType) -> Seq<char> {
    match t {
        FieldType::Charge => "Ah"@,
        FieldType::Current => "A"@,
        FieldType::Energy => "kWh"@,
        FieldType::Frequency => "Hz"@,
        FieldType::Power => "W"@,
        FieldType::StateOfCharge => "%"@,
        FieldType::Temperature => "\u{b0}C"@,
        FieldType::Time => "s"@,
        FieldType::Voltage => "V"@,
        FieldType::Unitless => ""@,
    }
}

impl FieldType {
    /// Default scale of the type, in millionths.
    pub fn default_scale(self) -> (r: Option<i64>)
        ensures
            r == default_scale_of(self),
    {
        match self {
            FieldType::Charge | FieldType::Power | FieldType::StateOfCharge
            | FieldType::Unitless => Some(1000000),
            FieldType::Energy | FieldType::Temperature => Some(100000),
            FieldType::Frequency => Some(10000),
            FieldType::Time => Some(60000000),
            FieldType::Current | FieldType::Voltage => None,
        }
    }

    /// Default bias of the type, in millionths of the unit.
    pub fn default_bias(self) -> (r: i64)
        ensures
            r == default_bias_of(self),
    {
        match self {
            FieldType::Temperature => -100000000,
            _ => 0,
        }
    }

    /// Unit string of the type.
    pub fn unit(self) -> (r: String)
        ensures
            r@ == unit_of(self),
    {
        match self {
            FieldType::Charge => String::from_str("Ah"),
            FieldType::Current => String::from_str("A"),
            FieldType::Energy => String::from_str("kWh"),
            FieldType::Frequency => String::from_str("Hz"),
            FieldType::Power => String::from_str("W"),
            FieldType::StateOfCharge => String::from_str("%"),
            FieldType::Temperature => String::from_str("\u{b0}C"),
            FieldType::Time => String::from_str("s"),
            FieldType::Voltage => String::from_str("V"),
            FieldType::Unitless => String::from_str(""),
        }
    }
}

impl Field {
    /// True for a field computed as the sum of earlier fields.
    pub open spec fn is_sum(&self) -> bool {
        self.sum_of@.len() > 0
    }

    /// Largest magnitude that a value decoded from words can reach.
    pub open spec fn direct_bound(&self) -> int {
        abs(self.scale as int) * RAW_LIMIT + abs(self.bias as int)
    }

    /// A decoded value of this field always fits in an `i64`.
    pub open spec fn fits(&self) -> bool {
        self.direct_bound() <= i64::MAX
    }

    /// The signed raw value of the words, as minutes for a time field.
    pub open spec fn raw_value(&self, parts: Seq<u16>) -> int {
        if self.field_type == FieldType::Time {
            minutes_of_hhmm(signed_of_words(parts))
        } else {
            signed_of_words(parts)
        }
    }

    /// The physical value, in millionths of the unit, carried by the words.
    pub open spec fn word_value(&self, parts: Seq<u16>) -> int {
        self.raw_value(parts) * self.scale + self.bias
    }

    /// Builds a descriptor, taking the scale, bias and unit that its type
    /// implies; an explicit `scale` overrides the default one. Returns `None`
    /// where the type has no default scale and none is given.
    pub fn new(
        field_type: FieldType,
        group: String,
        name: String,
        id: String,
        scale: Option<i64>,
        sum_of: Vec<usize>,
    ) -> (r: Option<Field>)
        ensures
            r is None <==> (scale is None && default_scale_of(field_type) is None),
            r matches Some(f) ==> {
                &&& f.field_type == field_type
                &&& f.group@ == group@
                &&& f.name@ == name@
                &&& f.id@ == id@
                &&& f.scale == (if scale is Some {
                    scale->0
                } else {
                    default_scale_of(field_type)->0
                })
                &&& f.bias == default_bias_of(field_type)
                &&& f.unit@ == unit_of(field_type)
                &&& f.sum_of@ == sum_of@
            },
    {
        let scale = match scale {
            Some(s) => s,
            None => match field_type.default_scale() {
                Some(s) => s,
                None => {
                    return None;
                },
            },
        };
        let bias = field_type.default_bias();
        let unit = field_type.unit();
        Some(Field { field_type, group, name, id, scale, bias, unit, sum_of })
    }

    /// Decodes one or two words, least significant first, into a physical
    /// value in millionths of the unit.
    pub fn from_u16s(&self, parts: &Vec<u16>) -> (r: i64)
        requires
            1 <= parts@.len() <= 2,
            self.fits(),
        ensures
            r == self.word_value(parts@),
            abs(r as int) <= self.direct_bound(),
            parts@.len() == 1 && self.field_type != FieldType::Time ==> r == twoscomp16(
                parts@[0] as int,
            ) * self.scale + self.bias,
            parts@.len() == 2 && self.field_type != FieldType::Time ==> r == twoscomp32(
                parts@[0] as int + parts@[1] as int * 0x10000,
            ) * self.scale + self.bias,
    {
        let mut raw: i64 = parts[0] as i64;
        if parts.len() == 1 {
            if raw >= 0x8000 {
                raw = raw - 0x10000;
            }
        } else {
            raw = raw + (parts[1] as i64) * 0x10000;
            if raw >= 0x8000_0000 {
                raw = raw - 0x1_0000_0000;
            }
        }
        assert(raw == signed_of_words(parts@));
        assert(-RAW_LIMIT <= raw < RAW_LIMIT);
        if self.field_type == FieldType::Time {
            let (h, m) = if raw >= 0 {
                (raw / 100, raw % 100)
            } else {
                let a: i64 = -raw;
                (-(a / 100), -(a % 100))
            };
            assert(h == div_toward_zero(raw as int, 100));
            assert(m == rem_toward_zero(raw as int, 100)) by (nonlinear_arith)
                requires
                    h == div_toward_zero(raw as int, 100),
                    raw >= 0 ==> m == raw % 100,
                    raw < 0 ==> m == -((-raw) % 100),
            {
            }
            proof {
                lemma_hhmm_smaller(raw as int);
            }
            raw = h * 60 + m;
        }
        assert(raw == self.raw_value(parts@));
        assert(abs(raw as int) <= RAW_LIMIT);
        proof {
            lemma_scaled_bound(raw as int, self.scale as int, self.bias as int);
        }
        let scaled = raw * self.scale;
        scaled + self.bias
    }

    /// Sum of the already computed values that this field refers to.
    pub fn from_sum(&self, values: &Vec<i64>) -> (r: i64)
        requires
            forall|k: int| 0 <= k < self.sum_of@.len() ==> self.sum_of@[k] < values@.len(),
            abs_sum_over(values@.map_values(|v: i64| v as int), self.sum_of@) <= i64::MAX,
        ensures
            r == sum_over(values@.map_values(|v: i64| v as int), self.sum_of@),
    {
        let ghost vals = values@.map_values(|v: i64| v as int);
        let mut acc: i64 = 0;
        let mut k: usize = 0;
        while k < self.sum_of.len()
            invariant
                k <= self.sum_of@.len(),
                vals == values@.map_values(|v: i64| v as int),
                forall|j: int| 0 <= j < self.sum_of@.len() ==> self.sum_of@[j] < values@.len(),
                abs_sum_over(vals, self.sum_of@) <= i64::MAX,
                acc == sum_over(vals, self.sum_of@.take(k as int)),
                abs(acc as int) <= abs_sum_over(vals, self.sum_of@.take(k as int)),
            decreases self.sum_of@.len() - k,
        {
            let idx = self.sum_of[k];
            proof {
                let t = self.sum_of@.take(k as int + 1);
                assert(t.drop_last() == self.sum_of@.take(k as int));
                lemma_abs_sum_prefix(vals, self.sum_of@, k as int + 1);
            }
            acc = acc + values[idx];
            k = k + 1;
        }
        assert(self.sum_of@.take(k as int) == self.sum_of@);
        acc
    }
}

/// Sum of the values at the given indices.
pub open spec fn sum_over(vals: Seq<int>, idxs: Seq<usize>) -> int
    decreases idxs.len(),
{
    if idxs.len() == 0 {
        0
    } else {
        sum_over(vals, idxs.drop_last()) + vals[idxs.last() as int]
    }
}

/// Sum of the magnitudes of the values at the given indices.
pub open spec fn abs_sum_over(vals: Seq<int>, idxs: Seq<usize>) -> int
    decreases idxs.len(),
{
    if idxs.len() == 0 {
        0
    } else {
        abs_sum_over(vals, idxs.drop_last()) + abs(vals[idxs.last() as int])
    }
}

/// Rewriting `HH*100 + MM` as minutes never grows the magnitude.
proof fn lemma_hhmm_smaller(raw: int)
    ensures
        abs(minutes_of_hhmm(raw)) <= abs(raw),
{
    if raw >= 0 {
        assert(minutes_of_hhmm(raw) == (raw / 100) * 60 + raw % 100);
        assert(0 <= (raw / 100) * 60 + raw % 100 <= raw) by (nonlinear_arith)
            requires
                raw >= 0,
        {
        }
    } else {
        let a = -raw;
        assert(minutes_of_hhmm(raw) == -((a / 100) * 60 + a % 100)) by (nonlinear_arith)
            requires
                a == -raw,
                a > 0,
                minutes_of_hhmm(raw) == div_toward_zero(raw, 100) * 60 + rem_toward_zero(raw, 100),
                div_toward_zero(raw, 100) == -(a / 100),
        {
        }
        assert(0 <= (a / 100) * 60 + a % 100 <= a) by (nonlinear_arith)
            requires
                a > 0,
        {
        }
    }
}

/// A raw value within the raw range, scaled and offset, stays within the
/// bound of its field.
proof fn lemma_scaled_bound(raw: int, scale: int, bias: int)
    requires
        abs(raw) <= RAW_LIMIT,
    ensures
        abs(raw * scale) <= abs(scale) * RAW_LIMIT,
        abs(raw * scale + bias) <= abs(scale) * RAW_LIMIT + abs(bias),
{
    assert(abs(raw * scale) <= abs(scale) * RAW_LIMIT) by (nonlinear_arith)
        requires
            abs(raw) <= RAW_LIMIT,
    {
    }
}

/// The magnitude sum over a prefix of the indices is at most the whole one,
/// and it bounds the sum over that prefix.
pub proof fn lemma_abs_sum_prefix(vals: Seq<int>, idxs: Seq<usize>, k: int)
    requires
        0 <= k <= idxs.len(),
        forall|j: int| 0 <= j < idxs.len() ==> idxs[j] < vals.len(),
    ensures
        abs_sum_over(vals, idxs.take(k)) <= abs_sum_over(vals, idxs),
        abs(sum_over(vals, idxs.take(k))) <= abs_sum_over(vals, idxs.take(k)),
    decreases idxs.len(),
{
    if idxs.len() == 0 {
        assert(idxs.take(k) == idxs);
    } else if k == idxs.len() {
        assert(idxs.take(k) == idxs);
        lemma_abs_sum_prefix(vals, idxs.drop_last(), k - 1);
        assert(idxs.drop_last().take(k - 1) == idxs.drop_last());
    } else {
        lemma_abs_sum_prefix(vals, idxs.drop_last(), k);
        assert(idxs.drop_last().take(k) == idxs.take(k));
    }
}

} // verus!
