//! Attribute values of schematic instances, with physical quantities held as
//! decimal mantissa and scale.
use vstd::prelude::*;

use crate::text::{concat, decimal_text, digits_of, str_eq};

verus! {

/// The unit of a physical value.
#[derive(Copy, Clone, Debug, PartialEq, Eq, Structural)]
pub enum PhysicalUnit {
    Ohms,
    Volts,
    Amperes,
    Farads,
    Henries,
    Hertz,
    Seconds,
    Kelvin,
}

/// A decimal number: `mantissa / 10^scale`.
#[derive(Copy, Clone, Debug, PartialEq, Eq, Structural)]
pub struct Decimal {
    pub mantissa: i128,
    pub scale: u32,
}

/// A physical quantity with its tolerance and unit.
#[derive(Copy, Clone, Debug, PartialEq, Eq, Structural)]
pub struct PhysicalValue {
    pub value: Decimal,
    pub tolerance: Decimal,
    pub unit: PhysicalUnit,
}

/// The value of a schematic attribute. A number is held as a decimal.
#[derive(Debug)]
pub enum AttributeValue {
    String(String),
    Number(Decimal),
    Boolean(bool),
    Physical(PhysicalValue),
    Array(Vec<AttributeValue>),
    Json(String),
}

impl View for AttributeValue {
    type V = AttributeValue;

    open spec fn view(&self) -> AttributeValue {
        *self
    }
}

/// `width` copies of `'0'` before `d`, when `d` is shorter than `width`.
pub open spec fn zero_padded(d: Seq<char>, width: nat) -> Seq<char> {
    if d.len() >= width {
        d
    } else {
        Seq::new((width - d.len()) as nat, |i: int| '0') + d
    }
}

/// The text of a decimal: its sign, then its digits with a point before the
/// last `scale` of them (at least one digit before the point).
pub open spec fn decimal_repr(m: int, scale: nat) -> Seq<char> {
    let sign = if m < 0 { seq!['-'] } else { Seq::empty() };
    let mag: nat = if m < 0 { (-m) as nat } else { m as nat };
    let d = zero_padded(digits_of(mag), scale + 1);
    if scale == 0 {
        sign + d
    } else {
        sign + d.subrange(0, d.len() - scale) + seq!['.'] + d.subrange(d.len() - scale, d.len() as int)
    }
}

/// The symbol of a unit.
pub open spec fn unit_symbol(u: PhysicalUnit) -> Seq<char> {
    match u {
        PhysicalUnit::Ohms => "Ohm"@,
        PhysicalUnit::Volts => "V"@,
        PhysicalUnit::Amperes => "A"@,
        PhysicalUnit::Farads => "F"@,
        PhysicalUnit::Henries => "H"@,
        PhysicalUnit::Hertz => "Hz"@,
        PhysicalUnit::Seconds => "s"@,
        PhysicalUnit::Kelvin => "K"@,
    }
}

/// The text of a physical value: its value, then its unit's symbol.
pub open spec fn physical_text(pv: PhysicalValue) -> Seq<char> {
    decimal_repr(pv.value.mantissa as int, pv.value.scale as nat) + unit_symbol(pv.unit)
}

impl PhysicalUnit {
    /// The unit's symbol.
    pub fn symbol(&self) -> (r: &'static str)
        ensures
            r@ == unit_symbol(*self),
    {
        match self {
            PhysicalUnit::Ohms => "Ohm",
            PhysicalUnit::Volts => "V",
            PhysicalUnit::Amperes => "A",
            PhysicalUnit::Farads => "F",
            PhysicalUnit::Henries => "H",
            PhysicalUnit::Hertz => "Hz",
            PhysicalUnit::Seconds => "s",
            PhysicalUnit::Kelvin => "K",
        }
    }
}

impl Decimal {
    /// The decimal's text.
    pub fn text(&self) -> (r: String)
        ensures
            r@ == decimal_repr(self.mantissa as int, self.scale as nat),
    {
        let m = self.mantissa;
        let mag: u128 = if m < 0 {
            ((-(m + 1)) as u128) + 1
        } else {
            m as u128
        };
        let ghost magn: nat = if m < 0 { (-m) as nat } else { m as nat };
        assert(mag == magn);
        let mut d = decimal_text(mag);
        let ghost digits = d@;
        let width: u64 = self.scale as u64 + 1;
        let mut k: u64 = 0;
        let zero = "0";
        proof {
            reveal_strlit("0");
            assert(d@ =~= Seq::new(0, |i: int| '0') + digits);
        }
        while (d.as_str().unicode_len() as u64) < width
            invariant
                zero@ == seq!['0'],
                width == self.scale + 1,
                d@ == Seq::new(k as nat, |i: int| '0') + digits,
                digits.len() + k <= width || k == 0,
                k <= width,
            decreases width - d@.len(),
        {
            let next = concat(zero, d.as_str());
            proof {
                assert(next@ =~= Seq::new((k + 1) as nat, |i: int| '0') + digits);
            }
            d = next;
            k = k + 1;
        }
        proof {
            if digits.len() >= width {
                assert(k == 0);
                assert(d@ =~= digits);
            } else {
                assert(d@ =~= zero_padded(digits, (self.scale + 1) as nat));
            }
            assert(d@ == zero_padded(digits, (self.scale + 1) as nat));
        }
        let n = d.as_str().unicode_len();
        let body = if self.scale == 0 {
            d
        } else {
            let s = self.scale as usize;
            let int_part = d.as_str().substring_char(0, n - s);
            let frac = d.as_str().substring_char(n - s, n);
            let mut t = concat(int_part, ".");
            proof {
                reveal_strlit(".");
            }
            t.append(frac);
            t
        };
        if m < 0 {
            proof {
                reveal_strlit("-");
            }
            concat("-", body.as_str())
        } else {
            proof {
                assert(body@ =~= Seq::<char>::empty() + body@);
            }
            body
        }
    }
}

impl PhysicalValue {
    /// The value's text, then its unit's symbol.
    pub fn text(&self) -> (r: String)
        ensures
            r@ == physical_text(*self),
    {
        let v = self.value.text();
        concat(v.as_str(), self.unit.symbol())
    }
}

} // verus!
