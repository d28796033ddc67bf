use vstd::prelude::*;
use crate::decimal::{lemma_pow10_pos, pow10, Decimal, MAX_MANTISSA, MAX_NANO_MANTISSA};

verus! {

/// The time units a source format may report, each carrying a fixed
/// power-of-ten conversion factor to nanoseconds.
#[derive(Clone, Copy, Debug, PartialEq, Eq, Structural)]
pub enum Units {
    Nano,
    Micro,
    Milli,
    Sec,
}

impl Units {
    /// Exponent of the exact factor `10^e` that takes this unit to
    /// nanoseconds.
    pub open spec fn nanos_exp(self) -> nat {
        match self {
            Units::Nano => 0,
            Units::Micro => 3,
            Units::Milli => 6,
            Units::Sec => 9,
        }
    }
}

/// The unit tag strings used by the source formats.
pub open spec fn spec_units_from_tag(t: Seq<char>) -> Option<Units> {
    if t == "ns"@ {
        Some(Units::Nano)
    } else if t == "us"@ {
        Some(Units::Micro)
    } else if t == "ms"@ {
        Some(Units::Milli)
    } else if t == "s"@ {
        Some(Units::Sec)
    } else {
        None
    }
}

impl Units {
    /// Maps a source-format tag to its unit; unknown tags are rejected.
    pub fn from_tag(t: &str) -> (r: Option<Units>)
        ensures
            r == spec_units_from_tag(t@),
    {
        proof {
            reveal_strlit("ns");
            reveal_strlit("us");
            reveal_strlit("ms");
            reveal_strlit("s");
        }
        let n: usize = t.unicode_len();
        if n == 2 {
            let c0 = t.get_char(0);
            let c1 = t.get_char(1);
            if c1 == 's' {
                if c0 == 'n' {
                    assert(t@ =~= "ns"@);
                    return Some(Units::Nano);
                }
                if c0 == 'u' {
                    assert(t@ =~= "us"@);
                    return Some(Units::Micro);
                }
                if c0 == 'm' {
                    assert(t@ =~= "ms"@);
                    return Some(Units::Milli);
                }
            }
            return None;
        }
        if n == 1 {
            if t.get_char(0) == 's' {
                assert(t@ =~= "s"@);
                return Some(Units::Sec);
            }
            return None;
        }
        None
    }
}

/// What `time_as_nanos` returns: the scale absorbs the factor where it can,
/// and the mantissa takes the rest; either way the denoted number is the
/// reported value times `10^e`.
pub open spec fn spec_time_as_nanos(time: Decimal, units: Units) -> Decimal {
    let e = units.nanos_exp();
    if time.scale >= e {
        Decimal { mantissa: time.mantissa, scale: (time.scale - e) as u32 }
    } else {
        Decimal {
            mantissa: (time.mantissa * pow10((e - time.scale) as nat)) as i128,
            scale: 0,
        }
    }
}

proof fn lemma_mul_bound(m: int, f: int, mb: int, fb: int)
    by (nonlinear_arith)
    requires
        -mb <= m <= mb,
        0 <= f <= fb,
        0 <= mb,
    ensures
        -(mb * fb) <= m * f <= mb * fb,
{
}

pub proof fn lemma_pow10_adds(a: nat, b: nat)
    ensures
        pow10(a + b) == pow10(a) * pow10(b),
    decreases a,
{
    if a == 0 {
    } else {
        lemma_pow10_adds((a - 1) as nat, b);
        assert(10 * (pow10((a - 1) as nat) * pow10(b)) == (10 * pow10((a - 1) as nat)) * pow10(
            b,
        )) by (nonlinear_arith);
        assert((a + b - 1) as nat == ((a - 1) as nat + b) as nat);
    }
}

fn pow10_i128(e: u32) -> (r: i128)
    requires
        e <= 9,
    ensures
        r == pow10(e as nat),
        1 <= r <= 1000000000,
{
    proof {
        reveal_with_fuel(pow10, 11);
    }
    if e == 0 {
        1
    } else if e == 1 {
        10
    } else if e == 2 {
        100
    } else if e == 3 {
        1000
    } else if e == 4 {
        10000
    } else if e == 5 {
        100000
    } else if e == 6 {
        1000000
    } else if e == 7 {
        10000000
    } else if e == 8 {
        100000000
    } else {
        1000000000
    }
}

/// Converts a value tagged with its source unit into nanoseconds, exactly.
/// Shared by every format parser: supporting a further unit means one more
/// variant and factor, and no parser change.
pub fn time_as_nanos(time: Decimal, units: Units) -> (r: Decimal)
    requires
        time.compact(),
    ensures
        r == spec_time_as_nanos(time, units),
        r.wf(),
{
    let e: u32 = match units {
        Units::Nano => 0,
        Units::Micro => 3,
        Units::Milli => 6,
        Units::Sec => 9,
    };
    assert(e as nat == units.nanos_exp());
    if time.scale >= e {
        Decimal { mantissa: time.mantissa, scale: time.scale - e }
    } else {
        let f: i128 = pow10_i128(e - time.scale);
        proof {
            lemma_mul_bound(time.mantissa as int, f as int, MAX_MANTISSA as int, 1000000000int);
            assert(MAX_MANTISSA * 1000000000 == MAX_NANO_MANTISSA);
        }
        Decimal { mantissa: time.mantissa * f, scale: 0 }
    }
}

/// Round-trip unit conversion: for every unit and every reported decimal,
/// the converted record denotes exactly the reported value multiplied by the
/// unit's fixed factor `10^e`, and converting a value already in
/// nanoseconds changes nothing at all.
pub proof fn lemma_unit_conversion_exact(time: Decimal, units: Units)
    requires
        time.compact(),
    ensures
        spec_time_as_nanos(time, units).mantissa * pow10(time.scale as nat) == (time.mantissa
            * pow10(units.nanos_exp())) * pow10(spec_time_as_nanos(time, units).scale as nat),
        spec_time_as_nanos(time, units).same_value(
            Decimal {
                mantissa: (time.mantissa * pow10(units.nanos_exp())) as i128,
                scale: time.scale,
            },
        ),
        spec_time_as_nanos(time, Units::Nano) == time,
{
    let e = units.nanos_exp();
    let r = spec_time_as_nanos(time, units);
    assert(pow10(e) <= 1000000000) by {
        reveal_with_fuel(pow10, 11);
    }
    lemma_pow10_pos(e);
    lemma_mul_bound(time.mantissa as int, pow10(e), MAX_MANTISSA as int, 1000000000int);
    assert(MAX_MANTISSA * 1000000000 == MAX_NANO_MANTISSA);
    if time.scale >= e {
        lemma_pow10_adds(e, (time.scale - e) as nat);
        assert(time.mantissa * (pow10(e) * pow10((time.scale - e) as nat)) == (time.mantissa
            * pow10(e)) * pow10((time.scale - e) as nat)) by (nonlinear_arith);
    } else {
        let d = (e - time.scale) as nat;
        lemma_pow10_pos(d);
        assert(pow10(d) <= 1000000000) by {
            reveal_with_fuel(pow10, 11);
        }
        lemma_mul_bound(time.mantissa as int, pow10(d), MAX_MANTISSA as int, 1000000000int);
        assert(MAX_MANTISSA * 1000000000 == MAX_NANO_MANTISSA);
        assert(r.mantissa == time.mantissa * pow10(d));
        lemma_pow10_adds(d, time.scale as nat);
        assert((time.mantissa * pow10(d)) * pow10(time.scale as nat) == time.mantissa * (pow10(d)
            * pow10(time.scale as nat))) by (nonlinear_arith);
        assert(time.mantissa * pow10((d + time.scale) as nat) == (time.mantissa * pow10(e)) * 1);
    }
}

} // verus!
