use vstd::prelude::*;

verus! {

/// Largest mantissa magnitude a parsed value may carry: `2^96 - 1`, the
/// classic 96-bit decimal mantissa domain.
pub const MAX_MANTISSA: i128 = 79228162514264337593543950335;

/// Largest admitted scale (number of decimal fraction digits).
pub const MAX_SCALE: u32 = 28;

/// Largest mantissa magnitude after a unit conversion: `(2^96 - 1) * 10^9`.
pub const MAX_NANO_MANTISSA: i128 = 79228162514264337593543950335000000000;

/// Saturation point for exponent accumulation, far beyond any exponent that
/// could still denote a representable value.
const EXP_SAT: u128 = 1000000000000000000000000000000;

/// An exact decimal number `mantissa / 10^scale`. Measurements are parsed
/// and converted in this representation so that no binary floating-point
/// rounding can creep into stored results.
#[derive(Clone, Copy, Debug, PartialEq, Eq, Structural)]
pub struct Decimal {
    pub mantissa: i128,
    pub scale: u32,
}

/// `10^e`.
pub open spec fn pow10(e: nat) -> int
    decreases e,
{
    if e == 0 {
        1
    } else {
        10 * pow10((e - 1) as nat)
    }
}

pub proof fn lemma_pow10_pos(e: nat)
    ensures
        pow10(e) >= 1,
    decreases e,
{
    if e > 0 {
        lemma_pow10_pos((e - 1) as nat);
    }
}

pub proof fn lemma_pow10_mono(a: nat, b: nat)
    requires
        a <= b,
    ensures
        pow10(a) <= pow10(b),
    decreases b,
{
    if a < b {
        lemma_pow10_mono(a, (b - 1) as nat);
        lemma_pow10_pos((b - 1) as nat);
    }
}

impl Decimal {
    /// Every value the library produces satisfies this: the scale is bounded
    /// and the mantissa has room in an `i128` even after a conversion.
    pub open spec fn wf(self) -> bool {
        &&& self.scale <= MAX_SCALE
        &&& -MAX_NANO_MANTISSA <= self.mantissa <= MAX_NANO_MANTISSA
    }

    /// A freshly parsed value: the mantissa fits in 96 bits, so a later
    /// multiplication by up to `10^9` stays exact.
    pub open spec fn compact(self) -> bool {
        &&& self.scale <= MAX_SCALE
        &&& -MAX_MANTISSA <= self.mantissa <= MAX_MANTISSA
    }

    /// Two decimals denote the same number: `a/10^s == b/10^t` compared by
    /// cross-multiplication.
    pub open spec fn same_value(self, other: Decimal) -> bool {
        self.mantissa * pow10(other.scale as nat) == other.mantissa * pow10(self.scale as nat)
    }

    /// `self <= other` as numbers.
    pub open spec fn le_value(self, other: Decimal) -> bool {
        self.mantissa * pow10(other.scale as nat) <= other.mantissa * pow10(self.scale as nat)
    }
}

pub open spec fn is_digit(c: char) -> bool {
    48 <= c as int && c as int <= 57
}

pub open spec fn digit_val(c: char) -> int {
    c as int - 48
}

/// The integer denoted by a run of decimal digit characters.
pub open spec fn digits_val(s: Seq<char>) -> int
    decreases s.len(),
{
    if s.len() == 0 {
        0
    } else {
        digits_val(s.drop_last()) * 10 + digit_val(s.last())
    }
}

pub open spec fn all_digits(s: Seq<char>) -> bool {
    forall|k: int| 0 <= k < s.len() ==> is_digit(#[trigger] s[k])
}

/// The first position at or after `i` that does not hold a digit.
pub open spec fn digits_end(s: Seq<char>, i: int) -> int
    decreases s.len() - i when 0 <= i <= s.len()
{
    if i >= s.len() || !is_digit(s[i]) {
        i
    } else {
        digits_end(s, i + 1)
    }
}

pub proof fn lemma_digits_end_bounds(s: Seq<char>, i: int)
    requires
        0 <= i <= s.len(),
    ensures
        i <= digits_end(s, i) <= s.len(),
    decreases s.len() - i,
{
    if i < s.len() && is_digit(s[i]) {
        lemma_digits_end_bounds(s, i + 1);
    }
}

pub proof fn lemma_digits_end_region(s: Seq<char>, i: int)
    requires
        0 <= i <= s.len(),
    ensures
        forall|k: int| i <= k < digits_end(s, i) ==> is_digit(#[trigger] s[k]),
    decreases s.len() - i,
{
    if i < s.len() && is_digit(s[i]) {
        lemma_digits_end_region(s, i + 1);
    }
}

pub proof fn lemma_digits_val_nonneg(s: Seq<char>)
    requires
        all_digits(s),
    ensures
        digits_val(s) >= 0,
    decreases s.len(),
{
    if s.len() > 0 {
        assert(all_digits(s.drop_last()));
        lemma_digits_val_nonneg(s.drop_last());
    }
}

/// Appending digits never shrinks the denoted integer.
pub proof fn lemma_digits_val_take_le(s: Seq<char>, n: int)
    requires
        all_digits(s),
        0 <= n <= s.len(),
    ensures
        digits_val(s.take(n)) <= digits_val(s),
    decreases s.len(),
{
    if n == s.len() {
        assert(s.take(n) =~= s);
    } else {
        assert(all_digits(s.drop_last()));
        assert(s.drop_last().take(n) =~= s.take(n));
        lemma_digits_val_take_le(s.drop_last(), n);
        lemma_digits_val_nonneg(s.drop_last());
        assert(digits_val(s) == digits_val(s.drop_last()) * 10 + digit_val(s.last()));
        assert(digits_val(s.drop_last()) * 10 >= digits_val(s.drop_last())) by (nonlinear_arith)
            requires digits_val(s.drop_last()) >= 0;
    }
}

pub open spec fn make_decimal(neg: bool, m: int, sc: int) -> Decimal {
    Decimal { mantissa: (if neg { -m } else { m }) as i128, scale: sc as u32 }
}

/// What remains of a literal after its mantissa digits: either its end, or
/// an exponent of at least one digit with an optional sign. `m0` is the
/// integer the mantissa digits denote and `scale0` the fraction length; the
/// exponent moves the scale, multiplying into the mantissa where the scale
/// cannot absorb it. The value must fit the 96-bit mantissa domain and the
/// bounded scale.
pub open spec fn spec_parse_tail(
    s: Seq<char>,
    pos: int,
    neg: bool,
    m0: int,
    scale0: int,
) -> Option<Decimal> {
    if pos == s.len() {
        if m0 <= MAX_MANTISSA && scale0 <= MAX_SCALE {
            Some(make_decimal(neg, m0, scale0))
        } else {
            None
        }
    } else if s[pos] == 'e' || s[pos] == 'E' {
        let eneg = pos + 1 < s.len() && s[pos + 1] == '-';
        let estart: int = if pos + 1 < s.len() && (s[pos + 1] == '-' || s[pos + 1] == '+') {
            pos + 2
        } else {
            pos + 1
        };
        let i3 = digits_end(s, estart);
        if i3 == estart || i3 != s.len() {
            None
        } else {
            let ev = digits_val(s.subrange(estart, i3));
            if eneg {
                if m0 <= MAX_MANTISSA && scale0 + ev <= MAX_SCALE {
                    Some(make_decimal(neg, m0, scale0 + ev))
                } else {
                    None
                }
            } else if ev <= scale0 {
                if m0 <= MAX_MANTISSA && scale0 - ev <= MAX_SCALE {
                    Some(make_decimal(neg, m0, scale0 - ev))
                } else {
                    None
                }
            } else {
                let m = m0 * pow10((ev - scale0) as nat);
                if m <= MAX_MANTISSA {
                    Some(make_decimal(neg, m, 0))
                } else {
                    None
                }
            }
        }
    } else {
        None
    }
}

/// What `parse` accepts and denotes: an optional sign, at least one integer
/// digit, an optional fraction of at least one digit, and an optional
/// exponent.
pub open spec fn spec_parse_decimal(s: Seq<char>) -> Option<Decimal> {
    let neg = s.len() > 0 && s[0] == '-';
    let i0: int = if neg { 1int } else { 0int };
    let i1 = digits_end(s, i0);
    if i1 == i0 {
        None
    } else if i1 < s.len() && s[i1] == '.' {
        let i2 = digits_end(s, i1 + 1);
        if i2 == i1 + 1 {
            None
        } else {
            spec_parse_tail(
                s,
                i2,
                neg,
                digits_val(s.subrange(i0, i1) + s.subrange(i1 + 1, i2)),
                i2 - (i1 + 1),
            )
        }
    } else {
        spec_parse_tail(s, i1, neg, digits_val(s.subrange(i0, i1)), 0)
    }
}

/// A mantissa beyond the 96-bit domain denotes no representable value,
/// whatever tail follows it.
proof fn lemma_tail_none_big_m0(s: Seq<char>, pos: int, neg: bool, m0: int, scale0: int)
    requires
        m0 > MAX_MANTISSA,
        0 <= pos <= s.len(),
    ensures
        spec_parse_tail(s, pos, neg, m0, scale0) is None,
{
    if pos < s.len() && (s[pos] == 'e' || s[pos] == 'E') {
        let estart: int = if pos + 1 < s.len() && (s[pos + 1] == '-' || s[pos + 1] == '+') {
            pos + 2
        } else {
            pos + 1
        };
        let i3 = digits_end(s, estart);
        if estart <= s.len() {
            lemma_digits_end_bounds(s, estart);
        }
        if i3 != estart && i3 == s.len() {
            let ev = digits_val(s.subrange(estart, i3));
            if !(pos + 1 < s.len() && s[pos + 1] == '-') && ev > scale0 {
                lemma_pow10_pos((ev - scale0) as nat);
                assert(m0 * pow10((ev - scale0) as nat) >= m0) by (nonlinear_arith)
                    requires m0 >= 0, pow10((ev - scale0) as nat) >= 1;
            }
        }
    }
}

fn is_digit_char(c: char) -> (r: bool)
    ensures
        r == is_digit(c),
{
    let cv: u32 = c as u32;
    48 <= cv && cv <= 57
}

fn pow10_i128_small(e: u32) -> (r: i128)
    requires
        e <= 28,
    ensures
        r == pow10(e as nat),
        1 <= r,
{
    let mut r: i128 = 1;
    let mut i: u32 = 0;
    while i < e
        invariant
            i <= e,
            e <= 28,
            r == pow10(i as nat),
            1 <= r,
        decreases e - i,
    {
        proof {
            lemma_pow10_mono(i as nat, 27);
            assert(pow10(27) == 1000000000000000000000000000) by {
                reveal_with_fuel(pow10, 30);
            }
        }
        r = r * 10;
        i = i + 1;
    }
    r
}

impl Decimal {
    /// Parses a decimal literal exactly, never routing the text through a
    /// binary float. Returns `None` when the text is not a signed decimal
    /// literal with optional fraction and exponent, or when its value does
    /// not fit the mantissa domain.
    #[verifier::rlimit(60)]
    pub fn parse(s: &str) -> (r: Option<Decimal>)
        ensures
            r == spec_parse_decimal(s@),
            r matches Some(d) ==> d.compact(),
    {
        let ghost gs: Seq<char> = s@;
        let len: usize = s.unicode_len();
        let neg: bool = len > 0 && s.get_char(0) == '-';
        let i0: usize = if neg { 1 } else { 0 };

        // integer digits
        let mut j: usize = i0;
        let mut m: i128 = 0;
        while j < len && is_digit_char(s.get_char(j))
            invariant
                s@ == gs,
                len == gs.len(),
                i0 <= j <= len,
                neg == (gs.len() > 0 && gs[0] == '-'),
                i0 == (if neg { 1int } else { 0int }),
                0 <= m <= MAX_MANTISSA,
                m == digits_val(gs.subrange(i0 as int, j as int)),
                digits_end(gs, i0 as int) == digits_end(gs, j as int),
                forall|k: int| i0 <= k < j ==> is_digit(#[trigger] gs[k]),
            decreases len - j,
        {
            let c = s.get_char(j);
            let d: i128 = ((c as u32) - 48) as i128;
            proof {
                assert(digits_end(gs, j as int) == digits_end(gs, j + 1));
                assert(gs.subrange(i0 as int, j + 1).drop_last() =~= gs.subrange(
                    i0 as int,
                    j as int,
                ));
            }
            let m2: i128 = m * 10 + d;
            assert(m2 == digits_val(gs.subrange(i0 as int, j + 1)));
            if m2 > MAX_MANTISSA {
                proof {
                    lemma_digits_end_bounds(gs, j + 1);
                    parse_overflow_is_none(gs, i0 as int, j + 1);
                }
                return None;
            }
            m = m2;
            j = j + 1;
        }
        assert(digits_end(gs, i0 as int) == j as int);
        if j == i0 {
            return None;
        }
        let ghost gi1: int = j as int;

        // optional fraction digits
        let mut pos: usize = j;
        let mut scale0: usize = 0;
        let ghost mut md: Seq<char> = gs.subrange(i0 as int, gi1);
        if j < len && s.get_char(j) == '.' {
            let fstart: usize = j + 1;
            let mut j2: usize = fstart;
            while j2 < len && is_digit_char(s.get_char(j2))
                invariant
                    s@ == gs,
                    len == gs.len(),
                    i0 < gi1 < len,
                    fstart == gi1 + 1,
                    fstart <= j2 <= len,
                    neg == (gs.len() > 0 && gs[0] == '-'),
                    i0 == (if neg { 1int } else { 0int }),
                    gi1 == digits_end(gs, i0 as int),
                    gs[gi1] == '.',
                    0 <= m <= MAX_MANTISSA,
                    m == digits_val(
                        gs.subrange(i0 as int, gi1) + gs.subrange(fstart as int, j2 as int),
                    ),
                    digits_end(gs, fstart as int) == digits_end(gs, j2 as int),
                    forall|k: int| i0 <= k < gi1 ==> is_digit(#[trigger] gs[k]),
                    forall|k: int| fstart <= k < j2 ==> is_digit(#[trigger] gs[k]),
                decreases len - j2,
            {
                let c2 = s.get_char(j2);
                let d: i128 = ((c2 as u32) - 48) as i128;
                proof {
                    assert(digits_end(gs, j2 as int) == digits_end(gs, j2 + 1));
                    assert((gs.subrange(i0 as int, gi1) + gs.subrange(fstart as int, j2 + 1))
                        .drop_last() =~= gs.subrange(i0 as int, gi1) + gs.subrange(
                        fstart as int,
                        j2 as int,
                    ));
                }
                let m2: i128 = m * 10 + d;
                assert(m2 == digits_val(
                    gs.subrange(i0 as int, gi1) + gs.subrange(fstart as int, j2 + 1),
                ));
                if m2 > MAX_MANTISSA {
                    proof {
                        lemma_digits_end_bounds(gs, j2 + 1);
                        parse_frac_overflow_is_none(gs, i0 as int, gi1, j2 + 1);
                    }
                    return None;
                }
                m = m2;
                j2 = j2 + 1;
            }
            assert(digits_end(gs, fstart as int) == j2 as int);
            if j2 == fstart {
                return None;
            }
            pos = j2;
            scale0 = j2 - fstart;
            proof {
                md = gs.subrange(i0 as int, gi1) + gs.subrange(fstart as int, j2 as int);
            }
        }
        assert(m == digits_val(md));
        assert(spec_parse_decimal(gs) == spec_parse_tail(gs, pos as int, neg, m as int, scale0 as int));

        // end of literal, or an exponent
        if pos == len {
            if scale0 > 28 {
                return None;
            }
            let mantissa: i128 = if neg { -m } else { m };
            return Some(Decimal { mantissa, scale: scale0 as u32 });
        }
        let ce = s.get_char(pos);
        if !(ce == 'e' || ce == 'E') {
            return None;
        }
        let mut eneg = false;
        let mut estart: usize = pos + 1;
        if estart < len {
            let cs = s.get_char(estart);
            if cs == '-' {
                eneg = true;
                estart = estart + 1;
            } else if cs == '+' {
                estart = estart + 1;
            }
        }
        let ghost gestart: int = estart as int;
        let mut j3: usize = estart;
        let mut eacc: u128 = 0;
        while j3 < len && is_digit_char(s.get_char(j3))
            invariant
                s@ == gs,
                len == gs.len(),
                gestart == estart as int,
                estart <= j3 <= len,
                digits_end(gs, gestart) == digits_end(gs, j3 as int),
                forall|k: int| gestart <= k < j3 ==> is_digit(#[trigger] gs[k]),
                digits_val(gs.subrange(gestart, j3 as int)) >= 0,
                digits_val(gs.subrange(gestart, j3 as int)) <= EXP_SAT ==> eacc == digits_val(
                    gs.subrange(gestart, j3 as int),
                ),
                digits_val(gs.subrange(gestart, j3 as int)) > EXP_SAT ==> eacc == EXP_SAT,
                eacc <= EXP_SAT,
            decreases len - j3,
        {
            let c3 = s.get_char(j3);
            let d: u128 = ((c3 as u32) - 48) as u128;
            proof {
                assert(digits_end(gs, j3 as int) == digits_end(gs, j3 + 1));
                assert(gs.subrange(gestart, j3 + 1).drop_last() =~= gs.subrange(
                    gestart,
                    j3 as int,
                ));
            }
            let t: u128 = eacc * 10 + d;
            eacc = if t > EXP_SAT {
                EXP_SAT
            } else {
                t
            };
            j3 = j3 + 1;
        }
        assert(digits_end(gs, gestart) == j3 as int);
        if j3 == estart {
            return None;
        }
        if j3 != len {
            return None;
        }
        let ghost ev: int = digits_val(gs.subrange(gestart, j3 as int));
        assert((scale0 as u128) < EXP_SAT);
        if eneg {
            let total: u128 = scale0 as u128 + eacc;
            if total > 28 {
                return None;
            }
            assert(eacc == ev && scale0 + ev == total);
            let mantissa: i128 = if neg { -m } else { m };
            return Some(Decimal { mantissa, scale: total as u32 });
        }
        if eacc <= scale0 as u128 {
            assert(eacc == ev);
            let nsc: u128 = scale0 as u128 - eacc;
            if nsc > 28 {
                return None;
            }
            let mantissa: i128 = if neg { -m } else { m };
            return Some(Decimal { mantissa, scale: nsc as u32 });
        }
        assert(ev > scale0);
        if m == 0 {
            assert(0int * pow10((ev - scale0) as nat) == 0) by (nonlinear_arith);
            return Some(Decimal { mantissa: 0, scale: 0 });
        }
        let k128: u128 = eacc - scale0 as u128;
        if k128 > 28 {
            proof {
                assert(ev - scale0 > 28);
                let kr = (ev - scale0) as nat;
                lemma_pow10_mono(29, kr);
                assert(pow10(29) == 100000000000000000000000000000) by {
                    reveal_with_fuel(pow10, 31);
                }
                assert(m as int * pow10(kr) >= pow10(kr)) by (nonlinear_arith)
                    requires m as int >= 1, pow10(kr) >= 0;
            }
            return None;
        }
        let k: u32 = k128 as u32;
        assert(eacc == ev && k == ev - scale0);
        let f: i128 = pow10_i128_small(k);
        match m.checked_mul(f) {
            None => {
                proof {
                    assert(m as int * f as int >= 0) by (nonlinear_arith)
                        requires m as int >= 0, f as int >= 1;
                }
                return None;
            },
            Some(v) => {
                if v > MAX_MANTISSA {
                    return None;
                }
                let mantissa: i128 = if neg { -v } else { v };
                return Some(Decimal { mantissa, scale: 0 });
            },
        }
    }
}

/// When the integer digits alone already exceed the mantissa domain, the
/// whole literal is rejected.
proof fn parse_overflow_is_none(s: Seq<char>, i0: int, jx: int)
    requires
        0 <= i0 <= jx <= s.len(),
        i0 == (if s.len() > 0 && s[0] == '-' { 1int } else { 0int }),
        forall|k: int| i0 <= k < jx ==> is_digit(#[trigger] s[k]),
        digits_val(s.subrange(i0, jx)) > MAX_MANTISSA,
        jx <= digits_end(s, i0),
    ensures
        spec_parse_decimal(s) is None,
{
    let neg = s.len() > 0 && s[0] == '-';
    let i1 = digits_end(s, i0);
    lemma_digits_end_bounds(s, i0);
    lemma_digits_end_region(s, i0);
    if i1 == i0 {
    } else if i1 < s.len() && s[i1] == '.' {
        let i2 = digits_end(s, i1 + 1);
        lemma_digits_end_bounds(s, i1 + 1);
        lemma_digits_end_region(s, i1 + 1);
        if i2 == i1 + 1 {
        } else {
            let md = s.subrange(i0, i1) + s.subrange(i1 + 1, i2);
            assert(all_digits(md));
            assert(md.take(jx - i0) =~= s.subrange(i0, jx));
            lemma_digits_val_take_le(md, jx - i0);
            lemma_tail_none_big_m0(s, i2, neg, digits_val(md), i2 - (i1 + 1));
        }
    } else {
        let whole = s.subrange(i0, i1);
        assert(all_digits(whole));
        assert(whole.take(jx - i0) =~= s.subrange(i0, jx));
        lemma_digits_val_take_le(whole, jx - i0);
        lemma_tail_none_big_m0(s, i1, neg, digits_val(whole), 0);
    }
}

/// Likewise when the combined integer and fraction digits exceed it.
proof fn parse_frac_overflow_is_none(s: Seq<char>, i0: int, i1: int, jx: int)
    requires
        0 <= i0 < i1 < s.len(),
        i1 + 1 <= jx <= s.len(),
        i0 == (if s.len() > 0 && s[0] == '-' { 1int } else { 0int }),
        i1 == digits_end(s, i0),
        s[i1] == '.',
        forall|k: int| i0 <= k < i1 ==> is_digit(#[trigger] s[k]),
        forall|k: int| i1 + 1 <= k < jx ==> is_digit(#[trigger] s[k]),
        digits_val(s.subrange(i0, i1) + s.subrange(i1 + 1, jx)) > MAX_MANTISSA,
        jx <= digits_end(s, i1 + 1),
    ensures
        spec_parse_decimal(s) is None,
{
    let neg = s.len() > 0 && s[0] == '-';
    let i2 = digits_end(s, i1 + 1);
    lemma_digits_end_bounds(s, i1 + 1);
    lemma_digits_end_region(s, i1 + 1);
    if i2 == i1 + 1 {
    } else {
        let md = s.subrange(i0, i1) + s.subrange(i1 + 1, i2);
        assert(all_digits(md));
        assert(md.take(jx - i0 - 1) =~= s.subrange(i0, i1) + s.subrange(i1 + 1, jx));
        lemma_digits_val_take_le(md, jx - i0 - 1);
        lemma_tail_none_big_m0(s, i2, neg, digits_val(md), i2 - (i1 + 1));
    }
}

} // verus!
