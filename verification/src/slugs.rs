use vstd::prelude::*;
use crate::decimal::{all_digits, digit_val, digits_val};

verus! {

/// The ascii slug of a text, a function of the characters alone.
pub uninterp spec fn slug_of(s: Seq<char>) -> Seq<char>;

/// Relies on slug::slugify: lowers and transliterates the text into a
/// dash-separated ascii slug.
#[verifier::external_body]
fn slugify(s: &str) -> (r: String)
    ensures
        r@ == slug_of(s@),
{
    slug::slugify(s)
}

fn digit_str(d: u32) -> (r: &'static str)
    requires
        d <= 9,
    ensures
        r@.len() == 1,
        r@[0] as int == 48 + d,
{
    proof {
        reveal_strlit("0");
        reveal_strlit("1");
        reveal_strlit("2");
        reveal_strlit("3");
        reveal_strlit("4");
        reveal_strlit("5");
        reveal_strlit("6");
        reveal_strlit("7");
        reveal_strlit("8");
        reveal_strlit("9");
    }
    if d == 0 {
        "0"
    } else if d == 1 {
        "1"
    } else if d == 2 {
        "2"
    } else if d == 3 {
        "3"
    } else if d == 4 {
        "4"
    } else if d == 5 {
        "5"
    } else if d == 6 {
        "6"
    } else if d == 7 {
        "7"
    } else if d == 8 {
        "8"
    } else {
        "9"
    }
}

/// The decimal digits of the value, without a sign and without leading
/// zeros.
fn u32_to_string(n: u32) -> (r: String)
    ensures
        all_digits(r@),
        digits_val(r@) == n,
        r@.len() >= 1,
        r@.len() > 1 ==> r@[0] != '0',
    decreases n,
{
    if n < 10 {
        let r = String::from_str(digit_str(n));
        proof {
            assert(digits_val(Seq::<char>::empty()) == 0);
            assert(r@.drop_last() =~= Seq::<char>::empty());
        }
        r
    } else {
        let mut r = u32_to_string(n / 10);
        let ghost prefix: Seq<char> = r@;
        r.append(digit_str(n % 10));
        proof {
            assert(r@.drop_last() =~= prefix);
            assert(digits_val(r@) == digits_val(prefix) * 10 + (n % 10));
            assert(n as int == (n as int / 10) * 10 + (n as int % 10)) by (nonlinear_arith);
            if prefix.len() == 1 {
                assert(digits_val(Seq::<char>::empty()) == 0);
                assert(prefix.drop_last() =~= Seq::<char>::empty());
                assert(prefix.last() == prefix[0]);
                assert(digits_val(prefix) == digit_val(prefix[0]));
            }
            assert(r@[0] == prefix[0]);
        }
        r
    }
}

/// Chooses the slug for a new row: an explicitly provided slug wins, and
/// otherwise the display name is slugified.
pub fn base_slug(name: &str, provided: Option<String>) -> (r: String)
    ensures
        r@ == match provided {
            Some(s) => s@,
            None => slug_of(name@),
        },
{
    match provided {
        Some(s) => s,
        None => slugify(name),
    }
}

/// Resolves a collision: when the chosen slug is already taken, a numeric
/// suffix is appended after a dash; otherwise the slug stands as chosen.
pub fn finalize_slug(base: String, taken: bool, suffix: u32) -> (r: String)
    ensures
        !taken ==> r@ == base@,
        taken ==> exists|d: Seq<char>|
            #![auto]
            all_digits(d) && digits_val(d) == suffix && d.len() >= 1 && (d.len() > 1 ==> d[0]
                != '0') && r@ == base@ + seq!['-'] + d,
{
    if taken {
        let ghost gb: Seq<char> = base@;
        let suffix_text = u32_to_string(suffix);
        let r = base.concat("-").concat(suffix_text.as_str());
        proof {
            reveal_strlit("-");
            assert(gb + "-"@ + suffix_text@ =~= gb + seq!['-'] + suffix_text@);
        }
        r
    } else {
        base
    }
}

} // verus!
