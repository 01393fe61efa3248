//! Decimal rendering of sizes and ages.
//!
//! Sizes are shown in bytes below 1024, otherwise scaled to KB or MB with two
//! fraction digits, rounding half away from zero. Ages are bucketed into
//! seconds, minutes, hours or days.

use vstd::prelude::*;
use vstd::string::*;
use vstd::arithmetic::div_mod::*;

verus! {

pub const KB: u64 = 1024;
pub const MB: u64 = 1024 * 1024;

/// The decimal digit `d` (0 to 9) as a character.
pub open spec fn digit_char(d: nat) -> char {
    if d == 0 {
        '0'
    } else if d == 1 {
        '1'
    } else if d == 2 {
        '2'
    } else if d == 3 {
        '3'
    } else if d == 4 {
        '4'
    } else if d == 5 {
        '5'
    } else if d == 6 {
        '6'
    } else if d == 7 {
        '7'
    } else if d == 8 {
        '8'
    } else {
        '9'
    }
}

/// Decimal rendering of `n`: most significant digit first, no leading zeros.
pub open spec fn dec_str(n: nat) -> Seq<char>
    decreases n,
{
    if n < 10 {
        seq![digit_char(n)]
    } else {
        dec_str(n / 10).push(digit_char(n % 10))
    }
}

fn digit_str(d: u64) -> (r: &'static str)
    requires
        d < 10,
    ensures
        r@ == seq![digit_char(d as nat)],
{
    proof {
        reveal_strlit("0");
        reveal_strlit("1");
        reveal_strlit("2");
        reveal_strlit("3");
        reveal_strlit("4");
        reveal_strlit("5");
        reveal_strlit("6");
        reveal_strlit("7");
        reveal_strlit("8");
        reveal_strlit("9");
    }
    let r: &'static str = if d == 0 {
        "0"
    } else if d == 1 {
        "1"
    } else if d == 2 {
        "2"
    } else if d == 3 {
        "3"
    } else if d == 4 {
        "4"
    } else if d == 5 {
        "5"
    } else if d == 6 {
        "6"
    } else if d == 7 {
        "7"
    } else if d == 8 {
        "8"
    } else {
        "9"
    };
    proof {
        assert(r@ =~= seq![digit_char(d as nat)]);
    }
    r
}

/// Renders `n` in decimal.
pub fn u64_to_dec(n: u64) -> (r: String)
    ensures
        r@ == dec_str(n as nat),
    decreases n,
{
    if n < 10 {
        String::from_str(digit_str(n))
    } else {
        let mut s = u64_to_dec(n / 10);
        s.append(digit_str(n % 10));
        proof {
            assert(s@ =~= dec_str((n / 10) as nat).push(digit_char((n % 10) as nat)));
        }
        s
    }
}

/// `size / unit`, scaled to hundredths and rounded half away from zero.
pub open spec fn scaled_hundredths(size: nat, unit: nat) -> nat {
    (size * 100 + unit / 2) / unit
}

/// "W.FF" where W is the whole part and FF the rounded hundredths.
pub open spec fn scaled_str(size: nat, unit: nat) -> Seq<char> {
    let c = scaled_hundredths(size, unit);
    dec_str(c / 100) + seq!['.', digit_char((c / 10) % 10), digit_char(c % 10)]
}

/// What `format_size` returns: bytes below 1024, otherwise KB below 1024*1024,
/// otherwise MB, the scaled tiers with two fraction digits.
pub open spec fn spec_format_size(size: u64) -> Seq<char> {
    if size >= MB {
        scaled_str(size as nat, MB as nat) + " MB"@
    } else if size >= KB {
        scaled_str(size as nat, KB as nat) + " KB"@
    } else {
        dec_str(size as nat) + " B"@
    }
}

fn format_scaled(size: u64, unit: u64, suffix: &str) -> (r: String)
    requires
        2 <= unit <= MB,
        unit <= size,
    ensures
        r@ == scaled_str(size as nat, unit as nat) + suffix@,
{
    let whole: u64 = size / unit;
    let rem: u64 = size % unit;
    proof {
        lemma_fundamental_div_mod(size as int, unit as int);
        assert(rem < unit);
        assert(whole as int * unit as int + rem as int == size as int);
        // whole fits comfortably below u64::MAX, so whole + 1 cannot overflow
        lemma_div_is_ordered_by_denominator(size as int, 2, unit as int);
        lemma_div_is_ordered(size as int, u64::MAX as int, 2);
        assert(whole <= u64::MAX / 2);
    }
    let cents_part: u64 = (rem * 100 + unit / 2) / unit;
    proof {
        let x = rem as int * 100 + unit as int / 2;
        // cents_part is at most 100
        assert(x < unit as int * 101);
        lemma_multiply_divide_lt(x, unit as int, 101);
        assert(cents_part <= 100);
        // scaled_hundredths(size, unit) == whole * 100 + cents_part
        lemma_hoist_over_denominator(x, whole as int * 100, unit as nat);
        assert(x + (whole as int * 100) * unit as int == size as int * 100 + unit as int / 2)
            by (nonlinear_arith)
            requires
                whole as int * unit as int + rem as int == size as int,
                x == rem as int * 100 + unit as int / 2,
        ;
        assert(scaled_hundredths(size as nat, unit as nat) == whole as int * 100 + cents_part);
    }
    let pair: (u64, u64) = if cents_part == 100 {
        (whole + 1, 0)
    } else {
        (whole, cents_part)
    };
    let w2: u64 = pair.0;
    let cents: u64 = pair.1;
    proof {
        let c = scaled_hundredths(size as nat, unit as nat);
        assert(c == whole * 100 + cents_part);
        lemma_hundred_split(w2 as nat, cents as nat, c);
    }
    let mut s = u64_to_dec(w2);
    s.append(".");
    s.append(digit_str(cents / 10));
    s.append(digit_str(cents % 10));
    s.append(suffix);
    proof {
        reveal_strlit(".");
        assert(s@ =~= scaled_str(size as nat, unit as nat) + suffix@);
    }
    s
}

proof fn lemma_hundred_split(w: nat, f: nat, c: nat)
    requires
        f < 100,
        c == w * 100 + f,
    ensures
        c / 100 == w,
        (c / 10) % 10 == f / 10,
        c % 10 == f % 10,
{
    assert(c / 100 == w && (c / 10) % 10 == f / 10 && c % 10 == f % 10) by (nonlinear_arith)
        requires
            f < 100,
            c == w * 100 + f,
    ;
}

/// Renders a byte count for display, as the detail and list views show it.
pub fn format_size(size: u64) -> (r: String)
    ensures
        r@ == spec_format_size(size),
{
    if size >= MB {
        format_scaled(size, MB, " MB")
    } else if size >= KB {
        format_scaled(size, KB, " KB")
    } else {
        let mut s = u64_to_dec(size);
        s.append(" B");
        s
    }
}

/// What `age_label` returns: the age in seconds bucketed to the coarsest unit
/// below the thresholds of one minute, one hour and one day.
pub open spec fn spec_age_label(secs: u64) -> Seq<char> {
    if secs < 60 {
        dec_str(secs as nat) + " seconds ago"@
    } else if secs < 3600 {
        dec_str((secs / 60) as nat) + " minutes ago"@
    } else if secs < 86400 {
        dec_str((secs / 3600) as nat) + " hours ago"@
    } else {
        dec_str((secs / 86400) as nat) + " days ago"@
    }
}

/// Renders how long ago a package directory was last modified.
pub fn age_label(secs: u64) -> (r: String)
    ensures
        r@ == spec_age_label(secs),
{
    if secs < 60 {
        let mut s = u64_to_dec(secs);
        s.append(" seconds ago");
        s
    } else if secs < 3600 {
        let mut s = u64_to_dec(secs / 60);
        s.append(" minutes ago");
        s
    } else if secs < 86400 {
        let mut s = u64_to_dec(secs / 3600);
        s.append(" hours ago");
        s
    } else {
        let mut s = u64_to_dec(secs / 86400);
        s.append(" days ago");
        s
    }
}

} // verus!
