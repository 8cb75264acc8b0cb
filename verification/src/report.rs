//! Progress figures sampled once per tick by the reporter loop.
//!
//! Rendering (the overwritten terminal line) is a presentation detail left
//! to the unverified shell; the numbers it prints are computed here.

use vstd::prelude::*;

verus! {

/// Elapsed seconds, floored to one so that rates are defined from the
/// first tick on.
pub open spec fn at_least_one(secs: u64) -> u64 {
    if secs == 0 {
        1
    } else {
        secs
    }
}

/// The decimal character for one digit.
pub open spec fn dec_digit(d: int) -> char
    recommends
        0 <= d < 10,
{
    ((d + 0x30) as u8) as char
}

/// Decimal rendering of a non-negative number, most significant digit
/// first.
pub open spec fn dec_digits(n: int) -> Seq<char>
    recommends
        n >= 0,
    decreases n,
{
    if n < 10 {
        seq![dec_digit(n)]
    } else {
        dec_digits(n / 10).push(dec_digit(n % 10))
    }
}

fn digit_str(d: u16) -> (r: &'static str)
    requires
        d < 10,
    ensures
        r@ == seq![dec_digit(d as int)],
{
    let r = if d == 0 {
        "0"
    } else if d == 1 {
        "1"
    } else if d == 2 {
        "2"
    } else if d == 3 {
        "3"
    } else if d == 4 {
        "4"
    } else if d == 5 {
        "5"
    } else if d == 6 {
        "6"
    } else if d == 7 {
        "7"
    } else if d == 8 {
        "8"
    } else {
        "9"
    };
    proof {
        reveal_strlit("0");
        reveal_strlit("1");
        reveal_strlit("2");
        reveal_strlit("3");
        reveal_strlit("4");
        reveal_strlit("5");
        reveal_strlit("6");
        reveal_strlit("7");
        reveal_strlit("8");
        reveal_strlit("9");
        assert(r@ =~= seq![dec_digit(d as int)]);
    }
    r
}

/// A status code (or any other small number) in decimal.
pub fn dec_str(n: u16) -> (r: String)
    ensures
        r@ == dec_digits(n as int),
    decreases n,
{
    if n < 10 {
        digit_str(n).to_owned()
    } else {
        let mut s = dec_str(n / 10);
        s.append(digit_str(n % 10));
        proof {
            assert(s@ =~= dec_digits(n as int));
        }
        s
    }
}

/// One sample of the shared counters, ready to print.
pub struct Progress {
    pub percent: u64,
    pub completed: u64,
    pub total: u64,
    pub items_per_sec: u64,
    pub kib_per_sec: u64,
}

/// `completed * 100 / total`, exact in integer arithmetic.
pub fn percent(completed: u64, total: u64) -> (r: u64)
    requires
        completed <= total,
        0 < total,
    ensures
        r == completed * 100 / (total as int),
        r <= 100,
{
    let wide = (completed as u128) * 100 / (total as u128);
    proof {
        assert(completed * 100 / (total as int) <= 100) by (nonlinear_arith)
            requires
                completed <= total,
                0 < total,
        ;
    }
    wide as u64
}

/// Items per second: completed count over elapsed seconds (at least one).
pub fn rate(count: u64, secs: u64) -> (r: u64)
    ensures
        r == count / at_least_one(secs),
{
    if secs == 0 {
        count
    } else {
        count / secs
    }
}

/// KiB per second: bytes over elapsed seconds (at least one), over 1024.
pub fn kib_rate(bytes: u64, secs: u64) -> (r: u64)
    ensures
        r == bytes / at_least_one(secs) / 1024,
{
    rate(bytes, secs) / 1024
}

/// Sample the counters for one status line.
pub fn snapshot(completed: u64, total: u64, bytes: u64, secs: u64) -> (p: Progress)
    requires
        completed <= total,
        0 < total,
    ensures
        p.percent == completed * 100 / (total as int),
        p.completed == completed,
        p.total == total,
        p.items_per_sec == completed / at_least_one(secs),
        p.kib_per_sec == bytes / at_least_one(secs) / 1024,
{
    Progress {
        percent: percent(completed, total),
        completed,
        total,
        items_per_sec: rate(completed, secs),
        kib_per_sec: kib_rate(bytes, secs),
    }
}

} // verus!
