//! The sums that a duration text asks for.
//!
//! A duration text is a list of numbers, each with a unit. `humantime` adds the
//! numbers up one after the other, for each the whole part and then the fraction. It
//! refuses a sum that is too large, but for one: a sum that comes to exactly the
//! first number of seconds past the greatest is not refused, and cannot be formed.

use crate::folds::least;
use crate::text::{chars_of, digit, is_digit, str_eq, whitespace};
use vstd::prelude::*;

verus! {

/// The sum that cannot be formed, in nanoseconds: 2^64 seconds.
pub const PAST_SECONDS: u128 = 18_446_744_073_709_551_616_000_000_000;

/// A number that is too large to be read, as is any above it.
pub const PAST_NUMBERS: u128 = 18_446_744_073_709_551_616;

/// The nanoseconds of a unit; none for what is no unit.
pub open spec fn unit_nanos(w: Seq<char>) -> nat {
    if w == "nanos"@ || w == "nsec"@ || w == "ns"@ {
        1
    } else if w == "usec"@ || w == "us"@ || w == "µs"@ {
        1_000
    } else if w == "millis"@ || w == "msec"@ || w == "ms"@ {
        1_000_000
    } else if w == "seconds"@ || w == "second"@ || w == "secs"@ || w == "sec"@ || w == "s"@ {
        1_000_000_000
    } else if w == "minutes"@ || w == "minute"@ || w == "min"@ || w == "mins"@ || w == "m"@ {
        60_000_000_000
    } else if w == "hours"@ || w == "hour"@ || w == "hr"@ || w == "hrs"@ || w == "h"@ {
        3_600_000_000_000
    } else if w == "days"@ || w == "day"@ || w == "d"@ {
        86_400_000_000_000
    } else if w == "weeks"@ || w == "week"@ || w == "wk"@ || w == "wks"@ || w == "w"@ {
        604_800_000_000_000
    } else if w == "months"@ || w == "month"@ || w == "M"@ {
        2_630_016_000_000_000
    } else if w == "years"@ || w == "year"@ || w == "yr"@ || w == "yrs"@ || w == "y"@ {
        31_557_600_000_000_000
    } else {
        0
    }
}

/// The nanoseconds of a unit.
fn nanos_of(w: &str) -> (r: u128)
    ensures
        r == unit_nanos(w@),
        r <= 31_557_600_000_000_000,
{
    if str_eq(w, "nanos") || str_eq(w, "nsec") || str_eq(w, "ns") {
        1
    } else if str_eq(w, "usec") || str_eq(w, "us") || str_eq(w, "µs") {
        1_000
    } else if str_eq(w, "millis") || str_eq(w, "msec") || str_eq(w, "ms") {
        1_000_000
    } else if str_eq(w, "seconds") || str_eq(w, "second") || str_eq(w, "secs") || str_eq(w, "sec")
        || str_eq(w, "s") {
        1_000_000_000
    } else if str_eq(w, "minutes") || str_eq(w, "minute") || str_eq(w, "min") || str_eq(w, "mins")
        || str_eq(w, "m") {
        60_000_000_000
    } else if str_eq(w, "hours") || str_eq(w, "hour") || str_eq(w, "hr") || str_eq(w, "hrs")
        || str_eq(w, "h") {
        3_600_000_000_000
    } else if str_eq(w, "days") || str_eq(w, "day") || str_eq(w, "d") {
        86_400_000_000_000
    } else if str_eq(w, "weeks") || str_eq(w, "week") || str_eq(w, "wk") || str_eq(w, "wks")
        || str_eq(w, "w") {
        604_800_000_000_000
    } else if str_eq(w, "months") || str_eq(w, "month") || str_eq(w, "M") {
        2_630_016_000_000_000
    } else if str_eq(w, "years") || str_eq(w, "year") || str_eq(w, "yr") || str_eq(w, "yrs")
        || str_eq(w, "y") {
        31_557_600_000_000_000
    } else {
        0
    }
}

/// How far a duration text has been read.
#[verifier::ext_equal]
pub struct Tally {
    /// The sum of the numbers that are complete, in nanoseconds.
    pub sum: nat,
    /// Whether a sum came to the one that cannot be formed.
    pub hit: bool,
    /// The number that is being read: its whole part, and its fraction as a
    /// numerator over a denominator.
    pub whole: nat,
    pub part: nat,
    pub over: nat,
    /// Whether its decimal point has been read.
    pub point: bool,
    /// What has been read of its unit.
    pub unit: Seq<char>,
}

/// Nothing has been read.
pub open spec fn nothing() -> Tally {
    Tally { sum: 0, hit: false, whole: 0, part: 0, over: 1, point: false, unit: Seq::empty() }
}

/// The number that was being read is complete.
pub open spec fn completed(t: Tally) -> Tally {
    let u = unit_nanos(t.unit);
    let a = t.sum + t.whole * u;
    let b = a + (t.part * u) / t.over;
    Tally {
        sum: least(b, (PAST_SECONDS + 1) as nat),
        hit: t.hit || a == PAST_SECONDS || b == PAST_SECONDS,
        ..nothing()
    }
}

/// A digit behind a number.
pub open spec fn longer(n: nat, c: char) -> nat {
    least(n * 10 + (c as nat - '0' as nat) as nat, PAST_NUMBERS as nat)
}

/// One character further.
pub open spec fn step(t: Tally, c: char) -> Tally {
    if is_digit(c) {
        if t.unit.len() > 0 {
            Tally { whole: longer(0, c), ..completed(t) }
        } else if t.point {
            Tally {
                part: longer(t.part, c),
                over: least(t.over * 10, PAST_NUMBERS as nat),
                ..t
            }
        } else {
            Tally { whole: longer(t.whole, c), ..t }
        }
    } else if whitespace(c) {
        if t.unit.len() > 0 {
            completed(t)
        } else {
            t
        }
    } else if c == '.' && t.unit.len() == 0 {
        Tally { point: true, ..t }
    } else {
        Tally { unit: t.unit.push(c), ..t }
    }
}

pub open spec fn tally(s: Seq<char>) -> Tally
    decreases s.len(),
{
    if s.len() == 0 {
        nothing()
    } else {
        step(tally(s.drop_last()), s.last())
    }
}

/// Whether no sum that a duration text asks for is the one that cannot be formed.
pub open spec fn duration_summable(s: Seq<char>) -> bool {
    !completed(tally(s)).hit
}

struct Reading {
    sum: u128,
    hit: bool,
    whole: u128,
    part: u128,
    over: u128,
    point: bool,
    unit: String,
}

impl Reading {
    spec fn tallied(self) -> Tally {
        Tally {
            sum: self.sum as nat,
            hit: self.hit,
            whole: self.whole as nat,
            part: self.part as nat,
            over: self.over as nat,
            point: self.point,
            unit: self.unit@,
        }
    }

    spec fn wf(self) -> bool {
        &&& self.sum <= PAST_SECONDS + 1
        &&& self.whole <= PAST_NUMBERS
        &&& self.part <= PAST_NUMBERS
        &&& 1 <= self.over <= PAST_NUMBERS
    }
}

fn start(sum: u128, hit: bool) -> (r: Reading)
    requires
        sum <= PAST_SECONDS + 1,
    ensures
        r.tallied() == (Tally { sum: sum as nat, hit, ..nothing() }),
        r.wf(),
{
    let r: Reading = Reading {
        sum,
        hit,
        whole: 0,
        part: 0,
        over: 1,
        point: false,
        unit: String::new(),
    };
    proof {
        assert(r.unit@ =~= Seq::<char>::empty());
    }
    r
}

proof fn lemma_product(a: u128, u: u128)
    requires
        a <= PAST_NUMBERS,
        u <= 31_557_600_000_000_000,
    ensures
        0 <= a * u <= 600_000_000_000_000_000_000_000_000_000_000_000,
{
    assert(0 <= a * u <= 18_446_744_073_709_551_616 * 31_557_600_000_000_000) by (nonlinear_arith)
        requires
            0 <= a <= 18_446_744_073_709_551_616,
            0 <= u <= 31_557_600_000_000_000,
    ;
}

fn complete(t: &Reading) -> (r: Reading)
    requires
        t.wf(),
    ensures
        r.tallied() == completed(t.tallied()),
        r.wf(),
{
    let u: u128 = nanos_of(t.unit.as_str());
    proof {
        lemma_product(t.whole, u);
        lemma_product(t.part, u);
        let p = t.part * u;
        let o = t.over as int;
        assert(0 <= p / o <= p) by (nonlinear_arith)
            requires
                0 <= p,
                1 <= o,
        ;
    }
    let a: u128 = t.sum + t.whole * u;
    let b: u128 = a + (t.part * u) / t.over;
    let sum: u128 = if b <= PAST_SECONDS + 1 {
        b
    } else {
        PAST_SECONDS + 1
    };
    start(sum, t.hit || a == PAST_SECONDS || b == PAST_SECONDS)
}

fn lengthen(n: u128, c: char) -> (r: u128)
    requires
        n <= PAST_NUMBERS,
        is_digit(c),
    ensures
        r == longer(n as nat, c),
        r <= PAST_NUMBERS,
{
    let m: u128 = n * 10 + (c as u128 - '0' as u128);
    if m <= PAST_NUMBERS {
        m
    } else {
        PAST_NUMBERS
    }
}

fn read_char(t: Reading, c: char) -> (r: Reading)
    requires
        t.wf(),
    ensures
        r.tallied() == step(t.tallied(), c),
        r.wf(),
{
    let mut t: Reading = t;
    if digit(c) {
        if !t.unit.as_str().is_empty() {
            let mut r: Reading = complete(&t);
            r.whole = lengthen(0, c);
            return r;
        }
        if t.point {
            t.part = lengthen(t.part, c);
            t.over = if t.over * 10 <= PAST_NUMBERS {
                t.over * 10
            } else {
                PAST_NUMBERS
            };
        } else {
            t.whole = lengthen(t.whole, c);
        }
        return t;
    }
    if c.is_whitespace() {
        if !t.unit.as_str().is_empty() {
            return complete(&t);
        }
        return t;
    }
    if c == '.' && t.unit.as_str().is_empty() {
        t.point = true;
        return t;
    }
    t.unit.push(c);
    t
}

/// Whether no sum that a duration text asks for is the one that cannot be formed.
pub fn is_summable(s: &str) -> (r: bool)
    ensures
        r == duration_summable(s@),
{
    let v: Vec<char> = chars_of(s);
    let mut t: Reading = start(0, false);
    let mut i: usize = 0;
    proof {
        assert(v@.take(0) =~= Seq::<char>::empty());
    }
    while i < v.len()
        invariant
            v@ == s@,
            i <= v@.len(),
            t.wf(),
            t.tallied() == tally(v@.take(i as int)),
        decreases v@.len() - i,
    {
        proof {
            assert(v@.take(i + 1).drop_last() =~= v@.take(i as int));
            assert(v@.take(i + 1).last() == v@[i as int]);
        }
        t = read_char(t, v[i]);
        i = i + 1;
    }
    proof {
        assert(v@.take(i as int) =~= v@);
    }
    !complete(&t).hit
}

} // verus!
