//! Verified rendering of numbers and metric values as text.

use vstd::prelude::*;
use vstd::string::StringExecFns;

use crate::metrics::ProfileMetric;

verus! {

/// The decimal digit character for `d`.
pub open spec fn spec_digit(d: nat) -> char {
    if d == 0 {
        '0'
    } else if d == 1 {
        '1'
    } else if d == 2 {
        '2'
    } else if d == 3 {
        '3'
    } else if d == 4 {
        '4'
    } else if d == 5 {
        '5'
    } else if d == 6 {
        '6'
    } else if d == 7 {
        '7'
    } else if d == 8 {
        '8'
    } else {
        '9'
    }
}

/// The decimal notation of `n`: most significant digit first, no leading
/// zeroes (a single zero for zero itself).
pub open spec fn spec_decimal(n: nat) -> Seq<char>
    decreases n,
{
    if n < 10 {
        seq![spec_digit(n)]
    } else {
        spec_decimal(n / 10) + seq![spec_digit(n % 10)]
    }
}

/// The textual form of a metric value, mirroring its debug shape.
pub open spec fn spec_metric_text(m: ProfileMetric) -> Seq<char> {
    match m {
        ProfileMetric::OsClock(d) => "OsClock(Duration("@ + spec_decimal(d.spec_nanos() as nat)
            + "))"@,
        ProfileMetric::CpuCounter(c) => "CpuCounter(Counter("@ + spec_decimal(
            c.spec_cycles() as nat,
        ) + "))"@,
    }
}

fn digit_str(d: u64) -> (s: &'static str)
    requires
        d < 10,
    ensures
        s@ == seq![spec_digit(d as nat)],
{
    let s: &'static str = if d == 0 {
        "0"
    } else if d == 1 {
        "1"
    } else if d == 2 {
        "2"
    } else if d == 3 {
        "3"
    } else if d == 4 {
        "4"
    } else if d == 5 {
        "5"
    } else if d == 6 {
        "6"
    } else if d == 7 {
        "7"
    } else if d == 8 {
        "8"
    } else {
        "9"
    };
    proof {
        reveal_strlit("0");
        reveal_strlit("1");
        reveal_strlit("2");
        reveal_strlit("3");
        reveal_strlit("4");
        reveal_strlit("5");
        reveal_strlit("6");
        reveal_strlit("7");
        reveal_strlit("8");
        reveal_strlit("9");
        assert(s@ =~= seq![spec_digit(d as nat)]);
    }
    s
}

/// Renders `v` in decimal notation.
pub fn decimal_string(v: u64) -> (s: String)
    ensures
        s@ == spec_decimal(v as nat),
    decreases v,
{
    if v < 10 {
        String::from_str(digit_str(v))
    } else {
        let mut s = decimal_string(v / 10);
        s.append(digit_str(v % 10));
        s
    }
}

/// Renders a metric value as text, in its debug shape.
pub fn metric_text(m: ProfileMetric) -> (s: String)
    ensures
        s@ == spec_metric_text(m),
{
    match m {
        ProfileMetric::OsClock(d) => {
            let mut s = String::from_str("OsClock(Duration(");
            s.append(decimal_string(d.as_nanos()).as_str());
            s.append("))");
            s
        },
        ProfileMetric::CpuCounter(c) => {
            let mut s = String::from_str("CpuCounter(Counter(");
            s.append(decimal_string(c.cycles()).as_str());
            s.append("))");
            s
        },
    }
}

} // verus!
