//! Sizes and times as a reader sees them in the report.
use vstd::prelude::*;

use crate::numbers::{decimal, padded, push_decimal, push_padded};

verus! {

/// `x / d`, rounded to the nearest integer; of two equally near the even one.
pub open spec fn round_div(x: nat, d: nat) -> nat {
    let q = x / d;
    let r = x % d;
    if 2 * r < d || (2 * r == d && q % 2 == 0) {
        q
    } else {
        q + 1
    }
}

/// The distance between two neighbouring double precision numbers around the integer `n`.
pub open spec fn double_step(n: nat) -> nat
    decreases n,
{
    if n < 0x20_0000_0000_0000 {
        1
    } else {
        2 * double_step(n / 2)
    }
}

/// The double precision number nearest to the integer `n`.
pub open spec fn nearest_double(n: nat) -> nat {
    round_div(n, double_step(n)) * double_step(n)
}

/// The unit for a size: the largest binary unit up to TiB that does not exceed it.
pub open spec fn size_unit(v: nat) -> (nat, Seq<char>) {
    if v < 0x10_0000 {
        (0x400, "KiB"@)
    } else if v < 0x4000_0000 {
        (0x10_0000, "MiB"@)
    } else if v < 0x100_0000_0000 {
        (0x4000_0000, "GiB"@)
    } else {
        (0x100_0000_0000, "TiB"@)
    }
}

/// A size in the largest fitting binary unit. Below one KiB it is a whole number of bytes;
/// above, the nearest double precision number is shown with two decimals.
pub open spec fn bytes_text(bytes: nat) -> Seq<char> {
    if bytes < 1024 {
        decimal(bytes) + " B"@
    } else {
        let v = nearest_double(bytes);
        let (unit, name) = size_unit(v);
        let hundredths = round_div(100 * v, unit);
        decimal(hundredths / 100) + "."@ + padded(hundredths % 100, 2) + " "@ + name
    }
}

/// A time in milliseconds: three decimals below one millisecond, whole milliseconds above.
pub open spec fn time_text(us: nat) -> Seq<char> {
    if us < 1000 {
        "0."@ + padded(us, 3) + " ms"@
    } else {
        decimal(us / 1000) + " ms"@
    }
}

fn round_div_exec(x: u128, d: u128) -> (q: u128)
    requires
        0 < d <= 0x1_0000_0000_0000_0000,
        x < 0x1_0000_0000_0000_0000_0000_0000_0000,
    ensures
        q == round_div(x as nat, d as nat),
{
    let q: u128 = x / d;
    let r: u128 = x % d;
    proof {
        vstd::arithmetic::div_mod::lemma_div_is_ordered_by_denominator(x as int, 1, d as int);
        vstd::arithmetic::div_mod::lemma_div_basics(x as int);
    }
    if 2 * r < d || (2 * r == d && q % 2 == 0) {
        q
    } else {
        q + 1
    }
}

/// A halving keeps the parts of a division.
proof fn lemma_step(m: nat, step: nat, n: nat)
    requires
        m == n / step,
        step > 0,
    ensures
        m / 2 == n / (2 * step),
{
    vstd::arithmetic::div_mod::lemma_div_denominator(n as int, step as int, 2);
    vstd::arithmetic::mul::lemma_mul_is_commutative(step as int, 2);
}

/// The double precision number nearest to `n`, as an integer.
fn nearest_double_exec(n: u64) -> (v: u128)
    ensures
        v == nearest_double(n as nat),
        v <= 0x2_0000_0000_0000_0000,
{
    let mut m: u64 = n;
    let mut step: u128 = 1;
    proof {
        vstd::arithmetic::mul::lemma_mul_basics(double_step(m as nat) as int);
        vstd::arithmetic::div_mod::lemma_div_basics(n as int);
    }
    while m >= 0x20_0000_0000_0000
        invariant
            m == n as nat / step as nat,
            0 < step,
            step * m <= n,
            double_step(n as nat) == step * double_step(m as nat),
        decreases m,
    {
        proof {
            let d = double_step((m / 2) as nat);
            lemma_step(m as nat, step as nat, n as nat);
            assert(step * (2 * d) == (step * 2) * d) by (nonlinear_arith);
            assert((step * 2) * (m as int / 2) <= step * m) by (nonlinear_arith)
                requires
                    step >= 0,
                    m >= 0,
            ;
            assert(step * 2 <= step * m) by (nonlinear_arith)
                requires
                    step >= 0,
                    m >= 2,
            ;
            assert(double_step(m as nat) == 2 * d);
        }
        m = m / 2;
        step = step * 2;
    }
    proof {
        assert(step * 1 == step) by (nonlinear_arith);
        lemma_double_step_le(n as nat);
        lemma_rounded_bound(n as nat, step as nat);
    }
    let q: u128 = round_div_exec(n as u128, step);
    assert(q * step <= n + step);
    assert(q * step <= 0x2_0000_0000_0000_0000);
    q * step
}

/// Doubles lie closer together than zero and the number itself.
proof fn lemma_double_step_le(n: nat)
    ensures
        double_step(n) >= 1,
        double_step(n) <= n || double_step(n) == 1,
    decreases n,
{
    if n >= 0x20_0000_0000_0000 {
        lemma_double_step_le(n / 2);
    }
}

proof fn lemma_rounded_bound(n: nat, step: nat)
    requires
        step > 0,
    ensures
        round_div(n, step) * step <= n + step,
{
    vstd::arithmetic::div_mod::lemma_fundamental_div_mod(n as int, step as int);
    vstd::arithmetic::div_mod::lemma_mod_bound(n as int, step as int);
    let q = n / step;
    assert(q * step <= n) by (nonlinear_arith)
        requires
            n == step * q + n % step,
            n % step >= 0,
    ;
    assert((q + 1) * step == q * step + step) by (nonlinear_arith);
}

/// A size for the report.
pub fn fmt_bytes(bytes: u64) -> (out: String)
    ensures
        out@ == bytes_text(bytes as nat),
{
    let mut out = String::new();
    if bytes < 1024 {
        push_decimal(&mut out, bytes as u128);
        out.append(" B");
        assert(out@ =~= bytes_text(bytes as nat));
        return out;
    }
    let v: u128 = nearest_double_exec(bytes);
    let unit: u128;
    let name: &str;
    if v < 0x10_0000 {
        unit = 0x400;
        name = "KiB";
    } else if v < 0x4000_0000 {
        unit = 0x10_0000;
        name = "MiB";
    } else if v < 0x100_0000_0000 {
        unit = 0x4000_0000;
        name = "GiB";
    } else {
        unit = 0x100_0000_0000;
        name = "TiB";
    }
    let hundredths: u128 = round_div_exec(100 * v, unit);
    push_decimal(&mut out, hundredths / 100);
    out.append(".");
    push_padded(&mut out, hundredths % 100, 2);
    out.append(" ");
    out.append(name);
    assert(out@ =~= bytes_text(bytes as nat));
    out
}

/// A time for the report.
pub fn fmt_time_ms(time_us: u128) -> (out: String)
    ensures
        out@ == time_text(time_us as nat),
{
    let mut out = String::new();
    if time_us < 1000 {
        out.append("0.");
        push_padded(&mut out, time_us, 3);
    } else {
        push_decimal(&mut out, time_us / 1000);
    }
    out.append(" ms");
    assert(out@ =~= time_text(time_us as nat));
    out
}

/// A time for the report.
pub fn fmt_time_ms_u64(time_us: u64) -> (out: String)
    ensures
        out@ == time_text(time_us as nat),
{
    fmt_time_ms(time_us as u128)
}

} // verus!
