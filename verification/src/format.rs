//! Sizes and durations as text.

use vstd::arithmetic::power2::{lemma2_to64, lemma_pow2_pos, lemma_pow2_unfold, pow2};
use vstd::prelude::*;

use crate::text::{decimal, decimal_text};

verus! {

// ---------------------------------------------------------------------------
// Durations
// ---------------------------------------------------------------------------

/// A duration in its two largest units.
pub open spec fn duration_text(seconds: nat) -> Seq<char> {
    let days = seconds / 86_400;
    let hours = (seconds % 86_400) / 3_600;
    let minutes = (seconds % 3_600) / 60;
    if days > 0 {
        decimal(days) + "d "@ + decimal(hours) + "h"@
    } else if hours > 0 {
        decimal(hours) + "h "@ + decimal(minutes) + "m"@
    } else if minutes > 0 {
        decimal(minutes) + "m"@
    } else {
        decimal(seconds) + "s"@
    }
}

/// A duration in its two largest units.
pub fn format_duration(seconds: u64) -> (r: String)
    ensures
        r@ == duration_text(seconds as nat),
{
    let days: u64 = seconds / 86_400;
    let hours: u64 = (seconds % 86_400) / 3_600;
    let minutes: u64 = (seconds % 3_600) / 60;
    if days > 0 {
        decimal_text(days).concat("d ").concat(decimal_text(hours).as_str()).concat("h")
    } else if hours > 0 {
        decimal_text(hours).concat("h ").concat(decimal_text(minutes).as_str()).concat("m")
    } else if minutes > 0 {
        decimal_text(minutes).concat("m")
    } else {
        decimal_text(seconds).concat("s")
    }
}

// ---------------------------------------------------------------------------
// Sizes
// ---------------------------------------------------------------------------

/// The integer nearest to `a / b`, the even one if two are equally near.
pub open spec fn round_half_even(a: nat, b: nat) -> nat {
    let q = a / b;
    let r = a % b;
    if 2 * r > b || (2 * r == b && q % 2 == 1) {
        q + 1
    } else {
        q
    }
}

/// The power of two in whose multiples a number is kept to 53 significant bits.
pub open spec fn quantum(n: nat) -> nat
    decreases n,
{
    if n < 0x20_0000_0000_0000 {
        1
    } else {
        2 * quantum(n / 2)
    }
}

/// `n` rounded to 53 significant bits.
pub open spec fn significant(n: nat) -> nat {
    round_half_even(n, quantum(n)) * quantum(n)
}

/// The largest unit from B to TiB that a size has at least one of: its size in
/// bytes and its name.
pub open spec fn size_unit(n: nat) -> (nat, Seq<char>) {
    if n < 0x400 {
        (1, "B"@)
    } else if n < 0x10_0000 {
        (0x400, "KiB"@)
    } else if n < 0x4000_0000 {
        (0x10_0000, "MiB"@)
    } else if n < 0x100_0000_0000 {
        (0x4000_0000, "GiB"@)
    } else {
        (0x100_0000_0000, "TiB"@)
    }
}

/// A size in its largest unit: bytes as they are, larger units to one decimal.
/// Sizes are kept to 53 significant bits.
pub open spec fn size_text(bytes: nat) -> Seq<char> {
    let n = significant(bytes);
    let (unit, name) = size_unit(n);
    if unit == 1 {
        decimal(bytes) + " "@ + name
    } else {
        let tenths = round_half_even(n * 10, unit);
        decimal(tenths / 10) + "."@ + decimal(tenths % 10) + " "@ + name
    }
}

/// The integer nearest to `a / b`, the even one if two are equally near.
fn nearest(a: u128, b: u128) -> (r: u128)
    requires
        0 < b <= 0x1_0000_0000_0000_0000,
    ensures
        r == round_half_even(a as nat, b as nat),
        r <= a + 1,
{
    let q: u128 = a / b;
    let rest: u128 = a % b;
    assert(q <= a) by (nonlinear_arith)
        requires
            q == a / b,
            b > 0,
    ;
    if b == 1 {
        return q;
    }
    assert(q < a || a == 0) by (nonlinear_arith)
        requires
            q == a / b,
            b > 1,
    ;
    if 2 * rest > b || (2 * rest == b && q % 2 == 1) {
        q + 1
    } else {
        q
    }
}

/// The power of two in whose multiples `n` is kept.
fn quantum_of(n: u64) -> (r: u64)
    ensures
        r == quantum(n as nat),
        1 <= r <= 0x1000,
{
    let mut q: u64 = 1;
    let mut m: u64 = n;
    while m >= 0x20_0000_0000_0000
        invariant
            1 <= q <= 0x1000,
            quantum(n as nat) == q * quantum(m as nat),
            m * q <= n,
        decreases m,
    {
        assert((m / 2) * (2 * q) <= n) by (nonlinear_arith)
            requires
                m * q <= n,
                q >= 1,
        ;
        assert(q * 0x20_0000_0000_0000 <= n) by (nonlinear_arith)
            requires
                m * q <= n,
                m >= 0x20_0000_0000_0000,
        ;
        assert(q * (2 * quantum((m / 2) as nat)) == (2 * q) * quantum((m / 2) as nat))
            by (nonlinear_arith);
        q = 2 * q;
        m = m / 2;
    }
    assert(q * 1 == q);
    q
}

/// A size in its largest unit.
pub fn format_bytes(bytes: u64) -> (r: String)
    ensures
        r@ == size_text(bytes as nat),
{
    let q: u64 = quantum_of(bytes);
    let k: u128 = nearest(bytes as u128, q as u128);
    assert(k * q <= 0x1_0000_0000_0000_0000 * 0x1000) by (nonlinear_arith)
        requires
            k <= 0x1_0000_0000_0000_0000,
            q <= 0x1000,
    ;
    let n: u128 = k * (q as u128);
    if n < 0x400 {
        decimal_text(bytes).concat(" ").concat("B")
    } else if n < 0x10_0000 {
        scaled_text(n, 0x400, "KiB")
    } else if n < 0x4000_0000 {
        scaled_text(n, 0x10_0000, "MiB")
    } else if n < 0x100_0000_0000 {
        scaled_text(n, 0x4000_0000, "GiB")
    } else {
        scaled_text(n, 0x100_0000_0000, "TiB")
    }
}

/// `n` in multiples of `unit`, to one decimal.
fn scaled_text(n: u128, unit: u128, name: &str) -> (r: String)
    requires
        0x400 <= unit <= 0x100_0000_0000,
        n <= 0x1_0000_0000_0000_0000 * 0x1000,
        n / unit <= 0x10_0000_0000,
    ensures
        r@ == ({
            let tenths = round_half_even((n * 10) as nat, unit as nat);
            decimal(tenths / 10) + "."@ + decimal(tenths % 10) + " "@ + name@
        }),
{
    let tenths: u128 = nearest(n * 10, unit);
    assert((n * 10) / (unit as int) <= 0x80_0000_0000_0000) by (nonlinear_arith)
        requires
            n / unit <= 0x10_0000_0000,
            unit >= 0x400,
    ;
    decimal_text((tenths / 10) as u64).concat(".").concat(
        decimal_text((tenths % 10) as u64).as_str(),
    ).concat(" ").concat(name)
}

// ---------------------------------------------------------------------------
// Laws
// ---------------------------------------------------------------------------

/// A duration of so many days, hours, minutes and seconds is shown by its two largest parts,
/// one of them if it is shorter than an hour.
pub proof fn law_duration_shows_its_largest_parts(days: nat, hours: nat, minutes: nat, seconds: nat)
    requires
        hours < 24,
        minutes < 60,
        seconds < 60,
    ensures
        duration_text(days * 86400 + hours * 3600 + minutes * 60 + seconds) == (if days > 0 {
            decimal(days) + "d "@ + decimal(hours) + "h"@
        } else if hours > 0 {
            decimal(hours) + "h "@ + decimal(minutes) + "m"@
        } else if minutes > 0 {
            decimal(minutes) + "m"@
        } else {
            decimal(seconds) + "s"@
        }),
{
    let total = days * 86400 + hours * 3600 + minutes * 60 + seconds;
    assert(total / 86400 == days);
    assert((total % 86400) / 3600 == hours);
    assert((total % 3600) / 60 == minutes);
}

/// Rounding gives a nearest integer, an even one if two are equally near.
proof fn lemma_rounding_is_nearest(a: nat, b: nat)
    requires
        b > 0,
    ensures
        ({
            let r = round_half_even(a, b);
            &&& 2 * (r * b - a) <= b
            &&& 2 * (a - r * b) <= b
            &&& (2 * (r * b - a) == b || 2 * (a - r * b) == b) ==> r % 2 == 0
        }),
{
    let q = a / b;
    let rest = a % b;
    assert(a == q * b + rest && 0 <= rest < b) by (nonlinear_arith)
        requires
            b > 0,
            q == a / b,
            rest == a % b,
    ;
    assert((q + 1) * b == q * b + b) by (nonlinear_arith);
}

/// The power of two in whose multiples a number is kept leaves 53 bits.
proof fn lemma_quantum(n: nat) -> (e: nat)
    ensures
        quantum(n) == pow2(e),
        n < 0x20_0000_0000_0000 ==> quantum(n) == 1,
        n >= 0x20_0000_0000_0000 ==> quantum(n) * 0x10_0000_0000_0000 <= n < quantum(n)
            * 0x20_0000_0000_0000,
    decreases n,
{
    if n < 0x20_0000_0000_0000 {
        lemma2_to64();
        0
    } else {
        let e = lemma_quantum(n / 2);
        lemma_pow2_unfold(e + 1);
        let q = quantum(n / 2);
        assert(quantum(n) == 2 * q);
        if n / 2 < 0x20_0000_0000_0000 {
            assert(q == 1);
        } else {
            assert(2 * q * 0x10_0000_0000_0000 <= n < 2 * q * 0x20_0000_0000_0000)
                by (nonlinear_arith)
                requires
                    q * 0x10_0000_0000_0000 <= n / 2 < q * 0x20_0000_0000_0000,
            ;
        }
        e + 1
    }
}

/// A size below a kibibyte is shown in bytes; a larger one to the nearest tenth of the
/// largest unit up to TiB that it has one of, to the even tenth if two are equally near.
pub proof fn law_size_is_shown_to_the_nearest_tenth(bytes: nat)
    requires
        bytes < 0x20_0000_0000_0000,
    ensures
        bytes < 1024 ==> size_text(bytes) == decimal(bytes) + " "@ + "B"@,
        bytes >= 1024 ==> ({
            let (unit, name) = if bytes < 1024 * 1024 {
                (1024nat, "KiB"@)
            } else if bytes < 1024 * 1024 * 1024 {
                (1024 * 1024, "MiB"@)
            } else if bytes < 1024 * 1024 * 1024 * 1024 {
                (1024 * 1024 * 1024, "GiB"@)
            } else {
                (1024 * 1024 * 1024 * 1024, "TiB"@)
            };
            exists|tenths: nat|
                {
                    &&& size_text(bytes) == #[trigger] decimal(tenths / 10) + "."@ + decimal(
                        tenths % 10,
                    ) + " "@ + name
                    &&& 2 * (tenths * unit - 10 * bytes) <= unit
                    &&& 2 * (10 * bytes - tenths * unit) <= unit
                    &&& (2 * (tenths * unit - 10 * bytes) == unit || 2 * (10 * bytes - tenths * unit)
                        == unit) ==> tenths % 2 == 0
                }
        }),
{
    lemma_quantum(bytes);
    assert(bytes / 1 == bytes && bytes % 1 == 0);
    assert(significant(bytes) == bytes);
    if bytes >= 1024 {
        let (unit, name) = size_unit(bytes);
        let tenths = round_half_even(bytes * 10, unit);
        lemma_rounding_is_nearest(bytes * 10, unit);
        assert(size_text(bytes) == decimal(tenths / 10) + "."@ + decimal(tenths % 10) + " "@ + name);
    }
}

/// A size of 53 bits or more is shown as the nearest size that 53 bits can hold, the one
/// with an even number in its bits if two are equally near, and that to the nearest tenth
/// of a TiB.
pub proof fn law_huge_size_is_kept_to_53_bits(bytes: nat)
    requires
        bytes >= 0x20_0000_0000_0000,
    ensures
        exists|e: nat, kept: nat, tenths: nat|
            {
                &&& pow2(e) * 0x10_0000_0000_0000 <= bytes < pow2(e) * 0x20_0000_0000_0000
                &&& 2 * (kept * pow2(e) - bytes) <= pow2(e)
                &&& 2 * (bytes - kept * #[trigger] pow2(e)) <= pow2(e)
                &&& (2 * (kept * pow2(e) - bytes) == pow2(e) || 2 * (bytes - kept * pow2(e))
                    == pow2(e)) ==> #[trigger] (kept % 2) == 0
                &&& 2 * (tenths * 0x100_0000_0000 - 10 * (kept * pow2(e))) <= 0x100_0000_0000
                &&& 2 * (10 * (kept * pow2(e)) - tenths * 0x100_0000_0000) <= 0x100_0000_0000
                &&& (2 * (tenths * 0x100_0000_0000 - 10 * (kept * pow2(e))) == 0x100_0000_0000 || 2
                    * (10 * (kept * pow2(e)) - tenths * 0x100_0000_0000) == 0x100_0000_0000)
                    ==> tenths % 2 == 0
                &&& size_text(bytes) == #[trigger] decimal(tenths / 10) + "."@ + decimal(
                    tenths % 10,
                ) + " TiB"@
            },
{
    let e = lemma_quantum(bytes);
    let q = quantum(bytes);
    let kept = round_half_even(bytes, q);
    assert(q > 0) by {
        lemma_pow2_pos(e);
    }
    lemma_rounding_is_nearest(bytes, q);
    let n = kept * q;
    assert(n == significant(bytes));
    assert(n >= 0x100_0000_0000) by {
        assert(2 * (bytes - n) <= q);
        assert(q * 0x10_0000_0000_0000 <= bytes);
    }
    let tenths = round_half_even(n * 10, 0x100_0000_0000);
    lemma_rounding_is_nearest(n * 10, 0x100_0000_0000);
    reveal_strlit(" ");
    reveal_strlit("TiB");
    reveal_strlit(" TiB");
    assert(" "@ + "TiB"@ =~= " TiB"@);
    assert(size_text(bytes) =~= decimal(tenths / 10) + "."@ + decimal(tenths % 10) + " TiB"@);
    assert(kept % 2 == 0 || kept % 2 == 1);
    assert(pow2(e) == q);
}

} // verus!
