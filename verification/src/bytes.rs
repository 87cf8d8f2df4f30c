//! Byte counts as people read them.

use vstd::prelude::*;

use crate::double;
use crate::percent;
use crate::text;

verus! {

/// Numbers below this are held exactly in the 53 bits of a double's precision.
pub const EXACT: u64 = 0x20_0000_0000_0000;

pub const KIB: u64 = 0x400;

pub const MIB: u64 = 0x10_0000;

pub const GIB: u64 = 0x4000_0000;

pub const TIB: u64 = 0x100_0000_0000;

/// The spacing of doubles around `n`: one up to [`EXACT`], then doubling with it.
pub open spec fn spacing(n: nat) -> nat
    decreases n,
{
    if n < EXACT {
        1
    } else {
        2 * spacing(n / 2)
    }
}

/// `n` to the nearest double.
pub open spec fn rounded(n: nat) -> nat {
    double::nearest(n, spacing(n)) * spacing(n)
}

/// The unit a size of `n` is shown in, and its letter: the largest that leaves at
/// least one whole, up to tebibytes.
pub open spec fn unit_of(n: nat) -> (nat, char) {
    if n < KIB {
        (1, 'B')
    } else if n < MIB {
        (KIB as nat, 'K')
    } else if n < GIB {
        (MIB as nat, 'M')
    } else if n < TIB {
        (GIB as nat, 'G')
    } else {
        (TIB as nat, 'T')
    }
}

/// A byte count as a short text: whole bytes below a kibibyte, else one decimal
/// in the unit it reaches.
pub open spec fn shown_bytes(bytes: nat) -> Seq<char> {
    let value = rounded(bytes);
    let (unit, letter) = unit_of(value);
    if unit == 1 {
        text::decimal(bytes) + seq![' ', 'B']
    } else {
        percent::tenths_text(double::nearest(10 * value, unit)) + seq![' ', letter]
    }
}

/// The spacing of doubles around `n`.
fn spacing_at(n: u64) -> (out: u64)
    ensures
        out == spacing(n as nat),
        1 <= out <= 0x1000,
        out == 1 || out * (EXACT / 2) <= n,
    decreases n,
{
    if n < EXACT {
        1
    } else {
        2 * spacing_at(n / 2)
    }
}

/// Render a byte count as a compact human-readable string (e.g. `12.3 M`).
pub fn format_bytes(bytes: u64) -> (out: String)
    ensures
        out@ == shown_bytes(bytes as nat),
{
    let step: u128 = spacing_at(bytes) as u128;
    let count: u128 = double::divide_nearest(bytes as u128, step);
    assert(count <= bytes + 1) by {
        assert(bytes as nat / step as nat <= bytes) by (nonlinear_arith)
            requires
                step >= 1,
        ;
    }
    assert(count * step <= 0x1_0000_0000_0000_0000 * 0x1000) by (nonlinear_arith)
        requires
            count <= 0x1_0000_0000_0000_0000,
            step <= 0x1000,
    ;
    let value: u128 = count * step;
    let (unit, letter): (u128, char) = if value < KIB as u128 {
        (1, 'B')
    } else if value < MIB as u128 {
        (KIB as u128, 'K')
    } else if value < GIB as u128 {
        (MIB as u128, 'M')
    } else if value < TIB as u128 {
        (GIB as u128, 'G')
    } else {
        (TIB as u128, 'T')
    };
    let mut out = if unit == 1 {
        text::to_decimal(bytes as u128)
    } else {
        percent::write_tenths(double::divide_nearest(10 * value, unit))
    };
    out.push(' ');
    out.push(letter);
    out
}

// ── Laws ─────────────────────────────────────────────────────────────────────

/// A count below `2^53` is held exactly; one above is off by no more than a part in
/// `2^53`.
pub proof fn a_size_is_held_exactly(n: nat)
    ensures
        n < 0x20_0000_0000_0000 ==> rounded(n) == n,
        n >= 0x20_0000_0000_0000 ==> -n <= (rounded(n) - n) * 0x20_0000_0000_0000 <= n,
{
    lemma_spacing(n);
    let (step, q) = (spacing(n) as int, double::nearest(n, spacing(n)) as int);
    vstd::arithmetic::div_mod::lemma_fundamental_div_mod(n as int, step);
    if n < EXACT {
        assert(n / 1 == n && n % 1 == 0);
        assert(q * 1 == q);
    } else {
        let (m, r) = (n as int / step, n as int % step);
        assert(step * m == m * step && (m + 1) * step == m * step + step) by (nonlinear_arith);
    }
}

proof fn lemma_spacing(n: nat)
    ensures
        spacing(n) >= 1,
        n >= EXACT ==> spacing(n) * 0x10_0000_0000_0000 <= n,
    decreases n,
{
    if n >= EXACT {
        lemma_spacing(n / 2);
    }
}

/// A size is shown in the largest unit of which it has at least one: bytes as they are,
/// kibi-, mebi- and gibibytes, and tebibytes from there on, to the nearest tenth.
pub proof fn a_size_is_shown_in_its_unit(n: nat)
    requires
        n < 0x20_0000_0000_0000,
    ensures
        n < 0x400 ==> shown_bytes(n) == text::decimal(n) + seq![' ', 'B'],
        0x400 <= n < 0x10_0000 ==> is_shown(n, 0x400, 'K'),
        0x10_0000 <= n < 0x4000_0000 ==> is_shown(n, 0x10_0000, 'M'),
        0x4000_0000 <= n < 0x100_0000_0000 ==> is_shown(n, 0x4000_0000, 'G'),
        0x100_0000_0000 <= n ==> is_shown(n, 0x100_0000_0000, 'T'),
{
    a_size_is_held_exactly(n);
    if n >= 0x400 {
        let (unit, letter) = unit_of(n);
        let t = double::nearest(10 * n, unit);
        let m = (10 * n) as int / unit as int;
        vstd::arithmetic::div_mod::lemma_fundamental_div_mod((10 * n) as int, unit as int);
        assert(unit * m == m * unit && (m + 1) * unit == m * unit + unit) by (nonlinear_arith);
        assert(-unit <= 2 * (10 * n - t * unit) <= unit);
        assert(shown_bytes(n) == percent::tenths_text(t) + seq![' ', letter]);
    }
}

/// `n` is shown as the tenths of `unit` nearest to it, and the unit's letter.
pub open spec fn is_shown(n: nat, unit: nat, letter: char) -> bool {
    exists|tenths: nat|
        {
            &&& shown_bytes(n) == #[trigger] percent::tenths_text(tenths) + seq![' ', letter]
            &&& -unit <= 2 * (10 * n - tenths * unit) <= unit
        }
}

} // verus!
