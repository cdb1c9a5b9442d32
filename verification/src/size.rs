//! Byte counts as text: as a plain decimal number, or scaled to a binary unit.
//!
//! A count below 1024 is written as it is. A larger one is divided by the
//! largest power of 1024 that does not exceed it (by 1024^8 at most) and
//! written with one digit behind the point and the unit's label, as in
//! `1.5 KiB`. The digit is rounded to the nearest tenth; a value that lies
//! midway between two tenths goes to the even one.

use vstd::prelude::*;
use vstd::string::StringExecFns;

verus! {

/// The character of the decimal digit `d`.
pub open spec fn digit(d: nat) -> char {
    if d == 0 {
        '0'
    } else if d == 1 {
        '1'
    } else if d == 2 {
        '2'
    } else if d == 3 {
        '3'
    } else if d == 4 {
        '4'
    } else if d == 5 {
        '5'
    } else if d == 6 {
        '6'
    } else if d == 7 {
        '7'
    } else if d == 8 {
        '8'
    } else {
        '9'
    }
}

/// The number that a digit character stands for; zero for any other character.
pub open spec fn digit_value(c: char) -> nat {
    if c == '1' {
        1
    } else if c == '2' {
        2
    } else if c == '3' {
        3
    } else if c == '4' {
        4
    } else if c == '5' {
        5
    } else if c == '6' {
        6
    } else if c == '7' {
        7
    } else if c == '8' {
        8
    } else if c == '9' {
        9
    } else {
        0
    }
}

/// Whether `c` is one of the ten digit characters.
pub open spec fn is_digit(c: char) -> bool {
    exists|d: nat| d < 10 && c == #[trigger] digit(d)
}

/// `n` in decimal, without sign, padding or leading zeros.
pub open spec fn decimal(n: nat) -> Seq<char>
    decreases n,
{
    if n < 10 {
        seq![digit(n)]
    } else {
        decimal(n / 10).push(digit(n % 10))
    }
}

/// The number that a text of digits denotes.
pub open spec fn decimal_value(s: Seq<char>) -> nat
    decreases s.len(),
{
    if s.len() == 0 {
        0
    } else {
        10 * decimal_value(s.drop_last()) + digit_value(s.last())
    }
}

/// 1024 to the power `k`: the number of bytes in one unit of index `k`.
pub open spec fn unit_size(k: nat) -> nat
    decreases k,
{
    if k == 0 {
        1
    } else {
        1024 * unit_size((k - 1) as nat)
    }
}

/// The index of the unit in which `b` bytes are shown: the largest `k`, up
/// to 8, with `1024^k <= b`; zero below 1024.
pub open spec fn unit_index(b: nat) -> nat {
    if b < unit_size(1) {
        0
    } else if b < unit_size(2) {
        1
    } else if b < unit_size(3) {
        2
    } else if b < unit_size(4) {
        3
    } else if b < unit_size(5) {
        4
    } else if b < unit_size(6) {
        5
    } else if b < unit_size(7) {
        6
    } else if b < unit_size(8) {
        7
    } else {
        8
    }
}

/// The label of the unit of index `k`; the unit of index 0 has none.
pub open spec fn unit_label(k: nat) -> Seq<char> {
    if k == 0 {
        Seq::empty()
    } else if k == 1 {
        seq!['K', 'i', 'B']
    } else if k == 2 {
        seq!['M', 'i', 'B']
    } else if k == 3 {
        seq!['G', 'i', 'B']
    } else if k == 4 {
        seq!['T', 'i', 'B']
    } else if k == 5 {
        seq!['P', 'i', 'B']
    } else if k == 6 {
        seq!['E', 'i', 'B']
    } else if k == 7 {
        seq!['Z', 'i', 'B']
    } else {
        seq!['Y', 'i', 'B']
    }
}

/// `n / d` rounded to the nearest whole number, a tie going to the even one.
pub open spec fn round_half_even(n: nat, d: nat) -> nat {
    let q = n / d;
    let r = n % d;
    if 2 * r > d || (2 * r == d && q % 2 == 1) {
        q + 1
    } else {
        q
    }
}

/// `b` bytes in tenths of its unit, rounded.
pub open spec fn scaled_tenths(b: nat) -> nat {
    round_half_even(10 * b, unit_size(unit_index(b)))
}

/// A number of tenths with the unit's label: whole part, point, one digit,
/// a space, the label.
pub open spec fn scaled_text(tenths: nat, k: nat) -> Seq<char> {
    decimal(tenths / 10) + seq!['.', digit(tenths % 10), ' '] + unit_label(k)
}

/// The text that shows `b` bytes in human-readable form.
pub open spec fn size_text(b: nat) -> Seq<char> {
    if unit_index(b) == 0 {
        decimal(b)
    } else {
        scaled_text(scaled_tenths(b), unit_index(b))
    }
}

/// The sizes of the units, written out.
pub proof fn lemma_unit_sizes()
    ensures
        unit_size(0) == 1,
        unit_size(1) == 0x400,
        unit_size(2) == 0x10_0000,
        unit_size(3) == 0x4000_0000,
        unit_size(4) == 0x100_0000_0000,
        unit_size(5) == 0x4_0000_0000_0000,
        unit_size(6) == 0x1000_0000_0000_0000,
        unit_size(7) == 0x1000_0000_0000_0000 * 0x400,
        unit_size(8) == 0x1000_0000_0000_0000 * 0x10_0000,
{
    reveal_with_fuel(unit_size, 10);
}

/// A decimal text holds digits only, and denotes the number it was made from.
pub proof fn lemma_decimal(n: nat)
    ensures
        decimal(n).len() >= 1,
        forall|i: int| 0 <= i < decimal(n).len() ==> is_digit(#[trigger] decimal(n)[i]),
        decimal_value(decimal(n)) == n,
        n > 0 ==> decimal(n)[0] != '0',
    decreases n,
{
    if n < 10 {
        let s = decimal(n);
        assert(s[0] == digit(n));
        assert(s.drop_last() =~= Seq::<char>::empty());
        assert(decimal_value(s.drop_last()) == 0);
        assert(decimal_value(s) == digit_value(digit(n)));
    } else {
        let front = decimal(n / 10);
        let s = decimal(n);
        lemma_decimal(n / 10);
        assert(s.drop_last() =~= front);
        assert(s.last() == digit(n % 10));
        assert(decimal_value(s) == 10 * (n / 10) + digit_value(digit(n % 10)));
        assert forall|i: int| 0 <= i < s.len() implies is_digit(#[trigger] s[i]) by {
            if i < front.len() {
                assert(s[i] == front[i]);
            } else {
                assert(s[i] == digit(n % 10));
            }
        }
        assert(s[0] == front[0]);
    }
}

/// Below 1024 bytes the text is the byte count itself, in decimal, with
/// nothing behind it.
pub proof fn lemma_small_size(b: nat)
    requires
        b < 1024,
    ensures
        size_text(b) == decimal(b),
        forall|i: int| 0 <= i < size_text(b).len() ==> is_digit(#[trigger] size_text(b)[i]),
        decimal_value(size_text(b)) == b,
{
    lemma_unit_sizes();
    lemma_decimal(b);
}

/// Rounding to the nearest whole number misses the quotient by half at most.
pub proof fn lemma_round_half_even(n: nat, d: nat)
    requires
        d > 0,
    ensures
        2 * (round_half_even(n, d) * d - n) <= d,
        2 * (n - round_half_even(n, d) * d) <= d,
{
    let q = n / d;
    let r = n % d;
    assert(n == q * d + r && 0 <= r < d) by (nonlinear_arith)
        requires
            d > 0,
            q == n / d,
            r == n % d,
    ;
    assert((q + 1) * d == q * d + d) by (nonlinear_arith);
}

/// From 1024 bytes on, the text shows the count in the unit of its
/// magnitude: the unit of index `k` for `1024^k <= b < 1024^(k+1)`, and the
/// last unit for everything from 1024^8 on. It has exactly one digit behind
/// the point, and the number shown lies within half a tenth of the count.
pub proof fn lemma_scaled_size(b: nat, k: nat)
    requires
        1 <= k <= 8,
        unit_size(k) <= b,
        k < 8 ==> b < unit_size(k + 1),
    ensures
        unit_index(b) == k,
        size_text(b) == decimal(scaled_tenths(b) / 10) + seq![
            '.',
            digit(scaled_tenths(b) % 10),
            ' ',
        ] + unit_label(k),
        unit_label(k).len() == 3,
        2 * (scaled_tenths(b) * unit_size(k) - 10 * b) <= unit_size(k),
        2 * (10 * b - scaled_tenths(b) * unit_size(k)) <= unit_size(k),
        scaled_tenths(b) >= 10,
        k < 8 ==> scaled_tenths(b) <= 10240,
{
    lemma_unit_sizes();
    let d = unit_size(k);
    lemma_round_half_even(10 * b, d);
    let t = scaled_tenths(b);
    assert(t == round_half_even(10 * b, d));
    assert(t >= 10) by (nonlinear_arith)
        requires
            d > 0,
            b >= d,
            2 * (10 * b - t * d) <= d,
    ;
    if k < 8 {
        assert(b < 1024 * d);
        assert(t <= 10240) by (nonlinear_arith)
            requires
                d > 0,
                b < 1024 * d,
                2 * (t * d - 10 * b) <= d,
        ;
    }
}

/// The text of one decimal digit.
fn digit_text(d: u64) -> (s: &'static str)
    requires
        d < 10,
    ensures
        s@ == seq![digit(d as nat)],
{
    proof {
        reveal_strlit("0");
        reveal_strlit("1");
        reveal_strlit("2");
        reveal_strlit("3");
        reveal_strlit("4");
        reveal_strlit("5");
        reveal_strlit("6");
        reveal_strlit("7");
        reveal_strlit("8");
        reveal_strlit("9");
    }
    let s = if d == 0 {
        "0"
    } else if d == 1 {
        "1"
    } else if d == 2 {
        "2"
    } else if d == 3 {
        "3"
    } else if d == 4 {
        "4"
    } else if d == 5 {
        "5"
    } else if d == 6 {
        "6"
    } else if d == 7 {
        "7"
    } else if d == 8 {
        "8"
    } else {
        "9"
    };
    assert(s@ =~= seq![digit(d as nat)]);
    s
}

/// The label of the unit of index `k`.
fn label_text(k: usize) -> (s: &'static str)
    requires
        1 <= k <= 8,
    ensures
        s@ == unit_label(k as nat),
{
    proof {
        reveal_strlit("KiB");
        reveal_strlit("MiB");
        reveal_strlit("GiB");
        reveal_strlit("TiB");
        reveal_strlit("PiB");
        reveal_strlit("EiB");
        reveal_strlit("ZiB");
        reveal_strlit("YiB");
    }
    let s = if k == 1 {
        "KiB"
    } else if k == 2 {
        "MiB"
    } else if k == 3 {
        "GiB"
    } else if k == 4 {
        "TiB"
    } else if k == 5 {
        "PiB"
    } else if k == 6 {
        "EiB"
    } else if k == 7 {
        "ZiB"
    } else {
        "YiB"
    };
    assert(s@ =~= unit_label(k as nat));
    s
}

/// `n` in decimal.
pub fn decimal_string(n: u64) -> (s: String)
    ensures
        s@ == decimal(n as nat),
    decreases n,
{
    if n < 10 {
        String::from_str(digit_text(n))
    } else {
        let mut s = decimal_string(n / 10);
        s.append(digit_text(n % 10));
        assert(s@ =~= decimal((n / 10) as nat).push(digit((n % 10) as nat)));
        s
    }
}

/// A byte count in human-readable form.
///
/// Below 1024 the result is the count in decimal, with no unit, no padding
/// and no space. From 1024 on it is the count scaled to its unit, with one
/// digit behind the point, a space and the unit's label.
pub fn size_fmt(len: u64) -> (s: String)
    ensures
        s@ == size_text(len as nat),
{
    proof {
        lemma_unit_sizes();
    }
    if len < 1024 {
        return decimal_string(len);
    }
    let (k, scale): (usize, u64) = if len < 0x10_0000 {
        (1, 0x400)
    } else if len < 0x4000_0000 {
        (2, 0x10_0000)
    } else if len < 0x100_0000_0000 {
        (3, 0x4000_0000)
    } else if len < 0x4_0000_0000_0000 {
        (4, 0x100_0000_0000)
    } else if len < 0x1000_0000_0000_0000 {
        (5, 0x4_0000_0000_0000)
    } else {
        (6, 0x1000_0000_0000_0000)
    };
    assert(unit_index(len as nat) == k);
    assert(scale == unit_size(k as nat));
    let n: u128 = 10 * (len as u128);
    let wide: u128 = scale as u128;
    let q: u128 = n / wide;
    let r: u128 = n % wide;
    let up = 2 * r > wide || (2 * r == wide && q % 2 == 1);
    proof {
        lemma_scaled_size(len as nat, k as nat);
        assert(scaled_tenths(len as nat) == if up {
            q + 1
        } else {
            q as int
        });
    }
    let t: u128 = if up {
        q + 1
    } else {
        q
    };
    let t: u64 = t as u64;
    let mut s = decimal_string(t / 10);
    s.append(".");
    s.append(digit_text(t % 10));
    s.append(" ");
    s.append(label_text(k));
    proof {
        reveal_strlit(".");
        reveal_strlit(" ");
        assert("."@ =~= seq!['.']);
        assert(" "@ =~= seq![' ']);
        assert(s@ =~= scaled_text(t as nat, k as nat));
    }
    s
}

} // verus!
