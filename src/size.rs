//! Human-readable byte sizes.

use vstd::prelude::*;

verus! {

/// `1024` raised to the power `k`.
pub open spec fn pow1024(k: nat) -> nat
    decreases k,
{
    if k == 0 {
        1
    } else {
        1024 * pow1024((k - 1) as nat)
    }
}

/// The unit index at or above `k` that a size of `size` bytes is shown in:
/// the largest index up to 5 whose unit does not exceed the size.
pub open spec fn unit_from(size: nat, k: nat) -> nat
    decreases 5 - k,
{
    if k < 5 && size >= pow1024(k + 1) {
        unit_from(size, k + 1)
    } else {
        k
    }
}

/// The unit a size of `size` bytes is shown in: 0 for B up to 5 for PB.
pub open spec fn unit_of(size: nat) -> nat {
    unit_from(size, 0)
}

/// The name of unit `k`.
pub open spec fn unit_name(k: nat) -> Seq<char> {
    if k == 0 {
        seq!['B']
    } else if k == 1 {
        seq!['K', 'B']
    } else if k == 2 {
        seq!['M', 'B']
    } else if k == 3 {
        seq!['G', 'B']
    } else if k == 4 {
        seq!['T', 'B']
    } else {
        seq!['P', 'B']
    }
}

/// The decimal digit for `d < 10`.
pub open spec fn digit_char(d: nat) -> char {
    if d == 0 {
        '0'
    } else if d == 1 {
        '1'
    } else if d == 2 {
        '2'
    } else if d == 3 {
        '3'
    } else if d == 4 {
        '4'
    } else if d == 5 {
        '5'
    } else if d == 6 {
        '6'
    } else if d == 7 {
        '7'
    } else if d == 8 {
        '8'
    } else {
        '9'
    }
}

/// `n` written in decimal, without leading zeros.
pub open spec fn decimal(n: nat) -> Seq<char>
    decreases n,
{
    if n < 10 {
        seq![digit_char(n)]
    } else {
        decimal(n / 10) + seq![digit_char(n % 10)]
    }
}

/// `n / d` in hundredths, rounded to the nearest, ties to the even neighbour.
pub open spec fn hundredths(n: nat, d: nat) -> nat
    recommends
        d > 0,
{
    let q = (n * 100) / d;
    let r = (n * 100) % d;
    if 2 * r > d || (2 * r == d && q % 2 == 1) {
        q + 1
    } else {
        q
    }
}

/// The text for `size` bytes: whole bytes below 1024, otherwise the size in
/// the largest fitting unit up to PB with two decimals.
pub open spec fn size_text(size: nat) -> Seq<char> {
    let k = unit_of(size);
    if k == 0 {
        decimal(size) + seq![' '] + unit_name(0)
    } else {
        let h = hundredths(size, pow1024(k));
        decimal(h / 100) + seq!['.', digit_char((h % 100) / 10), digit_char(h % 10), ' ']
            + unit_name(k)
    }
}

fn digit_str(d: u128) -> (r: &'static str)
    requires
        d < 10,
    ensures
        r@ == seq![digit_char(d as nat)],
{
    proof {
        reveal_strlit("0");
        reveal_strlit("1");
        reveal_strlit("2");
        reveal_strlit("3");
        reveal_strlit("4");
        reveal_strlit("5");
        reveal_strlit("6");
        reveal_strlit("7");
        reveal_strlit("8");
        reveal_strlit("9");
    }
    if d == 0 {
        "0"
    } else if d == 1 {
        "1"
    } else if d == 2 {
        "2"
    } else if d == 3 {
        "3"
    } else if d == 4 {
        "4"
    } else if d == 5 {
        "5"
    } else if d == 6 {
        "6"
    } else if d == 7 {
        "7"
    } else if d == 8 {
        "8"
    } else {
        "9"
    }
}

fn unit_str(k: u128) -> (r: &'static str)
    requires
        k <= 5,
    ensures
        r@ == unit_name(k as nat),
{
    proof {
        reveal_strlit("B");
        reveal_strlit("KB");
        reveal_strlit("MB");
        reveal_strlit("GB");
        reveal_strlit("TB");
        reveal_strlit("PB");
    }
    if k == 0 {
        "B"
    } else if k == 1 {
        "KB"
    } else if k == 2 {
        "MB"
    } else if k == 3 {
        "GB"
    } else if k == 4 {
        "TB"
    } else {
        "PB"
    }
}

/// Appends `n` in decimal to `out`.
pub fn push_decimal(out: &mut String, n: u128)
    ensures
        final(out)@ == old(out)@ + decimal(n as nat),
    decreases n,
{
    if n < 10 {
        out.append(digit_str(n));
    } else {
        push_decimal(out, n / 10);
        out.append(digit_str(n % 10));
        proof {
            assert(final(out)@ =~= old(out)@ + decimal(n as nat));
        }
    }
}

/// Renders a byte count for display: `0 B`, `1.50 KB`, `1.00 GB`.
pub fn format_size(size: u64) -> (r: String)
    ensures
        r@ == size_text(size as nat),
{
    let n: u128 = size as u128;
    let mut k: u128 = 0;
    let mut d: u128 = 1;
    proof {
        reveal_with_fuel(pow1024, 6);
    }
    while k < 5 && n >= d * 1024
        invariant
            k <= 5,
            d == pow1024(k as nat),
            d <= 1125899906842624,
            k < 5 ==> d <= 1099511627776,
            unit_from(n as nat, k as nat) == unit_of(n as nat),
        decreases 5 - k,
    {
        proof {
            reveal_with_fuel(pow1024, 6);
        }
        d = d * 1024;
        k = k + 1;
        assert(k < 5 ==> d <= 1099511627776) by {
            reveal_with_fuel(pow1024, 6);
        }
    }
    let mut out = String::new();
    if k == 0 {
        push_decimal(&mut out, n);
        proof {
            reveal_strlit(" ");
        }
        out.append(" ");
        out.append(unit_str(k));
    } else {
        let scaled: u128 = n * 100;
        let q: u128 = scaled / d;
        let r: u128 = scaled % d;
        let h: u128 = if 2 * r > d || (2 * r == d && q % 2 == 1) {
            q + 1
        } else {
            q
        };
        assert(h == hundredths(n as nat, d as nat));
        push_decimal(&mut out, h / 100);
        proof {
            reveal_strlit(".");
            reveal_strlit(" ");
        }
        out.append(".");
        out.append(digit_str((h % 100) / 10));
        out.append(digit_str(h % 10));
        out.append(" ");
        out.append(unit_str(k));
    }
    proof {
        assert(out@ =~= size_text(size as nat));
    }
    out
}

} // verus!
