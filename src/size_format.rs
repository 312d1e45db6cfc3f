use vstd::prelude::*;

verus! {

/// Nearest integer to `n / d`, a tie going to the even neighbour.
pub open spec fn round_div(n: nat, d: nat) -> nat
    recommends
        d > 0,
{
    let q = n / d;
    let r = n % d;
    if 2 * r > d || (2 * r == d && q % 2 == 1) {
        q + 1
    } else {
        q
    }
}

/// The character of a decimal digit.
pub open spec fn digit_char(d: nat) -> char {
    if d == 0 {
        '0'
    } else if d == 1 {
        '1'
    } else if d == 2 {
        '2'
    } else if d == 3 {
        '3'
    } else if d == 4 {
        '4'
    } else if d == 5 {
        '5'
    } else if d == 6 {
        '6'
    } else if d == 7 {
        '7'
    } else if d == 8 {
        '8'
    } else {
        '9'
    }
}

/// The decimal digits of `n`, without leading zeros ("0" for zero).
pub open spec fn decimal(n: nat) -> Seq<char>
    decreases n,
{
    if n < 10 {
        seq![digit_char(n)]
    } else {
        decimal(n / 10).push(digit_char(n % 10))
    }
}

/// `size` counted in units of `scale`, rounded to a whole number, then the unit.
pub open spec fn whole_units(size: nat, scale: nat, prefix: char) -> Seq<char> {
    decimal(round_div(size, scale)) + seq![prefix, 'o']
}

/// `size` counted in units of `scale`, rounded to one decimal place, then the unit.
pub open spec fn tenth_units(size: nat, scale: nat, prefix: char) -> Seq<char> {
    let t = round_div(size, scale / 10);
    decimal(t / 10) + seq!['.', digit_char(t % 10), prefix, 'o']
}

/// The largest byte count that still has a unit; above it the text is "huge".
pub const LARGEST_SIZED: u64 = 999_499_999_999_999_935;

/// The short text of a byte count.
///
/// Below 10 000 the count is written as is, with the unit "o". Each larger unit
/// (K, M, G, T, P: steps of a thousand) takes over where the count, in that
/// unit, rounds to 1.0: from 0.9995 units up to just under 9.95 units it is
/// shown with one decimal, from 9.95 units up to just under 999.5 units as a
/// whole number. Kilo starts at 10 000 bytes with whole numbers. Rounding goes
/// to the nearest value, a tie to the even neighbour.
pub open spec fn size_text(size: nat) -> Seq<char> {
    if size <= 9_999 {
        decimal(size) + seq!['o']
    } else if size <= 999_499 {
        whole_units(size, 1_000, 'K')
    } else if size < 9_950_000 {
        tenth_units(size, 1_000_000, 'M')
    } else if size <= 999_499_999 {
        whole_units(size, 1_000_000, 'M')
    } else if size < 9_950_000_000 {
        tenth_units(size, 1_000_000_000, 'G')
    } else if size <= 999_499_999_999 {
        whole_units(size, 1_000_000_000, 'G')
    } else if size < 9_950_000_000_000 {
        tenth_units(size, 1_000_000_000_000, 'T')
    } else if size <= 999_499_999_999_999 {
        whole_units(size, 1_000_000_000_000, 'T')
    } else if size < 9_950_000_000_000_000 {
        tenth_units(size, 1_000_000_000_000_000, 'P')
    } else if size <= LARGEST_SIZED {
        whole_units(size, 1_000_000_000_000_000, 'P')
    } else {
        seq!['h', 'u', 'g', 'e']
    }
}

fn round_div_exec(n: u64, d: u64) -> (r: u64)
    requires
        d > 0,
        d % 2 == 0,
    ensures
        r == round_div(n as nat, d as nat),
{
    let q = n / d;
    let rem = n % d;
    if rem > d / 2 || (rem == d / 2 && q % 2 == 1) {
        assert(q < u64::MAX) by (nonlinear_arith)
            requires
                d >= 2,
                q == n / d,
        ;
        q + 1
    } else {
        q
    }
}

fn digit_str(d: u64) -> (r: &'static str)
    requires
        d < 10,
    ensures
        r@ == seq![digit_char(d as nat)],
{
    proof {
        reveal_strlit("0");
        reveal_strlit("1");
        reveal_strlit("2");
        reveal_strlit("3");
        reveal_strlit("4");
        reveal_strlit("5");
        reveal_strlit("6");
        reveal_strlit("7");
        reveal_strlit("8");
        reveal_strlit("9");
    }
    if d == 0 {
        "0"
    } else if d == 1 {
        "1"
    } else if d == 2 {
        "2"
    } else if d == 3 {
        "3"
    } else if d == 4 {
        "4"
    } else if d == 5 {
        "5"
    } else if d == 6 {
        "6"
    } else if d == 7 {
        "7"
    } else if d == 8 {
        "8"
    } else {
        "9"
    }
}

pub(crate) fn push_decimal(s: &mut String, n: u64)
    ensures
        final(s)@ == old(s)@ + decimal(n as nat),
    decreases n,
{
    if n >= 10 {
        push_decimal(s, n / 10);
    }
    s.append(digit_str(n % 10));
}

/// Appends `n / scale`, rounded to a whole number.
fn push_whole(s: &mut String, n: u64, scale: u64)
    requires
        scale >= 2,
        scale % 2 == 0,
    ensures
        final(s)@ == old(s)@ + decimal(round_div(n as nat, scale as nat)),
{
    push_decimal(s, round_div_exec(n, scale));
}

/// Appends `n / scale`, rounded to one decimal place.
fn push_tenths(s: &mut String, n: u64, scale: u64)
    requires
        scale >= 20,
        scale % 20 == 0,
    ensures
        ({
            let t = round_div(n as nat, (scale / 10) as nat);
            final(s)@ == old(s)@ + decimal(t / 10) + seq!['.', digit_char(t % 10)]
        }),
{
    let t = round_div_exec(n, scale / 10);
    push_decimal(s, t / 10);
    proof {
        reveal_strlit(".");
    }
    s.append(".");
    s.append(digit_str(t % 10));
}

/// The short, human-readable text of a byte count: `size_text`.
pub fn fit_4(size: u64) -> (r: String)
    ensures
        r@ == size_text(size as nat),
        size > LARGEST_SIZED ==> r@ == seq!['h', 'u', 'g', 'e'],
{
    proof {
        reveal_strlit("o");
        reveal_strlit("Ko");
        reveal_strlit("Mo");
        reveal_strlit("Go");
        reveal_strlit("To");
        reveal_strlit("Po");
        reveal_strlit("huge");
    }
    let mut s = String::new();
    if size <= 9_999 {
        push_decimal(&mut s, size);
        s.append("o");
    } else if size <= 999_499 {
        push_whole(&mut s, size, 1_000);
        s.append("Ko");
    } else if size < 9_950_000 {
        push_tenths(&mut s, size, 1_000_000);
        s.append("Mo");
    } else if size <= 999_499_999 {
        push_whole(&mut s, size, 1_000_000);
        s.append("Mo");
    } else if size < 9_950_000_000 {
        push_tenths(&mut s, size, 1_000_000_000);
        s.append("Go");
    } else if size <= 999_499_999_999 {
        push_whole(&mut s, size, 1_000_000_000);
        s.append("Go");
    } else if size < 9_950_000_000_000 {
        push_tenths(&mut s, size, 1_000_000_000_000);
        s.append("To");
    } else if size <= 999_499_999_999_999 {
        push_whole(&mut s, size, 1_000_000_000_000);
        s.append("To");
    } else if size < 9_950_000_000_000_000 {
        push_tenths(&mut s, size, 1_000_000_000_000_000);
        s.append("Po");
    } else if size <= LARGEST_SIZED {
        push_whole(&mut s, size, 1_000_000_000_000_000);
        s.append("Po");
    } else {
        s.append("huge");
    }
    assert(s@ =~= size_text(size as nat));
    s
}

} // verus!
