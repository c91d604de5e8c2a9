//! Decimal notation of integers.
use vstd::prelude::*;
use vstd::string::StringExecFns;

verus! {

/// The character of one decimal digit.
pub open spec fn digit(d: int) -> char {
    if d == 0 {
        '0'
    } else if d == 1 {
        '1'
    } else if d == 2 {
        '2'
    } else if d == 3 {
        '3'
    } else if d == 4 {
        '4'
    } else if d == 5 {
        '5'
    } else if d == 6 {
        '6'
    } else if d == 7 {
        '7'
    } else if d == 8 {
        '8'
    } else {
        '9'
    }
}

/// The digits of a natural number, most significant first, without leading zeros.
pub open spec fn digits(n: nat) -> Seq<char>
    decreases n,
{
    if n < 10 {
        seq![digit(n as int)]
    } else {
        digits(n / 10).push(digit((n % 10) as int))
    }
}

/// The decimal notation of an integer: a minus sign before the digits of a negative one.
pub open spec fn decimal(value: int) -> Seq<char> {
    if value < 0 {
        seq!['-'] + digits((-value) as nat)
    } else {
        digits(value as nat)
    }
}

fn digit_str(d: u32) -> (r: &'static str)
    requires
        d < 10,
    ensures
        r@ == seq![digit(d as int)],
{
    proof {
        reveal_strlit("0");
        reveal_strlit("1");
        reveal_strlit("2");
        reveal_strlit("3");
        reveal_strlit("4");
        reveal_strlit("5");
        reveal_strlit("6");
        reveal_strlit("7");
        reveal_strlit("8");
        reveal_strlit("9");
    }
    if d == 0 {
        "0"
    } else if d == 1 {
        "1"
    } else if d == 2 {
        "2"
    } else if d == 3 {
        "3"
    } else if d == 4 {
        "4"
    } else if d == 5 {
        "5"
    } else if d == 6 {
        "6"
    } else if d == 7 {
        "7"
    } else if d == 8 {
        "8"
    } else {
        "9"
    }
}

fn render_digits(n: u32) -> (r: String)
    ensures
        r@ == digits(n as nat),
    decreases n,
{
    if n < 10 {
        String::from_str(digit_str(n))
    } else {
        let mut r = render_digits(n / 10);
        r.append(digit_str(n % 10));
        r
    }
}

/// Writes an integer in decimal notation.
pub fn render(value: i32) -> (r: String)
    ensures
        r@ == decimal(value as int),
{
    if value < 0 {
        let wide: i64 = value as i64;
        let magnitude: u32 = (-wide) as u32;
        proof {
            reveal_strlit("-");
        }
        let mut r = String::from_str("-");
        let tail = render_digits(magnitude);
        r.append(tail.as_str());
        r
    } else {
        render_digits(value as u32)
    }
}

/// The notation of an integer is never empty, and only that of a negative one
/// starts with a minus sign.
pub proof fn lemma_decimal_shape(value: int)
    ensures
        decimal(value).len() >= 1,
        decimal(value)[0] == '-' <==> value < 0,
{
    if value < 0 {
        lemma_digits_shape((-value) as nat);
    } else {
        lemma_digits_shape(value as nat);
    }
}

/// The digits of a natural number are at least one, and the first is a digit.
pub proof fn lemma_digits_shape(n: nat)
    ensures
        digits(n).len() >= 1,
        digits(n)[0] != '-',
    decreases n,
{
    if n >= 10 {
        lemma_digits_shape(n / 10);
    }
}

/// A number of two or more digits is at least ten.
pub proof fn lemma_digits_length(n: nat)
    ensures
        digits(n).len() == 1 <==> n < 10,
    decreases n,
{
    if n >= 10 {
        lemma_digits_shape(n / 10);
    }
}

/// Different natural numbers have different digits.
pub proof fn lemma_digits_injective(a: nat, b: nat)
    requires
        digits(a) == digits(b),
    ensures
        a == b,
    decreases a,
{
    lemma_digits_length(a);
    lemma_digits_length(b);
    if a < 10 {
        assert(digits(a)[0] == digit(a as int));
    } else {
        let high_a = digits(a / 10);
        let high_b = digits(b / 10);
        let low_a = digit((a % 10) as int);
        let low_b = digit((b % 10) as int);
        assert(high_a.push(low_a).last() == low_a);
        assert(high_a.push(low_a).drop_last() =~= high_a);
        assert(high_b.push(low_b).drop_last() =~= high_b);
        lemma_digits_injective(a / 10, b / 10);
    }
}

/// Different integers have different notations.
pub proof fn lemma_decimal_injective(a: int, b: int)
    requires
        decimal(a) == decimal(b),
    ensures
        a == b,
{
    lemma_decimal_shape(a);
    lemma_decimal_shape(b);
    if a < 0 {
        let digits_a = digits((-a) as nat);
        let digits_b = digits((-b) as nat);
        assert((seq!['-'] + digits_a).skip(1) =~= digits_a);
        assert((seq!['-'] + digits_b).skip(1) =~= digits_b);
        lemma_digits_injective((-a) as nat, (-b) as nat);
    } else {
        lemma_digits_injective(a as nat, b as nat);
    }
}

/// The notation of an integer starts with a digit or, before at least one
/// digit, with a minus sign: it is none of the one-character tokens `(`,
/// `)`, `+`, `-`, `*` and `/`.
pub proof fn lemma_decimal_is_no_symbol(value: int)
    ensures
        decimal(value) != seq!['('],
        decimal(value) != seq![')'],
        decimal(value) != seq!['+'],
        decimal(value) != seq!['-'],
        decimal(value) != seq!['*'],
        decimal(value) != seq!['/'],
{
    let text = decimal(value);
    if value < 0 {
        lemma_digits_shape((-value) as nat);
        assert(text.len() >= 2);
    } else {
        lemma_digits_first(value as nat);
    }
}

/// The first digit of a natural number is a digit.
pub proof fn lemma_digits_first(n: nat)
    ensures
        exists|d: int| 0 <= d <= 9 && digits(n)[0] == digit(d),
    decreases n,
{
    if n < 10 {
        assert(digits(n)[0] == digit(n as int));
    } else {
        lemma_digits_first(n / 10);
        lemma_digits_shape(n / 10);
        let d = choose|d: int| 0 <= d <= 9 && digits(n / 10)[0] == digit(d);
    }
}

} // verus!
