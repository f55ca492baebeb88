//! Integers as text: writing in a base, and reading decimal numbers.
use vstd::prelude::*;

verus! {

/// The character that stands for the digit `d`, for `d` below sixteen.
pub open spec fn digit(d: nat) -> char {
    if d < 10 {
        (48 + d) as char
    } else {
        (87 + d) as char
    }
}

/// `n` in base `base`, without leading zeros.
pub open spec fn digits(n: nat, base: nat) -> Seq<char>
    decreases n,
{
    if n < base || base < 2 {
        seq![digit(n)]
    } else {
        proof {
            vstd::arithmetic::div_mod::lemma_div_decreases(n as int, base as int);
        }
        digits(n / base, base).push(digit(n % base))
    }
}

/// `n` in decimal, with a minus sign before it when it is negative.
pub open spec fn decimal(n: int) -> Seq<char> {
    if n < 0 {
        seq!['-'] + digits((-n) as nat, 10)
    } else {
        digits(n as nat, 10)
    }
}

/// Whether `c` is one of the ten decimal digits.
pub open spec fn is_digit(c: char) -> bool {
    '0' <= c <= '9'
}

/// The number that a sequence of decimal digits stands for.
pub open spec fn decimal_value(s: Seq<char>) -> nat
    decreases s.len(),
{
    if s.len() == 0 {
        0
    } else {
        10 * decimal_value(s.drop_last()) + (s.last() as nat - '0' as nat) as nat
    }
}

/// Whether `s` is one or more decimal digits.
pub open spec fn is_number(s: Seq<char>) -> bool {
    s.len() > 0 && forall|i: int| 0 <= i < s.len() ==> is_digit(#[trigger] s[i])
}

/// The number written in `s`: an optional sign, then decimal digits, within the range of `i64`.
pub open spec fn parse_integer(s: Seq<char>) -> Option<i64> {
    let signed = s.len() > 0 && (s[0] == '-' || s[0] == '+');
    let body = if signed {
        s.drop_first()
    } else {
        s
    };
    let value = if signed && s[0] == '-' {
        -(decimal_value(body) as int)
    } else {
        decimal_value(body) as int
    };
    if is_number(body) && i64::MIN <= value <= i64::MAX {
        Some(value as i64)
    } else {
        None
    }
}

/// The character that stands for the digit `d`.
fn digit_char(d: u64) -> (c: char)
    requires
        d < 16,
    ensures
        c == digit(d as nat),
{
    if d < 10 {
        (48 + d as u8) as char
    } else {
        (87 + d as u8) as char
    }
}

/// `n` in base `base`, without leading zeros.
pub fn digits_of(n: u64, base: u64) -> (res: Vec<char>)
    requires
        2 <= base <= 16,
    ensures
        res@ == digits(n as nat, base as nat),
{
    let mut low: Vec<char> = Vec::new();
    let mut rest: u64 = n;
    assert(digits(n as nat, base as nat) =~= digits(rest as nat, base as nat) + low@.reverse());
    while rest >= base
        invariant
            2 <= base <= 16,
            digits(n as nat, base as nat) == digits(rest as nat, base as nat) + low@.reverse(),
        decreases rest,
    {
        let ghost before = low@;
        let ghost m = rest;
        low.push(digit_char(rest % base));
        rest = rest / base;
        proof {
            vstd::arithmetic::div_mod::lemma_div_decreases(m as int, base as int);
            assert(low@.reverse() =~= seq![digit((m % base) as nat)] + before.reverse());
            assert(digits(rest as nat, base as nat) + low@.reverse() =~= digits(
                m as nat,
                base as nat,
            ) + before.reverse());
        }
    }
    low.push(digit_char(rest));
    assert(low@.reverse() =~= digits(n as nat, base as nat));
    let mut res: Vec<char> = Vec::new();
    let mut i: usize = low.len();
    while i > 0
        invariant
            i <= low.len(),
            res@ == low@.reverse().take(low.len() - i),
        decreases i,
    {
        i -= 1;
        res.push(low[i]);
        assert(res@ =~= low@.reverse().take(low.len() - i));
    }
    assert(res@ =~= low@.reverse());
    res
}

/// Reads an optional sign and decimal digits.
pub fn parse_i64(chars: &[char]) -> (res: Option<i64>)
    ensures
        res == parse_integer(chars@),
{
    let signed = chars.len() > 0 && (chars[0] == '-' || chars[0] == '+');
    let start: usize = if signed {
        1
    } else {
        0
    };
    let ghost body = chars@.skip(start as int);
    proof {
        if signed {
            assert(chars@.drop_first() =~= body);
        } else {
            assert(chars@ =~= body);
        }
    }
    if chars.len() == start {
        return None;
    }
    let limit: u128 = 0x8000_0000_0000_0000;
    let mut value: u128 = 0;
    let mut i: usize = start;
    while i < chars.len()
        invariant
            start <= i <= chars.len(),
            body == chars@.skip(start as int),
            signed == (chars@.len() > 0 && (chars@[0] == '-' || chars@[0] == '+')),
            body == (if signed { chars@.drop_first() } else { chars@ }),
            limit == 0x8000_0000_0000_0000,
            forall|k: int| 0 <= k < i - start ==> is_digit(#[trigger] body[k]),
            value <= limit ==> value == decimal_value(body.take(i - start)),
            value > limit ==> decimal_value(body.take(i - start)) > limit,
            value <= 10 * limit + 9,
        decreases chars.len() - i,
    {
        let c = chars[i];
        assert(body[i - start] == c);
        if c < '0' || c > '9' {
            return None;
        }
        assert(body.take(i + 1 - start).drop_last() =~= body.take(i - start));
        if value <= limit {
            value = 10 * value + (c as u32 - '0' as u32) as u128;
        }
        i += 1;
    }
    assert(body.take(body.len() as int) =~= body);
    if signed && chars[0] == '-' {
        if value > limit {
            None
        } else if value == limit {
            Some(i64::MIN)
        } else {
            Some(-(value as i64))
        }
    } else if value >= limit {
        None
    } else {
        Some(value as i64)
    }
}

/// The digits of a number are decimal digits, and stand for that number.
pub proof fn lemma_decimal_value_of_digits(n: nat)
    ensures
        is_number(digits(n, 10)),
        decimal_value(digits(n, 10)) == n,
    decreases n,
{
    let s = digits(n, 10);
    if n < 10 {
        assert(s.drop_last() =~= Seq::empty());
        assert(decimal_value(s.drop_last()) == 0);
        assert(s.last() == digit(n));
        assert(s.last() as nat == 48 + n);
    } else {
        lemma_decimal_value_of_digits(n / 10);
        assert(s.drop_last() =~= digits(n / 10, 10));
        assert(is_digit(digit(n % 10)));
        assert(s.last() as nat == 48 + n % 10);
    }
}

/// Reading a number gives back what writing it wrote.
pub proof fn law_parse_inverts_decimal(n: i64)
    ensures
        parse_integer(decimal(n as int)) == Some(n),
{
    let s = decimal(n as int);
    if n < 0 {
        lemma_decimal_value_of_digits((-n) as nat);
        assert(s.drop_first() =~= digits((-n) as nat, 10));
    } else {
        lemma_decimal_value_of_digits(n as nat);
        assert(is_digit(s[0]));
    }
}

/// Different numbers are written differently.
pub proof fn law_digits_injective(n: nat, m: nat, base: nat)
    requires
        2 <= base <= 16,
        digits(n, base) == digits(m, base),
    ensures
        n == m,
    decreases n,
{
    let s = digits(n, base);
    lemma_digits_len(n, base);
    lemma_digits_len(m, base);
    if n < base || m < base {
        lemma_small_mod_both(n, m, base);
    } else {
        assert(s.last() == digit(n % base));
        assert(digits(m, base).last() == digit(m % base));
        assert(s.drop_last() =~= digits(n / base, base));
        assert(digits(m, base).drop_last() =~= digits(m / base, base));
        vstd::arithmetic::div_mod::lemma_div_decreases(n as int, base as int);
        law_digits_injective(n / base, m / base, base);
        vstd::arithmetic::div_mod::lemma_fundamental_div_mod(n as int, base as int);
        vstd::arithmetic::div_mod::lemma_fundamental_div_mod(m as int, base as int);
        vstd::arithmetic::div_mod::lemma_mod_bound(n as int, base as int);
        vstd::arithmetic::div_mod::lemma_mod_bound(m as int, base as int);
    }
}

/// Only a number below the base has a single digit.
proof fn lemma_digits_len(n: nat, base: nat)
    requires
        2 <= base,
    ensures
        digits(n, base).len() >= 1,
        digits(n, base).len() == 1 <==> n < base,
    decreases n,
{
    if n >= base {
        vstd::arithmetic::div_mod::lemma_div_decreases(n as int, base as int);
        lemma_digits_len(n / base, base);
    }
}

/// Of two numbers of which one is below the base and which have as many digits, both are below it.
proof fn lemma_small_mod_both(n: nat, m: nat, base: nat)
    requires
        2 <= base <= 16,
        n < base || m < base,
        digits(n, base) == digits(m, base),
    ensures
        n == m,
{
    lemma_digits_len(n, base);
    lemma_digits_len(m, base);
    assert(digits(n, base)[0] == digit(n));
    assert(digits(m, base)[0] == digit(m));
}

/// The digits are those of hexadecimal, in small letters.
pub proof fn law_digit(d: nat)
    requires
        d < 16,
    ensures
        digit(d) == "0123456789abcdef"@[d as int],
{
    reveal_strlit("0123456789abcdef");
}

/// A number below the base is its digit; any other is what it holds of the base, written, and then the
/// digit of what is left.
pub proof fn law_digits_step(n: nat, d: nat, base: nat)
    requires
        2 <= base <= 16,
        d < base,
    ensures
        digits(d, base) == seq![digit(d)],
        n > 0 ==> digits(n * base + d, base) == digits(n, base).push(digit(d)),
{
    if n > 0 {
        let m = n * base + d;
        assert(n * base >= base) by (nonlinear_arith)
            requires
                n > 0,
        ;
        vstd::arithmetic::div_mod::lemma_fundamental_div_mod_converse(
            m as int,
            base as int,
            n as int,
            d as int,
        );
    }
}

/// Decimal digits, with or without a sign, are read as the number that they stand for, if it is in the
/// range of `i64`.
pub proof fn law_parse_digits(ds: Seq<int>)
    requires
        ds.len() > 0,
        forall|i: int| 0 <= i < ds.len() ==> 0 <= #[trigger] ds[i] < 10,
    ensures
        ({
            let text = ds.map_values(|d: int| (48 + d) as char);
            let value = ds.fold_left(0int, |value: int, d: int| 10 * value + d);
            &&& value >= 0
            &&& parse_integer(text) == (if value <= i64::MAX {
                Some(value as i64)
            } else {
                None
            })
            &&& parse_integer(seq!['+'] + text) == parse_integer(text)
            &&& parse_integer(seq!['-'] + text) == (if -value >= i64::MIN {
                Some((-value) as i64)
            } else {
                None
            })
        }),
{
    let text = ds.map_values(|d: int| (48 + d) as char);
    lemma_value_of_digits(ds);
    assert forall|i: int| 0 <= i < text.len() implies is_digit(#[trigger] text[i]) by {
        assert(0 <= ds[i] < 10);
    }
    assert(is_digit(text[0]));
    assert((seq!['+'] + text).drop_first() =~= text);
    assert((seq!['-'] + text).drop_first() =~= text);
}

/// Digits stand for the number that comes of taking them in one by one.
proof fn lemma_value_of_digits(ds: Seq<int>)
    requires
        forall|i: int| 0 <= i < ds.len() ==> 0 <= #[trigger] ds[i] < 10,
    ensures
        decimal_value(ds.map_values(|d: int| (48 + d) as char)) == ds.fold_left(
            0int,
            |value: int, d: int| 10 * value + d,
        ),
    decreases ds.len(),
{
    if ds.len() > 0 {
        let text = ds.map_values(|d: int| (48 + d) as char);
        let front = ds.drop_last();
        assert(0 <= ds[ds.len() - 1] < 10);
        assert forall|i: int| 0 <= i < front.len() implies 0 <= #[trigger] front[i] < 10 by {
            assert(0 <= ds[i] < 10);
        }
        lemma_value_of_digits(front);
        assert(text.drop_last() =~= front.map_values(|d: int| (48 + d) as char));
        assert(text.last() as int == 48 + ds.last());
    }
}

/// Only decimal digits, with or without a sign before them, are read as a number.
pub proof fn law_parse_only_digits(s: Seq<char>)
    ensures
        parse_integer(s) is Some ==> ({
            let body = if s.len() > 0 && (s[0] == '-' || s[0] == '+') {
                s.drop_first()
            } else {
                s
            };
            body.len() > 0 && forall|i: int| 0 <= i < body.len() ==> '0' <= #[trigger] body[i] <= '9'
        }),
{
    if parse_integer(s) is Some {
        let body = if s.len() > 0 && (s[0] == '-' || s[0] == '+') {
            s.drop_first()
        } else {
            s
        };
        assert(is_number(body));
        assert forall|i: int| 0 <= i < body.len() implies '0' <= #[trigger] body[i] <= '9' by {
            assert(is_digit(body[i]));
        }
    }
}

} // verus!
