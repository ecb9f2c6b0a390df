//! Unsigned decimal numbers in text.

use vstd::prelude::*;
use crate::text::chars_of;

verus! {

/// Why a text is not a number that fits.
#[derive(Clone, Copy, Debug, PartialEq, Eq, Structural)]
pub enum NumberFault {
    /// The text is empty.
    Empty,
    /// A character that is not a decimal digit stands where a digit belongs.
    InvalidDigit,
    /// The number is larger than the largest one that is accepted.
    TooLarge,
}

/// Whether `c` is an ASCII decimal digit.
pub open spec fn is_digit(c: char) -> bool {
    '0' <= c <= '9'
}

/// The value of an ASCII decimal digit.
pub open spec fn digit_value(c: char) -> nat {
    (c as int - '0' as int) as nat
}

/// What reading the digits `s` gives when the digits before them had the value `value`: the
/// number, or the first fault that is met from left to right.
pub open spec fn read_digits(s: Seq<char>, value: nat, max: nat) -> Result<nat, NumberFault>
    decreases s.len(),
{
    if s.len() == 0 {
        Ok(value)
    } else if !is_digit(s[0]) {
        Err(NumberFault::InvalidDigit)
    } else if value * 10 + digit_value(s[0]) > max {
        Err(NumberFault::TooLarge)
    } else {
        read_digits(s.drop_first(), value * 10 + digit_value(s[0]), max)
    }
}

/// What reading `s` as a number of at most `max` gives: digits, with one `+` allowed before them.
pub open spec fn read_number(s: Seq<char>, max: nat) -> Result<nat, NumberFault> {
    if s.len() == 0 {
        Err(NumberFault::Empty)
    } else if s[0] == '+' {
        if s.len() == 1 {
            Err(NumberFault::InvalidDigit)
        } else {
            read_digits(s.drop_first(), 0, max)
        }
    } else {
        read_digits(s, 0, max)
    }
}

/// Reads `s` as a number of at most `max`.
pub fn parse_number(s: &str, max: u64) -> (res: Result<u64, NumberFault>)
    ensures
        match res {
            Ok(n) => read_number(s@, max as nat) == Ok::<nat, NumberFault>(n as nat),
            Err(fault) => read_number(s@, max as nat) == Err::<nat, NumberFault>(fault),
        },
{
    let chars = chars_of(s);
    if chars.len() == 0 {
        return Err(NumberFault::Empty);
    }
    let mut i: usize = 0;
    if chars[0] == '+' {
        if chars.len() == 1 {
            return Err(NumberFault::InvalidDigit);
        }
        i = 1;
    }
    let mut value: u64 = 0;
    assert(chars@.skip(0) =~= chars@);
    assert(chars@.skip(1) =~= chars@.drop_first());
    while i < chars.len()
        invariant
            chars@ == s@,
            i <= chars@.len(),
            value <= max,
            read_number(chars@, max as nat) == read_digits(
                chars@.skip(i as int),
                value as nat,
                max as nat,
            ),
        decreases chars@.len() - i,
    {
        let c: char = chars[i];
        assert(chars@.skip(i as int)[0] == c);
        assert(chars@.skip(i as int).drop_first() =~= chars@.skip(i + 1));
        if c < '0' || '9' < c {
            return Err(NumberFault::InvalidDigit);
        }
        let digit: u32 = c as u32 - '0' as u32;
        let next: u128 = (value as u128) * 10 + (digit as u128);
        if next > max as u128 {
            return Err(NumberFault::TooLarge);
        }
        value = next as u64;
        i += 1;
    }
    Ok(value)
}

/// Reads `s` as a number of 64 bits.
pub fn parse_u64(s: &str) -> (res: Result<u64, NumberFault>)
    ensures
        match res {
            Ok(n) => read_number(s@, u64::MAX as nat) == Ok::<nat, NumberFault>(n as nat),
            Err(fault) => read_number(s@, u64::MAX as nat) == Err::<nat, NumberFault>(fault),
        },
{
    parse_number(s, u64::MAX)
}

/// Reads `s` as a number of 32 bits.
pub fn parse_u32(s: &str) -> (res: Result<u32, NumberFault>)
    ensures
        match res {
            Ok(n) => read_number(s@, u32::MAX as nat) == Ok::<nat, NumberFault>(n as nat),
            Err(fault) => read_number(s@, u32::MAX as nat) == Err::<nat, NumberFault>(fault),
        },
{
    match parse_number(s, u32::MAX as u64) {
        Ok(n) => {
            proof {
                lemma_number_is_bounded(s@, u32::MAX as nat);
            }
            Ok(n as u32)
        },
        Err(fault) => Err(fault),
    }
}

/// The decimal digit of `d`.
pub open spec fn digit_char(d: nat) -> char {
    ('0' as int + d) as char
}

/// The decimal digits of `n`, without leading zeros.
pub open spec fn decimal(n: nat) -> Seq<char>
    decreases n,
{
    if n < 10 {
        seq![digit_char(n)]
    } else {
        decimal(n / 10).push(digit_char(n % 10))
    }
}

/// Writes `n` in decimal digits.
pub fn decimal_text(n: u64) -> (res: String)
    ensures
        res@ == decimal(n as nat),
    decreases n,
{
    let digit: u8 = (n % 10) as u8;
    let c: char = (48 + digit) as char;
    let mut s = if n < 10 {
        String::new()
    } else {
        decimal_text(n / 10)
    };
    s.push(c);
    s
}

proof fn lemma_number_is_bounded(s: Seq<char>, max: nat)
    ensures
        read_number(s, max) matches Ok(n) ==> n <= max,
{
    if s.len() > 0 {
        lemma_digits_are_bounded(s, 0, max);
        lemma_digits_are_bounded(s.drop_first(), 0, max);
    }
}

proof fn lemma_digits_are_bounded(s: Seq<char>, value: nat, max: nat)
    requires
        value <= max,
    ensures
        read_digits(s, value, max) matches Ok(n) ==> value <= n <= max,
    decreases s.len(),
{
    if s.len() > 0 && is_digit(s[0]) && value * 10 + digit_value(s[0]) <= max {
        lemma_digits_are_bounded(s.drop_first(), value * 10 + digit_value(s[0]), max);
    }
}

/// The value of a text of decimal digits.
pub open spec fn decimal_value(s: Seq<char>) -> nat
    decreases s.len(),
{
    if s.len() == 0 {
        0
    } else {
        decimal_value(s.drop_last()) * 10 + digit_value(s.last())
    }
}

/// `s` without one `+` at its start, if it has one.
pub open spec fn without_plus(s: Seq<char>) -> Seq<char> {
    if s.len() > 0 && s[0] == '+' {
        s.drop_first()
    } else {
        s
    }
}

/// A text is read as the number `n` exactly when, after at most one `+`, it consists of at least
/// one digit and of digits only, and its decimal value is `n` and at most `max`.
pub proof fn law_number_is_its_decimal_value(s: Seq<char>, max: nat, n: nat)
    ensures
        read_number(s, max) == Ok::<nat, NumberFault>(n) <==> {
            &&& without_plus(s).len() > 0
            &&& forall|i: int|
                0 <= i < without_plus(s).len() ==> is_digit(#[trigger] without_plus(s)[i])
            &&& decimal_value(without_plus(s)) == n
            &&& n <= max
        },
{
    let body = without_plus(s);
    assert(decimal_value(seq![]) == 0);
    if body.len() > 0 {
        lemma_digits_value(seq![], body, max, n);
        assert(seq![] + body =~= body);
    }
}

proof fn lemma_digits_value(done: Seq<char>, rest: Seq<char>, max: nat, n: nat)
    requires
        decimal_value(done) <= max,
    ensures
        read_digits(rest, decimal_value(done), max) == Ok::<nat, NumberFault>(n) <==> {
            &&& forall|i: int| 0 <= i < rest.len() ==> is_digit(rest[i])
            &&& decimal_value(done + rest) == n
            &&& n <= max
        },
    decreases rest.len(),
{
    if rest.len() == 0 {
        assert(done + rest =~= done);
    } else {
        let c = rest[0];
        let tail = rest.drop_first();
        let next = done.push(c);
        assert(next.drop_last() =~= done);
        assert(next + tail =~= done + rest);
        lemma_value_grows(next, tail);
        if is_digit(c) && decimal_value(next) <= max {
            lemma_digits_value(next, tail, max, n);
            assert forall|i: int| 0 <= i < rest.len() && (forall|j: int|
                0 <= j < tail.len() ==> is_digit(tail[j])) implies is_digit(rest[i]) by {
                if i > 0 {
                    assert(is_digit(tail[i - 1]));
                }
            }
        }
    }
}

proof fn lemma_value_grows(done: Seq<char>, rest: Seq<char>)
    ensures
        decimal_value(done) <= decimal_value(done + rest),
    decreases rest.len(),
{
    if rest.len() == 0 {
        assert(done + rest =~= done);
    } else {
        lemma_value_grows(done, rest.drop_last());
        assert((done + rest).drop_last() =~= done + rest.drop_last());
    }
}

/// The decimal digits of a number are read back as that number.
pub proof fn law_decimal_is_read_back(n: nat, max: nat)
    requires
        n <= max,
    ensures
        read_number(decimal(n), max) == Ok::<nat, NumberFault>(n),
{
    lemma_decimal(n);
    law_number_is_its_decimal_value(decimal(n), max, n);
    assert(is_digit(decimal(n)[0]));
}

proof fn lemma_decimal(n: nat)
    ensures
        decimal(n).len() > 0,
        forall|i: int| 0 <= i < decimal(n).len() ==> is_digit(decimal(n)[i]),
        decimal_value(decimal(n)) == n,
    decreases n,
{
    if n < 10 {
        assert(decimal(n).drop_last() =~= seq![]);
        assert(decimal_value(seq![]) == 0);
    } else {
        lemma_decimal(n / 10);
        assert(decimal(n).drop_last() =~= decimal(n / 10));
    }
}

/// A text that is empty is no number, and one character is a number exactly if it is a digit that
/// is not too large. A plus sign before a character changes nothing.
pub proof fn law_number_starts_with_a_digit(c: char, max: nat)
    ensures
        read_number(seq![], max) == Err::<nat, NumberFault>(NumberFault::Empty),
        !('0' <= c <= '9') ==> read_number(seq![c], max) == Err::<nat, NumberFault>(
            NumberFault::InvalidDigit,
        ),
        '0' <= c <= '9' && c as int - '0' as int > max ==> read_number(seq![c], max) == Err::<
            nat,
            NumberFault,
        >(NumberFault::TooLarge),
        '0' <= c <= '9' && c as int - '0' as int <= max ==> read_number(seq![c], max) == Ok::<
            nat,
            NumberFault,
        >((c as int - '0' as int) as nat),
        read_number(seq!['+', c], max) == read_number(seq![c], max),
{
    reveal_with_fuel(read_digits, 2);
    assert(seq![c].drop_first() =~= seq![]);
    assert(seq!['+', c].drop_first() =~= seq![c]);
}

/// A character more makes ten times the number and the value of the digit, if it is a digit and the
/// result is not too large. What is wrong with a text stays wrong, whatever follows it.
pub proof fn law_number_grows_by_a_digit(s: Seq<char>, c: char, max: nat)
    requires
        s.len() > 0,
        s != seq!['+'],
    ensures
        match read_number(s, max) {
            Err(fault) => read_number(s.push(c), max) == Err::<nat, NumberFault>(fault),
            Ok(n) => {
                let value = n * 10 + (c as int - '0' as int);
                &&& !('0' <= c <= '9') ==> read_number(s.push(c), max) == Err::<nat, NumberFault>(
                    NumberFault::InvalidDigit,
                )
                &&& '0' <= c <= '9' && value > max ==> read_number(s.push(c), max) == Err::<
                    nat,
                    NumberFault,
                >(NumberFault::TooLarge)
                &&& '0' <= c <= '9' && value <= max ==> read_number(s.push(c), max) == Ok::<
                    nat,
                    NumberFault,
                >(value as nat)
            },
        },
{
    if s[0] == '+' {
        if s.len() == 1 {
            assert(s =~= seq!['+']);
        }
        assert(s.push(c).drop_first() =~= s.drop_first().push(c));
        lemma_one_digit_more(s.drop_first(), c, 0, max);
    } else {
        lemma_one_digit_more(s, c, 0, max);
    }
}

proof fn lemma_one_digit_more(s: Seq<char>, c: char, value: nat, max: nat)
    ensures
        read_digits(s.push(c), value, max) == match read_digits(s, value, max) {
            Ok(n) => read_digits(seq![c], n, max),
            Err(fault) => Err(fault),
        },
        forall|n: nat| #[trigger]
            read_digits(seq![c], n, max) == if !is_digit(c) {
                Err::<nat, NumberFault>(NumberFault::InvalidDigit)
            } else if n * 10 + digit_value(c) > max {
                Err(NumberFault::TooLarge)
            } else {
                Ok((n * 10 + digit_value(c)) as nat)
            },
    decreases s.len(),
{
    reveal_with_fuel(read_digits, 2);
    assert(seq![c].drop_first() =~= seq![]);
    if s.len() == 0 {
        assert(s.push(c) =~= seq![c]);
    } else {
        assert(s.push(c).drop_first() =~= s.drop_first().push(c));
        if is_digit(s[0]) && value * 10 + digit_value(s[0]) <= max {
            lemma_one_digit_more(s.drop_first(), c, value * 10 + digit_value(s[0]), max);
        }
    }
}

/// A number is written with digits alone, and with no zero before them.
pub proof fn law_decimal_has_digits_alone(n: nat)
    ensures
        decimal(n).len() > 0,
        forall|i: int| 0 <= i < decimal(n).len() ==> '0' <= #[trigger] decimal(n)[i] <= '9',
        decimal(n)[0] == '0' ==> n == 0 && decimal(n).len() == 1,
    decreases n,
{
    if n >= 10 {
        law_decimal_has_digits_alone(n / 10);
        lemma_decimal(n);
        assert forall|i: int| 0 <= i < decimal(n).len() implies '0' <= #[trigger] decimal(n)[i]
            <= '9' by {
            assert(is_digit(decimal(n)[i]));
        }
        assert(decimal(n)[0] == decimal(n / 10)[0]);
    }
}

} // verus!
