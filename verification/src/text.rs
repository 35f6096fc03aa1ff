//! Text: numbers in decimal, and lists of symbols.

use vstd::prelude::*;
use vstd::string::StringExecFns;

verus! {

/// [`String::push`] appends one character and leaves the rest of the string as
/// it is.
pub assume_specification[ std::string::String::push ](s: &mut String, ch: char)
    ensures
        final(s)@ == old(s)@.push(ch),
;

/// The decimal digits.
pub const DIGITS: [char; 10] = ['0', '1', '2', '3', '4', '5', '6', '7', '8', '9'];

/// A number in decimal, without leading zeros.
pub open spec fn decimal(n: nat) -> Seq<char>
    decreases n,
{
    if n < 10 {
        seq![DIGITS@[n as int]]
    } else {
        decimal(n / 10).push(DIGITS@[(n % 10) as int])
    }
}

/// A number in decimal.
pub fn digits(n: u32) -> (text: String)
    ensures
        text@ == decimal(n as nat),
    decreases n,
{
    let mut text = if n < 10 {
        String::new()
    } else {
        digits(n / 10)
    };
    text.push(DIGITS[(n % 10) as usize]);
    text
}

/// One text after the other.
pub fn join(first: String, second: &str) -> (text: String)
    ensures
        text@ == first@ + second@,
{
    let mut text = first;
    text.append(second);
    text
}

/// `n` times the same character.
pub open spec fn row_of(ch: char, n: nat) -> Seq<char> {
    Seq::new(n, |i: int| ch)
}

/// `n` times the same character.
pub fn repeated(ch: char, n: u32) -> (text: String)
    ensures
        text@ == row_of(ch, n as nat),
{
    let mut text = String::new();
    let mut i: u32 = 0;
    while i < n
        invariant
            i <= n,
            text@ == row_of(ch, i as nat),
        decreases n - i,
    {
        text.push(ch);
        i = i + 1;
        assert(text@ =~= row_of(ch, i as nat));
    }
    text
}

/// Symbols with a space between each two.
pub open spec fn spaced(symbols: Seq<char>) -> Seq<char> {
    if symbols.len() == 0 {
        seq![]
    } else {
        Seq::new(
            (2 * symbols.len() - 1) as nat,
            |i: int|
                if i % 2 == 0 {
                    symbols[i / 2]
                } else {
                    ' '
                },
        )
    }
}

/// Symbols with a space between each two.
pub fn spaced_out(symbols: &[char]) -> (text: String)
    ensures
        text@ == spaced(symbols@),
{
    let mut text = String::new();
    let mut i: usize = 0;
    while i < symbols.len()
        invariant
            i <= symbols@.len(),
            text@ == spaced(symbols@.take(i as int)),
        decreases symbols@.len() - i,
    {
        if i > 0 {
            text.push(' ');
        }
        text.push(symbols[i]);
        i = i + 1;
        assert(text@ =~= spaced(symbols@.take(i as int)));
    }
    assert(symbols@.take(i as int) =~= symbols@);
    text
}

// ---- laws ----------------------------------------------------------------

/// A digit has one value.
proof fn digits_differ(i: int, j: int)
    requires
        0 <= i < 10,
        0 <= j < 10,
        DIGITS@[i] == DIGITS@[j],
    ensures
        i == j,
{
}

/// Every character of a number in decimal is a digit, and there is one at
/// least.
pub proof fn decimals_are_digits(n: nat, i: int)
    ensures
        decimal(n).len() > 0,
        0 <= i < decimal(n).len() ==> '0' <= decimal(n)[i] <= '9',
    decreases n,
{
    if n >= 10 {
        decimals_are_digits(n / 10, i);
    }
}

/// A number in decimal ends in its last digit, and is longer than that only from
/// ten on.
proof fn last_digit(n: nat)
    ensures
        decimal(n).len() > 0,
        decimal(n).len() == 1 <==> n < 10,
        decimal(n)[decimal(n).len() - 1] == DIGITS@[(n % 10) as int],
{
    decimals_are_digits(n / 10, 0);
}

/// Two numbers in decimal read the same only if they are the same.
pub proof fn decimals_are_unique(n: nat, m: nat)
    requires
        decimal(n) == decimal(m),
    ensures
        n == m,
    decreases n + m,
{
    last_digit(n);
    last_digit(m);
    if n >= 10 && m >= 10 {
        assert(decimal(n).drop_last() =~= decimal(n / 10));
        assert(decimal(m).drop_last() =~= decimal(m / 10));
        decimals_are_unique(n / 10, m / 10);
    }
    digits_differ((n % 10) as int, (m % 10) as int);
}

/// A number above zero does not begin with a zero.
pub proof fn decimals_have_no_leading_zero(n: nat)
    requires
        n > 0,
    ensures
        decimal(n).len() > 0,
        decimal(n)[0] != '0',
    decreases n,
{
    if n >= 10 {
        decimals_have_no_leading_zero(n / 10);
    }
}

/// The number that a row of digits stands for.
pub open spec fn reading(digits: Seq<char>) -> int
    decreases digits.len(),
{
    if digits.len() == 0 {
        0
    } else {
        10 * reading(digits.drop_last()) + (digits.last() as int - '0' as int)
    }
}

/// A number in decimal reads as that number.
pub proof fn decimals_read_as_their_number(n: nat)
    ensures
        reading(decimal(n)) == n,
    decreases n,
{
    assert forall|d: int| 0 <= d < 10 implies #[trigger] DIGITS@[d] as int == '0' as int + d by {}
    if n < 10 {
        assert(decimal(n).drop_last() =~= Seq::<char>::empty());
        assert(reading(decimal(n).drop_last()) == 0);
        assert(decimal(n).last() == DIGITS@[n as int]);
    } else {
        decimals_read_as_their_number(n / 10);
        assert(decimal(n).drop_last() =~= decimal(n / 10));
        assert(decimal(n).last() == DIGITS@[(n % 10) as int]);
    }
}

/// Spaced symbols stand at every other place, in order, with one space between
/// each two and none at the ends.
pub proof fn spaced_symbols_keep_their_order(symbols: Seq<char>, i: int)
    requires
        0 <= i < symbols.len(),
    ensures
        spaced(symbols).len() == 2 * symbols.len() - 1,
        spaced(symbols)[2 * i] == symbols[i],
        i + 1 < symbols.len() ==> spaced(symbols)[2 * i + 1] == ' ',
{
}

} // verus!
