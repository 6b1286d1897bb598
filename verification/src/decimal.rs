//! Decimal numbers as text, in both directions.
use std::num::ParseIntError;
use vstd::prelude::*;

verus! {

/// What `str::parse` reports when a text is not a number.
#[verifier::external_type_specification]
#[verifier::external_body]
pub struct ExParseIntError(std::num::ParseIntError);

/// The character of one decimal digit.
pub open spec fn digit_char(digit: nat) -> char
    recommends
        digit < 10,
{
    ('0' as nat + digit) as char
}

/// The decimal digits of `n`, most significant first, without leading zeros.
pub open spec fn decimal(n: nat) -> Seq<char>
    decreases n,
{
    if n < 10 {
        seq![digit_char(n)]
    } else {
        decimal(n / 10).push(digit_char(n % 10))
    }
}

/// Whether `text` is made of ASCII decimal digits, at least one.
pub open spec fn is_digits(text: Seq<char>) -> bool {
    &&& text.len() > 0
    &&& forall|i: int| 0 <= i < text.len() ==> '0' <= #[trigger] text[i] <= '9'
}

/// The number that a run of decimal digits denotes.
pub open spec fn number(digits: Seq<char>) -> nat
    decreases digits.len(),
{
    if digits.len() == 0 {
        0
    } else {
        number(digits.drop_last()) * 10 + (digits.last() as int - '0' as int) as nat
    }
}

/// `text` without the plus sign that it may start with.
pub open spec fn unsigned(text: Seq<char>) -> Seq<char> {
    if text.len() > 0 && text[0] == '+' {
        text.skip(1)
    } else {
        text
    }
}

/// The `u32` that `text` denotes: an optional plus sign and then digits only, in range.
pub open spec fn parsed_u32(text: Seq<char>) -> Option<u32> {
    if is_digits(unsigned(text)) && number(unsigned(text)) <= u32::MAX {
        Some(number(unsigned(text)) as u32)
    } else {
        None
    }
}

/// What `str::parse::<u32>` reports of a text that it does not accept.
pub uninterp spec fn parse_error(text: Seq<char>) -> ParseIntError;

/// Calls `str::parse::<u32>`. Trusted: it accepts exactly an optional `+` followed by one or more
/// ASCII decimal digits whose value fits a `u32`, and gives that value. Of another text it reports an
/// error that depends on the text alone.
#[verifier::external_body]
pub(crate) fn parse_u32(text: &str) -> (parsed: Result<u32, ParseIntError>)
    ensures
        match parsed {
            Ok(n) => parsed_u32(text@) == Some(n),
            Err(error) => parsed_u32(text@) is None && error == parse_error(text@),
        },
{
    text.parse::<u32>()
}

fn digit_text(digit: u32) -> (text: &'static str)
    requires
        digit < 10,
    ensures
        text@ == seq![digit_char(digit as nat)],
{
    proof {
        reveal_strlit("0");
        reveal_strlit("1");
        reveal_strlit("2");
        reveal_strlit("3");
        reveal_strlit("4");
        reveal_strlit("5");
        reveal_strlit("6");
        reveal_strlit("7");
        reveal_strlit("8");
        reveal_strlit("9");
    }
    match digit {
        0 => "0",
        1 => "1",
        2 => "2",
        3 => "3",
        4 => "4",
        5 => "5",
        6 => "6",
        7 => "7",
        8 => "8",
        _ => "9",
    }
}

/// Writes `n` in decimal.
pub fn to_decimal(n: u32) -> (text: String)
    ensures
        text@ == decimal(n as nat),
    decreases n,
{
    if n < 10 {
        digit_text(n).to_owned()
    } else {
        let mut text = to_decimal(n / 10);
        text.append(digit_text(n % 10));
        assert(text@ =~= decimal(n as nat));
        text
    }
}

pub(crate) proof fn lemma_decimal_denotes(n: nat)
    ensures
        is_digits(decimal(n)),
        number(decimal(n)) == n,
    decreases n,
{
    if n < 10 {
        let text = decimal(n);
        assert(text.drop_last() =~= Seq::empty());
        assert(number(text.drop_last()) == 0);
    } else {
        let text = decimal(n);
        lemma_decimal_denotes(n / 10);
        assert(text.drop_last() =~= decimal(n / 10));
    }
}

/// Reading back a written number gives that number.
pub proof fn law_decimal_reads_back(n: u32)
    ensures
        parsed_u32(decimal(n as nat)) == Some(n),
{
    lemma_decimal_denotes(n as nat);
    assert('0' <= decimal(n as nat)[0] <= '9');
    assert(unsigned(decimal(n as nat)) == decimal(n as nat));
}

/// Two numbers that are written the same are the same.
pub proof fn law_decimal_is_injective(m: nat, n: nat)
    requires
        decimal(m) == decimal(n),
    ensures
        m == n,
{
    lemma_decimal_denotes(m);
    lemma_decimal_denotes(n);
}

/// A number below ten is written as its digit. One more digit behind a number is written behind it.
pub proof fn law_decimal_is_positional(n: nat, digit: nat)
    requires
        digit < 10,
    ensures
        decimal(digit) == seq![('0' as nat + digit) as char],
        n > 0 ==> decimal(n * 10 + digit) == decimal(n).push(('0' as nat + digit) as char),
{
    if n > 0 {
        assert((n * 10 + digit) / 10 == n);
        assert((n * 10 + digit) % 10 == digit);
    }
}

/// A single digit denotes itself.
pub proof fn law_one_digit_is_read(c: char)
    requires
        '0' <= c <= '9',
    ensures
        parsed_u32(seq![c]) == Some((c as int - '0' as int) as u32),
{
    let text = seq![c];
    assert(unsigned(text) == text);
    assert(text.drop_last() =~= Seq::empty());
    reveal_with_fuel(number, 2);
}

/// One more digit behind a number makes it ten times as large and adds the digit. What does not fit
/// is no number.
pub proof fn law_one_more_digit_is_read(text: Seq<char>, c: char)
    requires
        '0' <= c <= '9',
        parsed_u32(text) is Some,
    ensures
        parsed_u32(text.push(c)) == (if parsed_u32(text)->0 * 10 + (c as int - '0' as int)
            <= u32::MAX {
            Some((parsed_u32(text)->0 * 10 + (c as int - '0' as int)) as u32)
        } else {
            None
        }),
{
    lemma_push_digit(text, c);
}

/// A run of digits that is too large stays so with one more digit.
pub proof fn law_too_large_stays_too_large(text: Seq<char>, c: char)
    requires
        '0' <= c <= '9',
        text.len() > 0,
        forall|i: int| 0 <= i < text.len() ==> '0' <= #[trigger] text[i] <= '9',
        parsed_u32(text) is None,
    ensures
        parsed_u32(text.push(c)) is None,
{
    assert('0' <= text[0] <= '9');
    assert(unsigned(text) == text);
    lemma_push_digit(text, c);
}

proof fn lemma_push_digit(text: Seq<char>, c: char)
    requires
        '0' <= c <= '9',
        is_digits(unsigned(text)),
    ensures
        unsigned(text.push(c)) == unsigned(text).push(c),
        is_digits(unsigned(text).push(c)),
        number(unsigned(text).push(c)) == number(unsigned(text)) * 10 + (c as int - '0' as int),
{
    let digits = unsigned(text);
    assert(unsigned(text.push(c)) =~= digits.push(c));
    assert(digits.push(c).drop_last() =~= digits);
}

/// A plus sign in front of digits changes nothing.
pub proof fn law_plus_sign_is_skipped(text: Seq<char>)
    requires
        text.len() > 0,
        forall|i: int| 0 <= i < text.len() ==> '0' <= #[trigger] text[i] <= '9',
    ensures
        parsed_u32(seq!['+'] + text) == parsed_u32(text),
{
    assert('0' <= text[0] <= '9');
    assert(unsigned(text) == text);
    assert(unsigned(seq!['+'] + text) =~= text);
}

/// What holds anything but digits, a plus sign in front aside, is no number; nor is what holds none.
pub proof fn law_other_text_is_no_number(text: Seq<char>, i: int)
    requires
        text.len() == 0 || text == seq!['+'] || (0 <= i < text.len() && !('0' <= text[i] <= '9')
            && !(i == 0 && text[i] == '+')),
    ensures
        parsed_u32(text) is None,
{
    if 0 <= i < text.len() && !('0' <= text[i] <= '9') {
        if text[0] == '+' {
            if i > 0 {
                assert(unsigned(text)[i - 1] == text[i]);
            }
        } else {
            assert(unsigned(text)[i] == text[i]);
        }
    }
}

} // verus!
