//! Numbers as text, and a message that tells them.
use vstd::prelude::*;
use vstd::string::*;

use crate::types::Quantity;

verus! {

/// A decimal digit as a character.
pub open spec fn digit(d: nat) -> char {
    ('0' as u32 + d) as char
}

/// The decimal digits of a number, without leading zeros.
pub open spec fn decimal(n: nat) -> Seq<char>
    decreases n,
{
    if n < 10 {
        seq![digit(n)]
    } else {
        decimal(n / 10).push(digit(n % 10))
    }
}

/// Returns a digit as text.
fn digit_text(d: u64) -> (text: &'static str)
    requires
        d < 10,
    ensures
        text@ == seq![digit(d as nat)],
{
    proof {
        reveal_strlit("0");
        reveal_strlit("1");
        reveal_strlit("2");
        reveal_strlit("3");
        reveal_strlit("4");
        reveal_strlit("5");
        reveal_strlit("6");
        reveal_strlit("7");
        reveal_strlit("8");
        reveal_strlit("9");
    }
    match d {
        0 => "0",
        1 => "1",
        2 => "2",
        3 => "3",
        4 => "4",
        5 => "5",
        6 => "6",
        7 => "7",
        8 => "8",
        _ => "9",
    }
}

/// Puts a number's decimal digits at the end of a text.
pub(crate) fn append_decimal(text: &mut String, n: u64)
    ensures
        final(text)@ == old(text)@ + decimal(n as nat),
    decreases n,
{
    if n >= 10 {
        append_decimal(text, n / 10);
    }
    text.append(digit_text(n % 10));
}

/// The message that tells of too small an output.
pub open spec fn slippage_message(output: Quantity, least: Quantity) -> Seq<char> {
    "slippage: "@ + decimal(output as nat) + " < "@ + decimal(least as nat)
}

/// Returns the message that tells of too small an output.
pub(crate) fn tell_slippage(output: Quantity, least: Quantity) -> (message: String)
    ensures
        message@ == slippage_message(output, least),
{
    let mut message: String = "slippage: ".to_string();
    append_decimal(&mut message, output);
    message.append(" < ");
    append_decimal(&mut message, least);
    message
}

/// The number that decimal digits stand for.
pub open spec fn value_of(digits: Seq<char>) -> int
    decreases digits.len(),
{
    if digits.len() == 0 {
        0
    } else {
        value_of(digits.drop_last()) * 10 + (digits.last() as int - '0' as int)
    }
}

/// The text of a number reads as that number: it has digits only, they stand for the number, and
/// the first is not zero unless it is the only one.
pub proof fn law_decimal_reads_as_the_number(n: nat)
    ensures
        value_of(decimal(n)) == n,
        decimal(n).len() > 0,
        forall|i: int|
            0 <= i < decimal(n).len() ==> '0' as int <= #[trigger] decimal(n)[i] as int <= '9' as int,
        decimal(n).len() > 1 ==> decimal(n)[0] != '0',
    decreases n,
{
    reveal_with_fuel(value_of, 2);
    if n >= 10 {
        law_decimal_reads_as_the_number(n / 10);
        assert(decimal(n).drop_last() == decimal(n / 10));
        assert(decimal(n)[0] == decimal(n / 10)[0]);
        if n / 10 < 10 {
            assert(decimal(n / 10) == seq![digit(n / 10)]);
            assert(n / 10 > 0);
        } else {
            assert(decimal(n / 10).len() > 1) by {
                law_decimal_reads_as_the_number(n / 10 / 10);
            }
        }
        assert forall|i: int| 0 <= i < decimal(n).len() implies '0' as int
            <= #[trigger] decimal(n)[i] as int <= '9' as int by {
            if i < decimal(n / 10).len() {
                assert(decimal(n)[i] == decimal(n / 10)[i]);
            }
        }
    } else {
        assert(seq![digit(n)].drop_last().len() == 0);
    }
}

} // verus!
