//! Writing numbers.
use vstd::prelude::*;

verus! {

/// The character of a decimal digit.
pub open spec fn digit(value: nat) -> char {
    (48 + value) as char
}

/// A number in decimal digits, without leading zeros.
pub open spec fn decimal(value: nat) -> Seq<char>
    decreases value,
{
    if value < 10 {
        seq![digit(value)]
    } else {
        decimal(value / 10).push(digit(value % 10))
    }
}

/// A number in decimal digits, with a minus sign where it is negative.
pub open spec fn signed_decimal(value: int) -> Seq<char> {
    if value < 0 {
        seq!['-'] + decimal((-value) as nat)
    } else {
        decimal(value as nat)
    }
}

/// The text of a decimal digit.
fn digit_str(value: u64) -> (text: &'static str)
    requires
        value < 10,
    ensures
        text@ == seq![digit(value as nat)],
{
    proof {
        reveal_strlit("0");
        reveal_strlit("1");
        reveal_strlit("2");
        reveal_strlit("3");
        reveal_strlit("4");
        reveal_strlit("5");
        reveal_strlit("6");
        reveal_strlit("7");
        reveal_strlit("8");
        reveal_strlit("9");
    }
    match value {
        0 => "0",
        1 => "1",
        2 => "2",
        3 => "3",
        4 => "4",
        5 => "5",
        6 => "6",
        7 => "7",
        8 => "8",
        _ => "9",
    }
}

/// Writes a number in decimal digits behind a text.
pub fn append_decimal(text: &mut String, value: u64)
    ensures
        final(text)@ == old(text)@ + decimal(value as nat),
    decreases value,
{
    if value >= 10 {
        append_decimal(text, value / 10);
    }
    text.append(digit_str(value % 10));
    assert(value < 10 ==> value % 10 == value);
    assert(text@ =~= old(text)@ + decimal(value as nat));
}

/// Writes a number in decimal digits behind a text, with a minus sign where it is negative.
pub fn append_signed_decimal(text: &mut String, value: i64)
    ensures
        final(text)@ == old(text)@ + signed_decimal(value as int),
{
    if value < 0 {
        proof {
            reveal_strlit("-");
        }
        text.append("-");
        let magnitude: u64 = (-(value as i128)) as u64;
        append_decimal(text, magnitude);
        assert(text@ =~= old(text)@ + signed_decimal(value as int));
    } else {
        append_decimal(text, value as u64);
    }
}

/// The number that decimal digits say, the first digit weighing most.
pub open spec fn digits_value(digits: Seq<char>) -> int
    decreases digits.len(),
{
    if digits.len() == 0 {
        0
    } else {
        10 * digits_value(digits.drop_last()) + (digits.last() as int - '0' as int)
    }
}

/// Whether a text is how a number is written: decimal digits that say the number, none of them a
/// leading zero.
pub open spec fn says(text: Seq<char>, value: int) -> bool {
    &&& text.len() > 0
    &&& forall|i: int| 0 <= i < text.len() ==> '0' <= #[trigger] text[i] <= '9'
    &&& text.len() > 1 ==> text[0] != '0'
    &&& digits_value(text) == value
}

/// A number that was written reads back as itself.
pub proof fn law_decimal_reads_back(value: nat)
    ensures
        says(decimal(value), value as int),
    decreases value,
{
    assert(digits_value(Seq::<char>::empty()) == 0);
    let digits = decimal(value);
    assert(digits.last() == digit(value % 10));
    assert('0' <= digit(value % 10) <= '9');
    if value >= 10 {
        let before = decimal(value / 10);
        law_decimal_reads_back(value / 10);
        assert(decimal(value).drop_last() =~= before);
        assert(decimal(value)[0] == before[0]);
        assert(before[0] != '0') by {
            if before[0] == '0' {
                assert(before.drop_last() =~= Seq::empty());
                assert(digits_value(before) == 0);
            }
        }
        assert forall|i: int| 0 <= i < digits.len() implies '0' <= #[trigger] digits[i] <= '9' by {
            if i < before.len() {
                assert(digits[i] == before[i]);
            }
        }
    } else {
        assert(decimal(value).drop_last() =~= Seq::empty());
    }
}

/// Writing a number keeps the text, and puts digits that say the number behind it.
pub proof fn law_appended_number_reads_back(text: &mut String, value: u64)
    requires
        call_ensures(append_decimal, (text, value), ()),
    ensures
        final(text)@.len() > old(text)@.len(),
        final(text)@.take(old(text)@.len() as int) == old(text)@,
        says(final(text)@.skip(old(text)@.len() as int), value as int),
{
    law_decimal_reads_back(value as nat);
    assert(final(text)@.skip(old(text)@.len() as int) =~= decimal(value as nat));
    assert(final(text)@.take(old(text)@.len() as int) =~= old(text)@);
}

/// Writing a signed number keeps the text, and puts the number behind it: digits that say it, or
/// a minus sign and digits that say how far it is below zero.
pub proof fn law_appended_signed_number_reads_back(text: &mut String, value: i64)
    requires
        call_ensures(append_signed_decimal, (text, value), ()),
    ensures
        final(text)@.len() > old(text)@.len(),
        final(text)@.take(old(text)@.len() as int) == old(text)@,
        says_signed(final(text)@.skip(old(text)@.len() as int), value as int),
{
    law_signed_decimal_reads_back(value as int);
    assert(final(text)@.skip(old(text)@.len() as int) =~= signed_decimal(value as int));
    assert(final(text)@.take(old(text)@.len() as int) =~= old(text)@);
}

/// Whether a text is how a signed number is written.
pub open spec fn says_signed(text: Seq<char>, value: int) -> bool {
    if value < 0 {
        text.len() > 0 && text[0] == '-' && says(text.skip(1), -value)
    } else {
        says(text, value)
    }
}

/// A signed number that was written reads back as itself.
pub proof fn law_signed_decimal_reads_back(value: int)
    ensures
        says_signed(signed_decimal(value), value),
{
    if value < 0 {
        law_decimal_reads_back((-value) as nat);
        assert(signed_decimal(value).skip(1) =~= decimal((-value) as nat));
    } else {
        law_decimal_reads_back(value as nat);
    }
}

} // verus!
