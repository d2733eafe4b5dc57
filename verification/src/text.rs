//! Building strings.

use vstd::prelude::*;

verus! {

/// `String::push` appends the given character to the end of the string and
/// changes nothing before it.
pub assume_specification[ String::push ](text: &mut String, ch: char)
    ensures
        final(text)@ == old(text)@.push(ch),
;

/// The digit for a number below ten.
pub open spec fn digit(value: nat) -> char {
    ((48 + value) as u8) as char
}

/// A number in decimal notation.
pub open spec fn decimal(value: nat) -> Seq<char>
    decreases value,
{
    if value < 10 {
        seq![digit(value)]
    } else {
        decimal(value / 10).push(digit(value % 10))
    }
}

/// The number that a sequence of digits denotes.
pub open spec fn number(digits: Seq<char>) -> nat
    decreases digits.len(),
{
    if digits.len() == 0 {
        0
    } else {
        number(digits.drop_last()) * 10 + ((digits.last() as nat) - 48) as nat
    }
}

/// Append a number in decimal notation.
pub fn push_decimal(text: &mut String, value: u128)
    ensures
        final(text)@ == old(text)@ + decimal(value as nat),
    decreases value,
{
    let ghost before = text@;
    let last: u8 = (value % 10) as u8;
    if value >= 10 {
        push_decimal(text, value / 10);
    }
    text.push((48 + last) as char);
    assert(text@ =~= before + decimal(value as nat));
}

/// Decimal notation consists of digits and denotes the number that it was made of.
pub proof fn law_decimal_reads_back(value: nat)
    ensures
        number(decimal(value)) == value,
        decimal(value).len() > 0,
        forall|i: int| 0 <= i < decimal(value).len() ==> '0' <= #[trigger] decimal(value)[i] <= '9',
    decreases value,
{
    if value < 10 {
        assert(decimal(value).drop_last() =~= Seq::empty());
        assert(number(decimal(value).drop_last()) == 0);
        assert(decimal(value).last() as nat == 48 + value);
    } else {
        law_decimal_reads_back(value / 10);
        assert(decimal(value).drop_last() =~= decimal(value / 10));
    }
}

/// One more digit makes a number ten times as large and adds the digit.
pub proof fn law_digits_count_in_tens(digits: Seq<char>, last: char)
    requires
        '0' <= last <= '9',
    ensures
        number(Seq::empty()) == 0,
        number(digits.push(last)) == number(digits) * 10 + (last as int - '0' as int),
{
    assert(digits.push(last).drop_last() =~= digits);
}

proof fn lemma_leading_digit(digits: Seq<char>)
    requires
        digits.len() > 0,
        forall|i: int| 0 <= i < digits.len() ==> '0' <= #[trigger] digits[i] <= '9',
        digits[0] != '0',
    ensures
        number(digits) > 0,
    decreases digits.len(),
{
    let rest = digits.drop_last();
    if digits.len() > 1 {
        assert forall|i: int| 0 <= i < rest.len() implies '0' <= #[trigger] rest[i] <= '9' by {
            assert(rest[i] == digits[i]);
        }
        assert(rest[0] == digits[0]);
        lemma_leading_digit(rest);
    } else {
        assert(digits.last() == digits[0]);
    }
}

/// Decimal notation is the one way to write a number in digits without a needless zero in
/// front.
pub proof fn law_decimal_is_the_only_notation(digits: Seq<char>)
    requires
        digits.len() > 0,
        forall|i: int| 0 <= i < digits.len() ==> '0' <= #[trigger] digits[i] <= '9',
        digits.len() > 1 ==> digits[0] != '0',
    ensures
        decimal(number(digits)) == digits,
    decreases digits.len(),
{
    let rest = digits.drop_last();
    let last = (digits.last() as nat - 48) as nat;
    assert('0' <= digits[digits.len() - 1] <= '9');
    assert(number(digits) == number(rest) * 10 + last);
    assert(digit(last) == digits.last());
    if digits.len() == 1 {
        assert(number(rest) == 0);
        assert(decimal(number(digits)) =~= digits);
    } else {
        assert forall|i: int| 0 <= i < rest.len() implies '0' <= #[trigger] rest[i] <= '9' by {
            assert(rest[i] == digits[i]);
        }
        assert(rest[0] == digits[0]);
        law_decimal_is_the_only_notation(rest);
        lemma_leading_digit(rest);
        assert(number(digits) / 10 == number(rest));
        assert(number(digits) % 10 == last);
        assert(decimal(number(digits)) =~= digits);
    }
}

/// Decimal notation has no needless zero in front.
pub proof fn law_decimal_has_no_leading_zero(value: nat)
    ensures
        decimal(value)[0] == '0' <==> value == 0,
        value == 0 ==> decimal(value).len() == 1,
    decreases value,
{
    if value >= 10 {
        law_decimal_has_no_leading_zero(value / 10);
        law_decimal_reads_back(value / 10);
        assert(decimal(value)[0] == decimal(value / 10)[0]);
    } else {
        assert(decimal(value)[0] as nat == 48 + value);
    }
}

} // verus!
