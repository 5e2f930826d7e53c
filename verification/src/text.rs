//! Integers as text: what the standard library reads and writes.

use vstd::prelude::*;
use crate::model::Datum;
use crate::types::Value;

verus! {

/// The value of a decimal digit.
pub open spec fn digit_value(c: char) -> Option<int> {
    if '0' as int <= c as int <= '9' as int {
        Some(c as int - '0' as int)
    } else {
        None
    }
}

/// The number that a sequence of decimal digits writes; `None` where a
/// character is no digit.
pub open spec fn digits_value(digits: Seq<char>) -> Option<int>
    decreases digits.len(),
{
    if digits.len() == 0 {
        Some(0)
    } else {
        match (digits_value(digits.drop_last()), digit_value(digits.last())) {
            (Some(v), Some(d)) => Some(10 * v + d),
            _ => None,
        }
    }
}

/// The integer that a text is the literal of: an optional `+` or `-`, then
/// one or more decimal digits, and nothing else; `None` where the text has
/// another form or the number does not fit 64 bits.
pub open spec fn parsed_integer(text: Seq<char>) -> Option<i64> {
    let negative = text.len() > 0 && text[0] == '-';
    let signed = text.len() > 0 && (text[0] == '-' || text[0] == '+');
    let digits = if signed {
        text.skip(1)
    } else {
        text
    };
    if digits.len() == 0 {
        None
    } else {
        match digits_value(digits) {
            Some(v) => {
                let x = if negative {
                    -v
                } else {
                    v
                };
                if i64::MIN <= x <= i64::MAX {
                    Some(x as i64)
                } else {
                    None
                }
            },
            None => None,
        }
    }
}

/// The character of a decimal digit.
pub open spec fn digit_char(d: nat) -> char {
    ((d + 48) as u8) as char
}

/// The decimal digits of a number, without leading zeros.
pub open spec fn digits_text(v: nat) -> Seq<char>
    decreases v,
{
    if v < 10 {
        seq![digit_char(v)]
    } else {
        digits_text(v / 10).push(digit_char(v % 10))
    }
}

/// The decimal text of an integer: its digits without leading zeros, behind
/// a `-` where it is negative.
pub open spec fn decimal_text(i: i64) -> Seq<char> {
    if i < 0 {
        seq!['-'] + digits_text((-(i as int)) as nat)
    } else {
        digits_text(i as nat)
    }
}

/// `str::parse::<i64>`: the integer that the text is the literal of, if it
/// is one: the text must be an optional sign followed by decimal digits
/// only, and the number must fit; anything else is an error of the parse,
/// which comes back as `None`.
#[verifier::external_body]
pub(crate) fn parse_integer(text: &String) -> (r: Option<i64>)
    ensures
        r == parsed_integer(text@),
{
    text.parse::<i64>().ok()
}

/// `i64::to_string`: the decimal text of the integer, as `Display` writes
/// integers: the digits without leading zeros, behind a `-` where the
/// integer is negative.
#[verifier::external_body]
pub(crate) fn integer_to_string(i: i64) -> (r: String)
    ensures
        r@ == decimal_text(i),
{
    i.to_string()
}

/// What a cell of a relation stands for, given what its text parses to: the
/// integer if there is one, else the text itself.
pub open spec fn typed_datum(text: Seq<char>, parsed: Option<i64>) -> Datum {
    match parsed {
        Some(i) => Datum::Int(i),
        None => Datum::Text(text),
    }
}

/// What an operand of a comparison stands for, given what its text parses
/// to: the integer if there is one, else a reference to the column of that
/// name.
pub open spec fn typed_operand(text: Seq<char>, parsed: Option<i64>) -> Datum {
    match parsed {
        Some(i) => Datum::Int(i),
        None => Datum::Column(text),
    }
}

/// The value of a cell whose text parses to `parsed`.
pub fn typed_cell(text: String, parsed: Option<i64>) -> (r: Value)
    ensures
        r@ == typed_datum(text@, parsed),
{
    match parsed {
        Some(i) => Value::Int(i),
        None => Value::Str(text),
    }
}

/// The operand whose text parses to `parsed`.
pub fn typed_attribute(text: String, parsed: Option<i64>) -> (r: Value)
    ensures
        r@ == typed_operand(text@, parsed),
{
    match parsed {
        Some(i) => Value::Int(i),
        None => Value::Column(text),
    }
}

/// The value of a cell: an integer if the text is a 64-bit integer
/// literal, else the text.
pub fn cell_value(text: String) -> (r: Value)
    ensures
        r@ == typed_datum(text@, parsed_integer(text@)),
{
    let parsed = parse_integer(&text);
    typed_cell(text, parsed)
}

/// The operand of a comparison: an integer if the text is a 64-bit
/// integer literal, else a reference to the column of that name.
pub fn attribute_value(text: String) -> (r: Value)
    ensures
        r@ == typed_operand(text@, parsed_integer(text@)),
{
    let parsed = parse_integer(&text);
    typed_attribute(text, parsed)
}

/// The digits of a number are digits, and write the number.
pub proof fn lemma_digits_round_trip(v: nat)
    ensures
        digits_text(v).len() > 0,
        digits_value(digits_text(v)) == Some(v as int),
        digit_value(digits_text(v)[0]) is Some,
    decreases v,
{
    if v < 10 {
        let c = digit_char(v);
        assert(c as int == v + 48);
        assert(digits_text(v).drop_last() =~= Seq::<char>::empty());
        assert(digits_value(Seq::<char>::empty()) == Some(0int));
    } else {
        lemma_digits_round_trip(v / 10);
        let c = digit_char(v % 10);
        assert(c as int == v % 10 + 48);
        assert(digits_text(v).drop_last() =~= digits_text(v / 10));
        assert(digits_text(v)[0] == digits_text(v / 10)[0]);
    }
}

/// The decimal text of an integer is the literal of that integer: what is
/// written as an integer is read as the same integer.
pub proof fn law_integer_round_trip(i: i64)
    ensures
        parsed_integer(decimal_text(i)) == Some(i),
{
    let text = decimal_text(i);
    if i < 0 {
        let v = (-(i as int)) as nat;
        lemma_digits_round_trip(v);
        assert(text.skip(1) =~= digits_text(v));
        assert(text[0] == '-');
    } else {
        lemma_digits_round_trip(i as nat);
        assert(digit_value(text[0]) is Some);
        assert(text[0] != '-' && text[0] != '+');
    }
}

} // verus!
