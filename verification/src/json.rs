use vstd::prelude::*;

verus! {

/// The decimal digit for `d` (`0 <= d < 10`).
pub open spec fn digit_char(d: int) -> char {
    seq!['0', '1', '2', '3', '4', '5', '6', '7', '8', '9'][d]
}

/// The lowercase hexadecimal digit for `d` (`0 <= d < 16`).
pub open spec fn hex_char(d: int) -> char {
    seq!['0', '1', '2', '3', '4', '5', '6', '7', '8', '9', 'a', 'b', 'c', 'd', 'e', 'f'][d]
}

/// The decimal digits of `n`, without leading zeros.
pub open spec fn decimal_digits(n: nat) -> Seq<char>
    decreases n,
{
    if n < 10 {
        seq![digit_char(n as int)]
    } else {
        decimal_digits(n / 10).push(digit_char((n % 10) as int))
    }
}

/// An integer in decimal, with a leading `-` when it is negative.
pub open spec fn decimal(i: int) -> Seq<char> {
    if i < 0 {
        seq!['-'] + decimal_digits((-i) as nat)
    } else {
        decimal_digits(i as nat)
    }
}

/// The items one after the other, separated by commas.
pub open spec fn join_commas(items: Seq<Seq<char>>) -> Seq<char>
    decreases items.len(),
{
    if items.len() == 0 {
        Seq::empty()
    } else if items.len() == 1 {
        items[0]
    } else {
        join_commas(items.drop_last()) + seq![','] + items.last()
    }
}

/// The compact JSON text of an array of integers, such as `[0,1,-2]`.
pub open spec fn json_int_array(v: Seq<i32>) -> Seq<char> {
    seq!['['] + join_commas(v.map_values(|x: i32| decimal(x as int))) + seq![']']
}

/// How one character is written inside a JSON string: quote and backslash are
/// escaped, control characters take their short escape or `\u00XX`, and every other
/// character stands as it is.
pub open spec fn json_escape(c: char) -> Seq<char> {
    if c == '"' {
        seq!['\\', '"']
    } else if c == '\\' {
        seq!['\\', '\\']
    } else if c == '\u{08}' {
        seq!['\\', 'b']
    } else if c == '\u{0C}' {
        seq!['\\', 'f']
    } else if c == '\n' {
        seq!['\\', 'n']
    } else if c == '\r' {
        seq!['\\', 'r']
    } else if c == '\t' {
        seq!['\\', 't']
    } else if (c as int) < 0x20 {
        seq!['\\', 'u', '0', '0', hex_char((c as int) / 16), hex_char((c as int) % 16)]
    } else {
        seq![c]
    }
}

/// The escaped characters of `s`, one after the other.
pub open spec fn json_escape_all(s: Seq<char>) -> Seq<char>
    decreases s.len(),
{
    if s.len() == 0 {
        Seq::empty()
    } else {
        json_escape_all(s.drop_last()) + json_escape(s.last())
    }
}

/// The JSON text of a string: its escaped characters between double quotes.
pub open spec fn json_string(s: Seq<char>) -> Seq<char> {
    seq!['"'] + json_escape_all(s) + seq!['"']
}

/// The compact JSON text of an array of strings, such as `["a","b"]`.
pub open spec fn json_string_array(v: Seq<Seq<char>>) -> Seq<char> {
    seq!['['] + join_commas(v.map_values(|s: Seq<char>| json_string(s))) + seq![']']
}

/// What `serde_json::from_str::<[i32; 6]>` makes of a text: the six integers of a JSON
/// array of six integers, or nothing when the text is not one.
pub uninterp spec fn parsed_int_array6(text: Seq<char>) -> Option<Seq<i32>>;

/// What `serde_json::from_str::<Vec<String>>` makes of a text: the strings of a JSON
/// array of strings, or nothing when the text is not one.
pub uninterp spec fn parsed_string_array(text: Seq<char>) -> Option<Seq<Seq<char>>>;

/// `serde_json::to_string` on six integers. It writes the compact JSON array of their
/// decimal forms, and reading that text back gives the same integers. Serializing
/// integers into a string cannot fail, so the result is always there.
#[verifier::external_body]
pub(crate) fn int_array_to_json(values: &[i32; 6]) -> (r: String)
    ensures
        r@ == json_int_array(values@),
        parsed_int_array6(r@) == Some(values@),
{
    serde_json::to_string(values).unwrap()
}

/// `serde_json::from_str::<[i32; 6]>`: the integers, when `text` is a JSON array of six
/// of them.
#[verifier::external_body]
pub(crate) fn int_array_from_json(text: &str) -> (r: Option<[i32; 6]>)
    ensures
        match r {
            Some(a) => parsed_int_array6(text@) == Some(a@),
            None => parsed_int_array6(text@) is None,
        },
{
    serde_json::from_str::<[i32; 6]>(text).ok()
}

/// `serde_json::to_string` on a list of strings. It writes the compact JSON array of
/// the escaped strings, and reading that text back gives the same strings. Serializing
/// strings cannot fail, so the result is always there.
#[verifier::external_body]
pub(crate) fn strings_to_json(values: &[String]) -> (r: String)
    ensures
        r@ == json_string_array(values.deep_view()),
        parsed_string_array(r@) == Some(values.deep_view()),
{
    serde_json::to_string(values).unwrap()
}

/// `serde_json::from_str::<Vec<String>>`: the strings, when `text` is a JSON array of
/// strings.
#[verifier::external_body]
pub(crate) fn strings_from_json(text: &str) -> (r: Option<Vec<String>>)
    ensures
        match r {
            Some(v) => parsed_string_array(text@) == Some(v.deep_view()),
            None => parsed_string_array(text@) is None,
        },
{
    serde_json::from_str::<Vec<String>>(text).ok()
}

} // verus!
