//! Text at the edges of the broker: what a producer types, what a consumer shows, and
//! the numbers on a command line.

use vstd::arithmetic::power::{lemma_pow0, pow};
use vstd::prelude::*;
use vstd::slice::slice_to_vec;
use vstd::utf8::{
    decode_utf8, encode_utf8, encode_utf8_decode_utf8, encode_utf8_valid_utf8, valid_utf8,
};

verus! {

/// The characters with the Unicode property `White_Space`.
pub open spec fn is_white_space(c: char) -> bool {
    let u = c as u32;
    ||| 0x0009 <= u <= 0x000D
    ||| u == 0x0020
    ||| u == 0x0085
    ||| u == 0x00A0
    ||| u == 0x1680
    ||| 0x2000 <= u <= 0x200A
    ||| u == 0x2028
    ||| u == 0x2029
    ||| u == 0x202F
    ||| u == 0x205F
    ||| u == 0x3000
}

/// The text without the white space at its front.
pub open spec fn front_trimmed(text: Seq<char>) -> Seq<char>
    decreases text.len(),
{
    if text.len() > 0 && is_white_space(text.first()) {
        front_trimmed(text.drop_first())
    } else {
        text
    }
}

/// The text without the white space at its back.
pub open spec fn back_trimmed(text: Seq<char>) -> Seq<char>
    decreases text.len(),
{
    if text.len() > 0 && is_white_space(text.last()) {
        back_trimmed(text.drop_last())
    } else {
        text
    }
}

/// The text without the white space at its two ends.
pub open spec fn trimmed(text: Seq<char>) -> Seq<char> {
    back_trimmed(front_trimmed(text))
}

/// A decimal digit.
pub open spec fn is_digit(c: char) -> bool {
    '0' <= c <= '9'
}

/// A row of decimal digits, at least one.
pub open spec fn all_digits(text: Seq<char>) -> bool {
    &&& text.len() > 0
    &&& forall|i: int| 0 <= i < text.len() ==> is_digit(#[trigger] text[i])
}

/// The number that a row of decimal digits stands for.
pub open spec fn decimal_value(digits: Seq<char>) -> nat
    decreases digits.len(),
{
    if digits.len() == 0 {
        0
    } else {
        decimal_value(digits.drop_last()) * 10 + (digits.last() as u32 - '0' as u32) as nat
    }
}

/// The number that a text stands for: an optional plus sign followed by at least one
/// decimal digit and nothing else, with a value that fits in 64 bits.
pub open spec fn parsed_number(text: Seq<char>) -> Option<u64> {
    let digits = if text.len() > 0 && text.first() == '+' {
        text.drop_first()
    } else {
        text
    };
    if all_digits(digits) && decimal_value(digits) <= u64::MAX {
        Some(decimal_value(digits) as u64)
    } else {
        None
    }
}

/// The text that bytes stand for when what is not UTF-8 in them is shown as replacement
/// characters.
pub uninterp spec fn lossy_text(bytes: Seq<u8>) -> Seq<char>;

/// Calls `str::trim`, which takes away all characters with the property `White_Space` at
/// both ends.
#[verifier::external_body]
fn trim(text: &str) -> (rest: &str)
    ensures
        rest@ == trimmed(text@),
{
    text.trim()
}

/// Calls `str::parse` for `u64`, which takes an optional plus sign followed by digits only
/// and fails on anything else, on the empty text and on a number that is too large.
#[verifier::external_body]
pub(crate) fn parse_number(text: &str) -> (number: Option<u64>)
    ensures
        number == parsed_number(text@),
{
    text.parse::<u64>().ok()
}

/// Calls `String::from_utf8_lossy`. Valid UTF-8 comes out as the text it encodes; how other
/// bytes are replaced is not said.
#[verifier::external_body]
fn from_utf8_lossy(bytes: &[u8]) -> (text: String)
    ensures
        text@ == lossy_text(bytes@),
        valid_utf8(bytes@) ==> text@ == decode_utf8(bytes@),
{
    String::from_utf8_lossy(bytes).into_owned()
}

/// The message that a typed line stands for: its text without the white space around it,
/// in UTF-8. A line of nothing but white space is no message.
pub fn message_of_line(line: &str) -> (message: Option<Vec<u8>>)
    ensures
        match message {
            Some(bytes) => trimmed(line@).len() > 0 && bytes@ == encode_utf8(trimmed(line@)),
            None => trimmed(line@).len() == 0,
        },
{
    let text = trim(line);
    if text.is_empty() {
        return None;
    }
    Some(slice_to_vec(text.as_bytes()))
}

/// The text as which a message is shown.
pub fn text_of_message(message: &Vec<u8>) -> (text: String)
    ensures
        text@ == lossy_text(message@),
        valid_utf8(message@) ==> text@ == decode_utf8(message@),
{
    from_utf8_lossy(message.as_slice())
}

/// What is typed is what is shown: the message that a typed text makes is valid UTF-8, and
/// it decodes to the typed text.
pub proof fn shown_text_is_typed_text(text: Seq<char>)
    ensures
        valid_utf8(encode_utf8(trimmed(text))),
        decode_utf8(encode_utf8(trimmed(text))) == trimmed(text),
{
    encode_utf8_valid_utf8(trimmed(text));
    encode_utf8_decode_utf8(trimmed(text));
}

/// How much white space stands at the front of a text.
proof fn lemma_front_trimmed(text: Seq<char>) -> (start: int)
    ensures
        0 <= start <= text.len(),
        front_trimmed(text) == text.skip(start),
        forall|k: int| 0 <= k < start ==> is_white_space(#[trigger] text[k]),
        start < text.len() ==> !is_white_space(text[start]),
    decreases text.len(),
{
    if text.len() > 0 && is_white_space(text.first()) {
        let rest = text.drop_first();
        let start: int = lemma_front_trimmed(rest);
        assert(rest.skip(start) =~= text.skip(start + 1));
        assert forall|k: int| 0 <= k < start + 1 implies is_white_space(#[trigger] text[k]) by {
            if k > 0 {
                assert(rest[k - 1] == text[k]);
            }
        }
        start + 1
    } else {
        assert(text.skip(0) =~= text);
        0
    }
}

/// Where the white space at the back of a text starts.
proof fn lemma_back_trimmed(text: Seq<char>) -> (end: int)
    ensures
        0 <= end <= text.len(),
        back_trimmed(text) == text.take(end),
        forall|k: int| end <= k < text.len() ==> is_white_space(#[trigger] text[k]),
        0 < end ==> !is_white_space(text[end - 1]),
    decreases text.len(),
{
    if text.len() > 0 && is_white_space(text.last()) {
        let rest = text.drop_last();
        let end: int = lemma_back_trimmed(rest);
        assert(rest.take(end) =~= text.take(end));
        assert forall|k: int| end <= k < text.len() implies is_white_space(#[trigger] text[k]) by {
            if k < rest.len() {
                assert(rest[k] == text[k]);
            }
        }
        end
    } else {
        assert(text.take(text.len() as int) =~= text);
        text.len() as int
    }
}

/// Trimming takes away the white space at the two ends and nothing else: what is left is the
/// part of the text between two places, with nothing but white space outside and none at its
/// own ends. Nothing is left exactly if all of the text is white space.
pub proof fn trimming_takes_only_ends(text: Seq<char>) -> (places: (int, int))
    ensures
        ({
            let (start, end) = places;
            &&& 0 <= start <= end <= text.len()
            &&& trimmed(text) == text.subrange(start, end)
            &&& forall|k: int|
                0 <= k < start || end <= k < text.len() ==> is_white_space(#[trigger] text[k])
            &&& start < end ==> !is_white_space(text[start]) && !is_white_space(text[end - 1])
        }),
        trimmed(text).len() == 0 <==> forall|k: int|
            0 <= k < text.len() ==> is_white_space(#[trigger] text[k]),
{
    let start: int = lemma_front_trimmed(text);
    let rest = text.skip(start);
    let end: int = lemma_back_trimmed(rest);
    assert(rest.take(end) =~= text.subrange(start, start + end));
    assert forall|k: int| 0 <= k < start || start + end <= k < text.len() implies is_white_space(
        #[trigger] text[k],
    ) by {
        if k >= start {
            assert(rest[k - start] == text[k]);
        }
    }
    if end > 0 {
        assert(rest[0] == text[start]);
        assert(rest[end - 1] == text[start + end - 1]);
    }
    (start, start + end)
}

/// Decimal digits are positional: the first counts as many tens as there are digits behind
/// it.
pub proof fn decimal_value_is_positional(digits: Seq<char>)
    requires
        all_digits(digits),
    ensures
        decimal_value(digits) == (digits.first() as int - '0' as int) * pow(
            10,
            (digits.len() - 1) as nat,
        ) + decimal_value(digits.drop_first()),
        decimal_value(Seq::empty()) == 0,
    decreases digits.len(),
{
    let first: int = digits.first() as int - '0' as int;
    assert(is_digit(digits[0]));
    assert(is_digit(digits[digits.len() - 1]));
    if digits.len() == 1 {
        lemma_pow0(10);
        assert(digits.drop_last() =~= Seq::empty());
        assert(digits.drop_first() =~= Seq::empty());
    } else {
        let k = (digits.len() - 2) as nat;
        let front = digits.drop_last();
        assert forall|i: int| 0 <= i < front.len() implies is_digit(#[trigger] front[i]) by {
            assert(front[i] == digits[i]);
        }
        decimal_value_is_positional(front);
        assert(front.drop_first() =~= digits.drop_first().drop_last());
        assert(pow(10, k + 1) == 10 * pow(10, k)) by {
            reveal(pow);
        }
        assert(first * pow(10, k) * 10 == first * pow(10, k + 1)) by (nonlinear_arith)
            requires
                pow(10, k + 1) == 10 * pow(10, k),
        ;
    }
}

/// Digits, with or without a plus sign before them, stand for the number that they have as a
/// decimal value, whichever it is, and for none if it does not fit in 64 bits.
pub proof fn digits_stand_for_number(digits: Seq<char>)
    requires
        all_digits(digits),
    ensures
        decimal_value(digits) <= u64::MAX ==> parsed_number(digits) == Some(
            decimal_value(digits) as u64,
        ),
        decimal_value(digits) > u64::MAX ==> parsed_number(digits) is None,
        parsed_number(seq!['+'] + digits) == parsed_number(digits),
{
    assert(is_digit(digits[0]));
    assert((seq!['+'] + digits).drop_first() =~= digits);
}

} // verus!
