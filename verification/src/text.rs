//! Text building with exact contracts: concatenation, decimal numbers and
//! decimal number fields typed by an operator.

use vstd::prelude::*;

verus! {

/// The character of a decimal digit `0..=9`.
pub open spec fn digit_char(digit: int) -> char {
    (48 + digit) as char
}

/// The decimal digits of a natural number, without leading zeros.
pub open spec fn decimal(value: nat) -> Seq<char>
    decreases value,
{
    if value < 10 {
        seq![digit_char(value as int)]
    } else {
        decimal(value / 10).push(digit_char((value % 10) as int))
    }
}

/// The decimal digits of an integer, after a minus sign where it is negative.
pub open spec fn signed_decimal(value: int) -> Seq<char> {
    if value < 0 {
        "-"@ + decimal((-value) as nat)
    } else {
        decimal(value as nat)
    }
}

/// The upper-case hexadecimal character of a digit `0..=15`.
pub open spec fn hex_char(digit: int) -> char {
    if digit < 10 {
        (48 + digit) as char
    } else {
        (55 + digit) as char
    }
}

/// The two upper-case hexadecimal digits of an octet.
pub open spec fn hex_octet(value: u8) -> Seq<char> {
    seq![hex_char(value as int / 16), hex_char(value as int % 16)]
}

/// `true` or `false`.
pub open spec fn bool_text(value: bool) -> Seq<char> {
    if value {
        "true"@
    } else {
        "false"@
    }
}

/// The pieces in order, with `separator` between neighbours.
pub open spec fn joined(pieces: Seq<Seq<char>>, separator: Seq<char>) -> Seq<char>
    decreases pieces.len(),
{
    if pieces.len() == 0 {
        Seq::empty()
    } else if pieces.len() == 1 {
        pieces[0]
    } else {
        joined(pieces.drop_last(), separator) + separator + pieces.last()
    }
}

/// The views of a vector of strings.
pub open spec fn texts(values: Seq<String>) -> Seq<Seq<char>> {
    values.map_values(|value: String| value@)
}

pub fn copy_texts(values: &Vec<String>) -> (result: Vec<String>)
    ensures
        texts(result@) == texts(values@),
{
    let mut result: Vec<String> = Vec::new();
    let mut index: usize = 0;
    while index < values.len()
        invariant
            index <= values@.len(),
            result@.len() == index,
            forall|i: int| 0 <= i < index ==> (#[trigger] result@[i])@ == values@[i]@,
        decreases values.len() - index,
    {
        result.push(values[index].clone());
        index += 1;
    }
    assert(texts(result@) =~= texts(values@));
    result
}

pub fn cat(head: String, tail: &str) -> (result: String)
    ensures
        result@ == head@ + tail@,
{
    head.concat(tail)
}

pub fn digit_text(digit: u8) -> (result: &'static str)
    requires
        digit < 16,
    ensures
        result@ == seq![hex_char(digit as int)],
{
    proof {
        reveal_strlit("0");
        reveal_strlit("1");
        reveal_strlit("2");
        reveal_strlit("3");
        reveal_strlit("4");
        reveal_strlit("5");
        reveal_strlit("6");
        reveal_strlit("7");
        reveal_strlit("8");
        reveal_strlit("9");
        reveal_strlit("A");
        reveal_strlit("B");
        reveal_strlit("C");
        reveal_strlit("D");
        reveal_strlit("E");
        reveal_strlit("F");
    }
    match digit {
        0 => "0",
        1 => "1",
        2 => "2",
        3 => "3",
        4 => "4",
        5 => "5",
        6 => "6",
        7 => "7",
        8 => "8",
        9 => "9",
        10 => "A",
        11 => "B",
        12 => "C",
        13 => "D",
        14 => "E",
        _ => "F",
    }
}

pub fn decimal_text(value: u128) -> (result: String)
    ensures
        result@ == decimal(value as nat),
    decreases value,
{
    if value < 10 {
        let result = digit_text(value as u8).to_owned();
        assert(result@ == seq![digit_char(value as int)]);
        result
    } else {
        let head = decimal_text(value / 10);
        let result = cat(head, digit_text((value % 10) as u8));
        assert(result@ == decimal((value / 10) as nat).push(digit_char((value % 10) as int)));
        result
    }
}

pub fn cat_wide(head: String, value: u128) -> (result: String)
    ensures
        result@ == head@ + decimal(value as nat),
{
    let tail = decimal_text(value);
    cat(head, tail.as_str())
}

pub fn cat_number(head: String, value: u64) -> (result: String)
    ensures
        result@ == head@ + decimal(value as nat),
{
    cat_wide(head, value as u128)
}

pub fn cat_signed(head: String, value: i64) -> (result: String)
    ensures
        result@ == head@ + signed_decimal(value as int),
{
    if value < 0 {
        let magnitude: u64 = if value == i64::MIN {
            9_223_372_036_854_775_808
        } else {
            (-value) as u64
        };
        let ghost before = head@;
        let signed = cat_number(cat(head, "-"), magnitude);
        assert(signed@ =~= before + ("-"@ + decimal(magnitude as nat)));
        signed
    } else {
        cat_number(head, value as u64)
    }
}

pub fn cat_bool(head: String, value: bool) -> (result: String)
    ensures
        result@ == head@ + bool_text(value),
{
    if value {
        cat(head, "true")
    } else {
        cat(head, "false")
    }
}

pub fn cat_hex_octet(head: String, value: u8) -> (result: String)
    ensures
        result@ == head@ + hex_octet(value),
{
    let ghost before = head@;
    let result = cat(cat(head, digit_text(value / 16)), digit_text(value % 16));
    assert(result@ =~= before + hex_octet(value));
    result
}

pub fn join(pieces: &Vec<String>, separator: &str) -> (result: String)
    ensures
        result@ == joined(texts(pieces@), separator@),
{
    let mut result = String::new();
    let mut index: usize = 0;
    assert(texts(pieces@).take(0) =~= Seq::<Seq<char>>::empty());
    while index < pieces.len()
        invariant
            index <= pieces.len(),
            result@ == joined(texts(pieces@).take(index as int), separator@),
        decreases pieces.len() - index,
    {
        let ghost all = texts(pieces@);
        assert(all.take(index as int + 1).drop_last() =~= all.take(index as int));
        assert(all.take(index as int + 1).last() == pieces@[index as int]@);
        if index > 0 {
            result.append(separator);
        }
        result.append(pieces[index].as_str());
        assert(index == 0 ==> result@ =~= pieces@[0]@);
        index += 1;
    }
    assert(texts(pieces@).take(index as int) =~= texts(pieces@));
    result
}

/// Two texts hold the same characters.
pub fn same_text(left: &str, right: &str) -> (result: bool)
    ensures
        result == (left@ == right@),
{
    let length = left.unicode_len();
    if length != right.unicode_len() {
        return false;
    }
    let mut index: usize = 0;
    while index < length
        invariant
            index <= length,
            length == left@.len(),
            length == right@.len(),
            forall|i: int| 0 <= i < index ==> left@[i] == right@[i],
        decreases length - index,
    {
        if left.get_char(index) != right.get_char(index) {
            return false;
        }
        index += 1;
    }
    assert(left@ =~= right@);
    true
}

/// `left` is `right` or stands before it, by the numbers of the characters.
pub open spec fn text_precedes(left: Seq<char>, right: Seq<char>) -> bool
    decreases left.len(),
{
    if left.len() == 0 {
        true
    } else if right.len() == 0 {
        false
    } else if left[0] != right[0] {
        left[0] < right[0]
    } else {
        text_precedes(left.skip(1), right.skip(1))
    }
}

pub proof fn lemma_text_order_is_total(left: Seq<char>, right: Seq<char>)
    ensures
        text_precedes(left, right) || text_precedes(right, left),
    decreases left.len(),
{
    if left.len() > 0 && right.len() > 0 {
        lemma_text_order_is_total(left.skip(1), right.skip(1));
    }
}

pub proof fn lemma_text_order_is_transitive(a: Seq<char>, b: Seq<char>, c: Seq<char>)
    requires
        text_precedes(a, b),
        text_precedes(b, c),
    ensures
        text_precedes(a, c),
    decreases a.len(),
{
    if a.len() > 0 && b.len() > 0 && c.len() > 0 && a[0] == b[0] && b[0] == c[0] {
        lemma_text_order_is_transitive(a.skip(1), b.skip(1), c.skip(1));
    }
}

pub fn text_at_most(left: &str, right: &str) -> (result: bool)
    ensures
        result == text_precedes(left@, right@),
{
    let left_length: usize = left.unicode_len();
    let right_length: usize = right.unicode_len();
    let mut index: usize = 0;
    assert(left@.skip(0) =~= left@);
    assert(right@.skip(0) =~= right@);
    while index < left_length && index < right_length
        invariant
            index <= left_length,
            index <= right_length,
            left_length == left@.len(),
            right_length == right@.len(),
            text_precedes(left@.skip(index as int), right@.skip(index as int)) == text_precedes(
                left@,
                right@,
            ),
        decreases left_length - index,
    {
        let a = left.get_char(index);
        let b = right.get_char(index);
        assert(left@.skip(index as int)[0] == a);
        assert(right@.skip(index as int)[0] == b);
        if a != b {
            return a < b;
        }
        assert(left@.skip(index as int).skip(1) =~= left@.skip(index + 1));
        assert(right@.skip(index as int).skip(1) =~= right@.skip(index + 1));
        index += 1;
    }
    index == left_length
}

pub open spec fn is_digit_char(c: char) -> bool {
    '0' <= c && c <= '9'
}

pub open spec fn all_digits(text: Seq<char>) -> bool {
    forall|i: int| 0 <= i < text.len() ==> is_digit_char(#[trigger] text[i])
}

/// The number that a sequence of decimal digits writes.
pub open spec fn digits_value(text: Seq<char>) -> nat
    decreases text.len(),
{
    if text.len() == 0 {
        0
    } else {
        (digits_value(text.drop_last()) * 10 + (text.last() as int - 48)) as nat
    }
}

/// The unsigned number that a field holds: at least one decimal digit, after
/// at most one plus sign, and nothing else.
pub open spec fn unsigned_field(text: Seq<char>) -> Option<nat> {
    let body = if text.len() > 0 && text[0] == '+' {
        text.skip(1)
    } else {
        text
    };
    if body.len() > 0 && all_digits(body) {
        Some(digits_value(body))
    } else {
        None
    }
}

/// Reads an unsigned decimal field that must not exceed `maximum`.
pub fn parse_unsigned(text: &str, maximum: u64) -> (result: Option<u64>)
    ensures
        result == (match unsigned_field(text@) {
            Some(value) => if value <= maximum {
                Some(value as u64)
            } else {
                None
            },
            None => None,
        }),
{
    let length = text.unicode_len();
    let mut index: usize = 0;
    if length > 0 && text.get_char(0) == '+' {
        index = 1;
    }
    let ghost start = index as int;
    let ghost body = text@.skip(start);
    assert(start == 0 ==> body =~= text@);
    if index == length {
        return None;
    }
    let mut value: u64 = 0;
    let mut overflow = false;
    assert(body.take(0) =~= Seq::<char>::empty());
    while index < length
        invariant
            start <= index <= length,
            length == text@.len(),
            body == text@.skip(start),
            length > 0,
            start == if text@[0] == '+' {
                1int
            } else {
                0int
            },
            start < length,
            all_digits(body.take(index - start)),
            !overflow ==> value == digits_value(body.take(index - start)) && value <= maximum,
            overflow ==> digits_value(body.take(index - start)) > maximum,
        decreases length - index,
    {
        let c = text.get_char(index);
        let ghost longer = body.take(index - start + 1);
        assert(longer.drop_last() =~= body.take(index - start));
        assert(longer.last() == c);
        if !('0' <= c && c <= '9') {
            assert(!is_digit_char(body[index - start]));
            assert(start == 0 ==> body =~= text@);
            return None;
        }
        assert forall|i: int| 0 <= i < longer.len() implies is_digit_char(#[trigger] longer[i]) by {
            if i < longer.len() - 1 {
                assert(longer[i] == body.take(index - start)[i]);
            }
        }
        let digit: u64 = (c as u32 - 48) as u64;
        if !overflow {
            let next: u128 = value as u128 * 10 + digit as u128;
            if next > maximum as u128 {
                overflow = true;
            } else {
                value = next as u64;
            }
        }
        index += 1;
    }
    assert(body.take(index - start) =~= body);
    assert(start == 0 ==> body =~= text@);
    if overflow {
        None
    } else {
        Some(value)
    }
}

// ---------------------------------------------------------------------------
// Characters and letter case.
/// The characters that Unicode gives the property `White_Space`.
pub open spec fn white_space(c: char) -> bool {
    ||| '\t' <= c && c <= '\r'
    ||| c == ' '
    ||| c == '\u{85}'
    ||| c == '\u{A0}'
    ||| c == '\u{1680}'
    ||| '\u{2000}' <= c && c <= '\u{200A}'
    ||| c == '\u{2028}'
    ||| c == '\u{2029}'
    ||| c == '\u{202F}'
    ||| c == '\u{205F}'
    ||| c == '\u{3000}'
}

/// How `str` prints itself for debugging.
pub uninterp spec fn debug_rendering(text: Seq<char>) -> Seq<char>;

fn is_white_space(c: char) -> (result: bool)
    ensures
        result == white_space(c),
{
    ('\t' <= c && c <= '\r') || c == ' ' || c == '\u{85}' || c == '\u{A0}' || c == '\u{1680}'
        || ('\u{2000}' <= c && c <= '\u{200A}') || c == '\u{2028}' || c == '\u{2029}' || c
        == '\u{202F}' || c == '\u{205F}' || c == '\u{3000}'
}

/// Prints a `str` for debugging. Claimed: the text depends on the characters
/// alone.
#[verifier::external_body]
pub(crate) fn debug_text(text: &str) -> (result: String)
    ensures
        result@ == debug_rendering(text@),
{
    format!("{text:?}")
}

pub open spec fn lower(c: char) -> char {
    if 'A' <= c && c <= 'Z' {
        (c as int + 32) as char
    } else {
        c
    }
}

pub open spec fn upper(c: char) -> char {
    if 'a' <= c && c <= 'z' {
        (c as int - 32) as char
    } else {
        c
    }
}

pub open spec fn lowered(text: Seq<char>) -> Seq<char> {
    text.map_values(|c: char| lower(c))
}

pub open spec fn raised(text: Seq<char>) -> Seq<char> {
    text.map_values(|c: char| upper(c))
}

fn lower_letter(c: char) -> (result: char)
    ensures
        result == lower(c),
{
    if 'A' <= c && c <= 'Z' {
        (c as u32 + 32) as u8 as char
    } else {
        c
    }
}

fn upper_letter(c: char) -> (result: char)
    ensures
        result == upper(c),
{
    if 'a' <= c && c <= 'z' {
        (c as u32 - 32) as u8 as char
    } else {
        c
    }
}

/// The text with the letters `A` to `Z` as `a` to `z`.
pub fn ascii_lowercase(text: &str) -> (result: String)
    ensures
        result@ == lowered(text@),
{
    let length: usize = text.unicode_len();
    let mut result = String::new();
    let mut i: usize = 0;
    while i < length
        invariant
            i <= length == text@.len(),
            result@ == lowered(text@.take(i as int)),
        decreases length - i,
    {
        push_character(&mut result, lower_letter(text.get_char(i)));
        i += 1;
        assert(result@ =~= lowered(text@.take(i as int)));
    }
    assert(text@.take(i as int) =~= text@);
    result
}

/// The text with the letters `a` to `z` as `A` to `Z`.
pub fn ascii_uppercase(text: &str) -> (result: String)
    ensures
        result@ == raised(text@),
{
    let length: usize = text.unicode_len();
    let mut result = String::new();
    let mut i: usize = 0;
    while i < length
        invariant
            i <= length == text@.len(),
            result@ == raised(text@.take(i as int)),
        decreases length - i,
    {
        push_character(&mut result, upper_letter(text.get_char(i)));
        i += 1;
        assert(result@ =~= raised(text@.take(i as int)));
    }
    assert(text@.take(i as int) =~= text@);
    result
}

/// There is nothing but white space.
pub open spec fn blank(text: Seq<char>) -> bool {
    forall|i: int| 0 <= i < text.len() ==> white_space(#[trigger] text[i])
}

pub fn is_blank(text: &str) -> (result: bool)
    ensures
        result == blank(text@),
{
    let length: usize = text.unicode_len();
    let mut index: usize = 0;
    while index < length
        invariant
            index <= length,
            length == text@.len(),
            forall|i: int| 0 <= i < index ==> white_space(#[trigger] text@[i]),
        decreases length - index,
    {
        if !is_white_space(text.get_char(index)) {
            return false;
        }
        index += 1;
    }
    true
}

/// The text without the white space at its ends.
pub open spec fn trimmed(text: Seq<char>) -> Seq<char>
    decreases text.len(),
{
    if text.len() == 0 {
        text
    } else if white_space(text[0]) {
        trimmed(text.skip(1))
    } else if white_space(text.last()) {
        trimmed(text.drop_last())
    } else {
        text
    }
}

pub fn trim(text: &str) -> (result: &str)
    ensures
        result@ == trimmed(text@),
{
    let length: usize = text.unicode_len();
    let mut from: usize = 0;
    let mut to: usize = length;
    assert(text@.subrange(0, length as int) =~= text@);
    while from < to && is_white_space(text.get_char(from))
        invariant
            from <= to <= length,
            length == text@.len(),
            trimmed(text@.subrange(from as int, to as int)) == trimmed(text@),
        ensures
            from <= to <= length,
            length == text@.len(),
            trimmed(text@.subrange(from as int, to as int)) == trimmed(text@),
            from == to || !white_space(text@[from as int]),
        decreases to - from,
    {
        assert(text@.subrange(from as int, to as int).skip(1) =~= text@.subrange(
            from + 1,
            to as int,
        ));
        from += 1;
    }
    while from < to && is_white_space(text.get_char(to - 1))
        invariant
            from <= to <= length,
            length == text@.len(),
            trimmed(text@.subrange(from as int, to as int)) == trimmed(text@),
            from == to || !white_space(text@[from as int]),
        ensures
            from <= to <= length,
            length == text@.len(),
            trimmed(text@.subrange(from as int, to as int)) == trimmed(text@),
            from == to || !white_space(text@[from as int]),
            from == to || !white_space(text@[to - 1]),
        decreases to - from,
    {
        assert(text@.subrange(from as int, to as int).drop_last() =~= text@.subrange(
            from as int,
            to - 1,
        ));
        to -= 1;
    }
    text.substring_char(from, to)
}

/// Calls `String::push`. Claimed: the character stands behind those that were
/// there.
#[verifier::external_body]
fn push_character(text: &mut String, c: char)
    ensures
        final(text)@ == old(text)@.push(c),
{
    text.push(c);
}

/// The text with one more character.
pub fn with_char(text: &str, c: char) -> (result: String)
    ensures
        result@ == text@.push(c),
{
    let mut longer = text.to_owned();
    push_character(&mut longer, c);
    longer
}

/// The text without its last character, if it has one.
pub open spec fn shortened(text: Seq<char>) -> Seq<char> {
    if text.len() > 0 {
        text.drop_last()
    } else {
        text
    }
}

pub fn without_last(text: &str) -> (result: String)
    ensures
        result@ == shortened(text@),
{
    let length: usize = text.unicode_len();
    if length == 0 {
        return text.to_owned();
    }
    let result = text.substring_char(0, length - 1).to_owned();
    assert(result@ =~= text@.drop_last());
    result
}

/// The characters up to the first white space.
pub open spec fn leading_word(text: Seq<char>) -> Seq<char>
    decreases text.len(),
{
    if text.len() == 0 || white_space(text[0]) {
        Seq::empty()
    } else {
        seq![text[0]] + leading_word(text.skip(1))
    }
}

/// The first word: what stands between the white space in front of it and the
/// next white space.
pub open spec fn first_word(text: Seq<char>) -> Seq<char>
    decreases text.len(),
{
    if text.len() == 0 {
        text
    } else if white_space(text[0]) {
        first_word(text.skip(1))
    } else {
        leading_word(text)
    }
}

proof fn lemma_leading_word(text: Seq<char>, length: int)
    requires
        0 <= length <= text.len(),
        forall|i: int| 0 <= i < length ==> !white_space(#[trigger] text[i]),
        length == text.len() || white_space(text[length]),
    ensures
        leading_word(text) == text.take(length),
    decreases length,
{
    if length > 0 {
        let rest = text.skip(1);
        assert forall|i: int| 0 <= i < length - 1 implies !white_space(#[trigger] rest[i]) by {
            assert(rest[i] == text[i + 1]);
        }
        lemma_leading_word(rest, length - 1);
        assert(seq![text[0]] + rest.take(length - 1) =~= text.take(length));
    } else {
        assert(text.take(0) =~= Seq::<char>::empty());
    }
}

/// Finds the first word of a text.
pub fn word(text: &str) -> (result: &str)
    ensures
        result@ == first_word(text@),
{
    let length: usize = text.unicode_len();
    let mut from: usize = 0;
    assert(text@.skip(0) =~= text@);
    while from < length && is_white_space(text.get_char(from))
        invariant
            from <= length,
            length == text@.len(),
            first_word(text@.skip(from as int)) == first_word(text@),
        ensures
            from <= length,
            length == text@.len(),
            first_word(text@.skip(from as int)) == first_word(text@),
            from == length || !white_space(text@[from as int]),
        decreases length - from,
    {
        assert(text@.skip(from as int).skip(1) =~= text@.skip(from + 1));
        from += 1;
    }
    let mut to: usize = from;
    while to < length && !is_white_space(text.get_char(to))
        invariant
            from <= to <= length,
            length == text@.len(),
            forall|i: int| from <= i < to ==> !white_space(#[trigger] text@[i]),
        ensures
            from <= to <= length,
            length == text@.len(),
            forall|i: int| from <= i < to ==> !white_space(#[trigger] text@[i]),
            to == length || white_space(text@[to as int]),
        decreases length - to,
    {
        to += 1;
    }
    proof {
        let rest = text@.skip(from as int);
        assert forall|i: int| 0 <= i < to - from implies !white_space(#[trigger] rest[i]) by {
            assert(rest[i] == text@[from + i]);
        }
        lemma_leading_word(rest, to - from);
        assert(rest.take(to - from) =~= text@.subrange(from as int, to as int));
        if from == length {
            assert(rest =~= Seq::<char>::empty());
            assert(text@.subrange(from as int, to as int) =~= Seq::<char>::empty());
        }
    }
    text.substring_char(from, to)
}

// ---------------------------------------------------------------------------
// Laws.
/// The digits of a number, with nothing around them, are read back as that
/// number.
pub proof fn law_decimals_are_read_back(value: nat)
    ensures
        decimal(value).len() > 0,
        all_digits(decimal(value)),
        digits_value(decimal(value)) == value,
        trimmed(decimal(value)) == decimal(value),
        unsigned_field(decimal(value)) == Some(value),
    decreases value,
{
    let text = decimal(value);
    if value >= 10 {
        law_decimals_are_read_back(value / 10);
        assert(text.drop_last() =~= decimal(value / 10));
        assert forall|i: int| 0 <= i < text.len() implies is_digit_char(#[trigger] text[i]) by {
            if i < text.len() - 1 {
                assert(text[i] == decimal(value / 10)[i]);
            }
        }
    } else {
        assert(text.drop_last() =~= Seq::<char>::empty());
        assert(digits_value(Seq::<char>::empty()) == 0);
    }
    assert(is_digit_char(text[0]));
    assert(is_digit_char(text.last()));
}

// ---------------------------------------------------------------------------
// Laws of texts.
/// Trimming takes away the white space at both ends and nothing else.
pub proof fn law_trimming_takes_the_ends(text: Seq<char>) -> (range: (int, int))
    ensures
        0 <= range.0 <= range.1 <= text.len(),
        trimmed(text) == text.subrange(range.0, range.1),
        forall|i: int| 0 <= i < range.0 ==> white_space(#[trigger] text[i]),
        forall|i: int| range.1 <= i < text.len() ==> white_space(#[trigger] text[i]),
        range.0 < range.1 ==> !white_space(text[range.0]) && !white_space(text[range.1 - 1]),
    decreases text.len(),
{
    if text.len() == 0 {
        assert(text.subrange(0, 0) =~= text);
        (0, 0)
    } else if white_space(text[0]) {
        let rest = text.skip(1);
        let inner = law_trimming_takes_the_ends(rest);
        assert(rest.subrange(inner.0, inner.1) =~= text.subrange(inner.0 + 1, inner.1 + 1));
        assert forall|i: int| 0 <= i < inner.0 + 1 implies white_space(#[trigger] text[i]) by {
            if i > 0 {
                assert(rest[i - 1] == text[i]);
            }
        }
        assert forall|i: int| inner.1 + 1 <= i < text.len() implies white_space(
            #[trigger] text[i],
        ) by {
            assert(rest[i - 1] == text[i]);
        }
        (inner.0 + 1, inner.1 + 1)
    } else if white_space(text.last()) {
        let rest = text.drop_last();
        let inner = law_trimming_takes_the_ends(rest);
        assert(rest.subrange(inner.0, inner.1) =~= text.subrange(inner.0, inner.1));
        assert forall|i: int| inner.1 <= i < text.len() implies white_space(#[trigger] text[i]) by {
            if i < rest.len() {
                assert(rest[i] == text[i]);
            }
        }
        assert forall|i: int| 0 <= i < inner.0 implies white_space(#[trigger] text[i]) by {
            assert(rest[i] == text[i]);
        }
        inner
    } else {
        assert(text.subrange(0, text.len() as int) =~= text);
        (0, text.len() as int)
    }
}

/// The first word stands behind white space, holds none, and goes on to the next
/// white space or to the end.
pub proof fn law_first_words_stand_between_white_space(text: Seq<char>) -> (range: (int, int))
    ensures
        0 <= range.0 <= range.1 <= text.len(),
        first_word(text) == text.subrange(range.0, range.1),
        forall|i: int| 0 <= i < range.0 ==> white_space(#[trigger] text[i]),
        forall|i: int| range.0 <= i < range.1 ==> !white_space(#[trigger] text[i]),
        range.1 < text.len() ==> white_space(text[range.1]),
        range.0 < text.len() ==> range.0 < range.1,
    decreases text.len(),
{
    if text.len() == 0 {
        assert(text.subrange(0, 0) =~= text);
        (0, 0)
    } else if white_space(text[0]) {
        let rest = text.skip(1);
        let inner = law_first_words_stand_between_white_space(rest);
        assert(rest.subrange(inner.0, inner.1) =~= text.subrange(inner.0 + 1, inner.1 + 1));
        assert forall|i: int| 0 <= i < inner.0 + 1 implies white_space(#[trigger] text[i]) by {
            if i > 0 {
                assert(rest[i - 1] == text[i]);
            }
        }
        assert forall|i: int| inner.0 + 1 <= i < inner.1 + 1 implies !white_space(
            #[trigger] text[i],
        ) by {
            assert(rest[i - 1] == text[i]);
        }
        (inner.0 + 1, inner.1 + 1)
    } else {
        let end = lemma_leading_word_ends(text);
        (0, end)
    }
}

proof fn lemma_leading_word_ends(text: Seq<char>) -> (end: int)
    ensures
        0 <= end <= text.len(),
        leading_word(text) == text.take(end),
        forall|i: int| 0 <= i < end ==> !white_space(#[trigger] text[i]),
        end < text.len() ==> white_space(text[end]),
        text.len() > 0 && !white_space(text[0]) ==> end > 0,
    decreases text.len(),
{
    if text.len() == 0 || white_space(text[0]) {
        assert(text.take(0) =~= Seq::<char>::empty());
        0
    } else {
        let rest = text.skip(1);
        let end = lemma_leading_word_ends(rest);
        assert(seq![text[0]] + rest.take(end) =~= text.take(end + 1));
        assert forall|i: int| 0 <= i < end + 1 implies !white_space(#[trigger] text[i]) by {
            if i > 0 {
                assert(rest[i - 1] == text[i]);
            }
        }
        end + 1
    }
}

/// Letter case changes letters alone, each to the one of the same name.
pub proof fn law_letter_case(c: char)
    ensures
        'A' <= c && c <= 'Z' ==> 'a' <= lower(c) && lower(c) <= 'z' && upper(lower(c)) == c
            && upper(c) == c,
        'a' <= c && c <= 'z' ==> 'A' <= upper(c) && upper(c) <= 'Z' && lower(upper(c)) == c
            && lower(c) == c,
        !('A' <= c && c <= 'Z') && !('a' <= c && c <= 'z') ==> lower(c) == c && upper(c) == c,
        lower('A') == 'a',
        lower('Z') == 'z',
{
}

/// A number field is digits, behind a plus sign if it has one; each digit counts
/// for itself behind ten times what stands before it.
pub proof fn law_fields_are_read_in_tens(text: Seq<char>, digit: int)
    requires
        0 <= digit <= 9,
    ensures
        unsigned_field(Seq::empty()) is None,
        unsigned_field(seq![digit_char(digit)]) == Some(digit as nat),
        text.len() > 0 && text[0] != '+' ==> match (
            unsigned_field(text),
            unsigned_field(text.push(digit_char(digit))),
        ) {
            (Some(before), Some(after)) => after == 10 * before + digit,
            (None, None) => true,
            _ => false,
        },
        text.len() > 0 && text[0] != '+' ==> unsigned_field(seq!['+'] + text) == unsigned_field(
            text,
        ),
{
    reveal_with_fuel(digits_value, 2);
    let longer = text.push(digit_char(digit));
    assert(longer.drop_last() =~= text);
    let single = seq![digit_char(digit)];
    assert(single.drop_last() =~= Seq::<char>::empty());
    assert(is_digit_char(digit_char(digit)));
    assert(all_digits(single));
    if text.len() > 0 && text[0] != '+' {
        assert(longer[0] == text[0]);
        assert((seq!['+'] + text).skip(1) =~= text);
        if all_digits(text) {
            assert forall|i: int| 0 <= i < longer.len() implies is_digit_char(
                #[trigger] longer[i],
            ) by {
                if i < text.len() {
                    assert(text[i] == longer[i]);
                }
            }
        } else {
            let i = choose|i: int| 0 <= i < text.len() && !is_digit_char(#[trigger] text[i]);
            assert(longer[i] == text[i]);
        }
    }
}

/// A negative number has a minus sign in front of the digits of its magnitude; no
/// other number has one.
pub proof fn law_signs_stand_in_front(value: int)
    ensures
        value < 0 ==> signed_decimal(value) == seq!['-'] + decimal((-value) as nat),
        value >= 0 ==> signed_decimal(value) == decimal(value as nat),
{
    reveal_strlit("-");
    assert("-"@ =~= seq!['-']);
}

/// The two digits of an octet are those of sixteens and of ones.
pub proof fn law_octets_have_two_digits(value: u8)
    ensures
        hex_octet(value).len() == 2,
        value < 16 ==> hex_octet(value)[0] == '0',
        value as int % 16 == 10 ==> hex_octet(value)[1] == 'A',
        value as int % 16 == 15 ==> hex_octet(value)[1] == 'F',
        value as int % 16 < 10 ==> hex_octet(value)[1] as int == '0' as int + value as int % 16,
        value as int % 16 >= 10 ==> hex_octet(value)[1] as int == 'A' as int + value as int % 16
            - 10,
        value as int / 16 < 10 ==> hex_octet(value)[0] as int == '0' as int + value as int / 16,
        value as int / 16 >= 10 ==> hex_octet(value)[0] as int == 'A' as int + value as int / 16
            - 10,
{
}

/// Joined texts are as long as the texts and what stands between them.
pub proof fn law_joining_separates(first: Seq<char>, second: Seq<char>, between: Seq<char>)
    ensures
        joined(Seq::empty(), between) == Seq::<char>::empty(),
        joined(seq![first], between) == first,
        joined(seq![first, second], between) == first + between + second,
{
    reveal_with_fuel(joined, 2);
    assert(seq![first, second].drop_last() =~= seq![first]);
}

} // verus!
