//! What the parsers of this library ask of a string: its fields, the number
//! that it writes, and whether it is a given word.

use vstd::prelude::*;

verus! {

/// The fields of `text`: what stands between one `separator` and the next.
/// A text with `n` separators has `n + 1` fields, some of them maybe empty.
pub open spec fn split(text: Seq<char>, separator: char) -> Seq<Seq<char>>
    decreases text.len(),
{
    if text.len() == 0 {
        seq![Seq::empty()]
    } else {
        let before = split(text.drop_last(), separator);
        if text.last() == separator {
            before.push(Seq::empty())
        } else {
            before.drop_last().push(before.last().push(text.last()))
        }
    }
}

/// What each string of `fields` holds.
pub open spec fn views(fields: Seq<&str>) -> Seq<Seq<char>> {
    Seq::new(fields.len(), |i: int| fields[i]@)
}

/// The fields put together again, with `separator` between one and the next.
pub open spec fn join(fields: Seq<Seq<char>>, separator: char) -> Seq<char>
    decreases fields.len(),
{
    if fields.len() == 0 {
        Seq::empty()
    } else if fields.len() == 1 {
        fields[0]
    } else {
        join(fields.drop_last(), separator).push(separator) + fields.last()
    }
}

/// Splitting gives at least one field, no field holds the separator, and the
/// fields joined by the separator are the text again.
pub proof fn lemma_split_join(text: Seq<char>, separator: char)
    ensures
        split(text, separator).len() >= 1,
        forall|i: int, j: int|
            0 <= i < split(text, separator).len() && 0 <= j < split(text, separator)[i].len()
                ==> split(text, separator)[i][j] != separator,
        join(split(text, separator), separator) == text,
    decreases text.len(),
{
    if text.len() == 0 {
        assert(join(split(text, separator), separator) =~= text);
    } else {
        let shorter = text.drop_last();
        let before = split(shorter, separator);
        lemma_split_join(shorter, separator);
        if text.last() == separator {
            let fields = before.push(Seq::empty());
            assert(fields.drop_last() =~= before);
            assert(join(fields, separator) =~= text);
        } else {
            let grown = before.last().push(text.last());
            let fields = before.drop_last().push(grown);
            assert(fields.drop_last() =~= before.drop_last());
            if before.len() == 1 {
                assert(join(fields, separator) =~= text);
            } else {
                let head = join(before.drop_last(), separator).push(separator);
                assert(join(before, separator) == head + before.last());
                assert(join(fields, separator) == head + grown);
                assert(text =~= shorter.push(text.last()));
                assert(join(fields, separator) =~= text);
            }
        }
    }
}

/// Splits `text` at every `separator`.
pub fn split_on<'a>(text: &'a str, separator: char) -> (fields: Vec<&'a str>)
    ensures
        views(fields@) == split(text@, separator),
{
    let total = text.unicode_len();
    let mut fields: Vec<&'a str> = Vec::new();
    let mut start: usize = 0;
    let mut position: usize = 0;
    assert(text@.take(0) =~= Seq::<char>::empty());
    assert(views(fields@).push(text@.subrange(0, 0)) =~= seq![Seq::<char>::empty()]);
    for symbol in it: text.chars()
        invariant
            it.seq() == text@,
            total == text@.len(),
            position == it.index(),
            start <= position,
            views(fields@).push(text@.subrange(start as int, position as int)) == split(
                text@.take(position as int),
                separator,
            ),
    {
        let ghost scanned = text@.take(position as int);
        let ghost longer = text@.take(position + 1);
        assert(longer.drop_last() =~= scanned);
        assert(longer.last() == symbol);
        let ghost open = text@.subrange(start as int, position as int);
        assert(split(scanned, separator).last() == open);
        assert(split(scanned, separator).drop_last() =~= views(fields@));
        if symbol == separator {
            let field = text.substring_char(start, position);
            let ghost done = views(fields@);
            fields.push(field);
            start = position + 1;
            assert(views(fields@) =~= done.push(open));
            assert(text@.subrange(start as int, position + 1) =~= Seq::<char>::empty());
        } else {
            assert(text@.subrange(start as int, position + 1) =~= open.push(symbol));
        }
        position += 1;
    }
    assert(text@.take(position as int) =~= text@);
    let ghost done = views(fields@);
    let field = text.substring_char(start, position);
    fields.push(field);
    assert(views(fields@) =~= done.push(field@));
    fields
}

/// The characters of `text`, one by one.
pub fn chars_of(text: &str) -> (symbols: Vec<char>)
    ensures
        symbols@ == text@,
{
    let mut symbols: Vec<char> = Vec::new();
    for symbol in it: text.chars()
        invariant
            it.seq() == text@,
            symbols@ == text@.take(it.index()),
    {
        symbols.push(symbol);
        assert(text@.take(it.index() + 1) =~= text@.take(it.index()).push(symbol));
    }
    assert(text@.take(text@.len() as int) =~= text@);
    symbols
}

/// Tells whether two strings hold the same characters.
pub fn same_text(left: &str, right: &str) -> (same: bool)
    ensures
        same == (left@ == right@),
{
    let wanted = chars_of(right);
    let mut index: usize = 0;
    for symbol in it: left.chars()
        invariant
            it.seq() == left@,
            wanted@ == right@,
            index == it.index(),
            index <= wanted.len(),
            left@.take(index as int) == wanted@.take(index as int),
    {
        if index >= wanted.len() || wanted[index] != symbol {
            assert(left@[index as int] == symbol);
            return false;
        }
        assert(left@.take(index + 1) =~= left@.take(index as int).push(symbol));
        assert(wanted@.take(index + 1) =~= wanted@.take(index as int).push(symbol));
        index += 1;
    }
    assert(left@.take(left@.len() as int) =~= left@);
    assert(wanted@.take(wanted@.len() as int) =~= wanted@);
    index == wanted.len()
}

/// Whether `symbol` is one of the ten decimal digits.
pub open spec fn is_digit(symbol: char) -> bool {
    '0' <= symbol <= '9'
}

/// The number that a decimal digit stands for.
pub open spec fn digit_value(symbol: char) -> nat {
    (symbol as int - '0' as int) as nat
}

/// Reads a decimal digit.
pub fn digit(symbol: char) -> (value: Option<u8>)
    ensures
        value is Some <==> is_digit(symbol),
        value matches Some(v) ==> v == digit_value(symbol) && v <= 9,
{
    if '0' <= symbol && symbol <= '9' {
        Some((symbol as u32 - '0' as u32) as u8)
    } else {
        None
    }
}

/// Whether `text` holds decimal digits only.
pub open spec fn all_digits(text: Seq<char>) -> bool {
    forall|i: int| 0 <= i < text.len() ==> is_digit(#[trigger] text[i])
}

/// The number that a row of decimal digits writes. The empty row writes 0.
pub open spec fn decimal_value(digits: Seq<char>) -> nat
    decreases digits.len(),
{
    if digits.len() == 0 {
        0
    } else {
        10 * decimal_value(digits.drop_last()) + digit_value(digits.last())
    }
}

/// The digits of an unsigned number: the text without the `+` that may lead it.
pub open spec fn unsigned_digits(text: Seq<char>) -> Seq<char> {
    if text.len() > 0 && text[0] == '+' {
        text.drop_first()
    } else {
        text
    }
}

/// The number that `text` writes, if it writes one that is no larger than
/// `limit`: one or more decimal digits, with or without a `+` before them.
pub open spec fn parse_unsigned(text: Seq<char>, limit: nat) -> Option<nat> {
    let digits = unsigned_digits(text);
    if digits.len() > 0 && all_digits(digits) && decimal_value(digits) <= limit {
        Some(decimal_value(digits))
    } else {
        None
    }
}

/// A row of digits writes no less than any row that it starts with.
pub proof fn lemma_decimal_value_grows(digits: Seq<char>, length: int)
    requires
        0 <= length <= digits.len(),
    ensures
        decimal_value(digits.take(length)) <= decimal_value(digits),
    decreases digits.len(),
{
    if length == digits.len() {
        assert(digits.take(length) =~= digits);
    } else {
        lemma_decimal_value_grows(digits.drop_last(), length);
        assert(digits.drop_last().take(length) =~= digits.take(length));
    }
}

/// Reads an unsigned decimal number that is no larger than `limit`.
pub fn parse_number(text: &str, limit: u64) -> (parsed: Option<u64>)
    ensures
        parsed == match parse_unsigned(text@, limit as nat) {
            Some(value) => Some(value as u64),
            None => None,
        },
{
    let ghost digits = unsigned_digits(text@);
    let ghost sign: int = text@.len() - digits.len();
    let mut value: u64 = 0;
    let mut at_start = true;
    let mut any_digit = false;
    for symbol in it: text.chars()
        invariant
            it.seq() == text@,
            digits == unsigned_digits(text@),
            sign == text@.len() - digits.len(),
            at_start <==> it.index() == 0,
            any_digit <==> it.index() > sign,
            it.index() >= sign ==> all_digits(digits.take(it.index() - sign)),
            it.index() >= sign ==> value == decimal_value(digits.take(it.index() - sign)),
            it.index() < sign ==> value == 0,
            value <= limit,
    {
        let ghost index = it.index();
        if at_start && symbol == '+' {
            at_start = false;
            assert(digits.take(0) =~= Seq::<char>::empty());
        } else {
            at_start = false;
            let ghost read = digits.take(index - sign);
            let ghost longer = digits.take(index - sign + 1);
            assert(longer.drop_last() =~= read);
            assert(longer.last() == symbol);
            match digit(symbol) {
                None => {
                    assert(!is_digit(digits[index - sign]));
                    return None;
                },
                Some(units) => {
                    let grown = match value.checked_mul(10) {
                        Some(tens) => tens.checked_add(units as u64),
                        None => None,
                    };
                    match grown {
                        Some(next) if next <= limit => {
                            value = next;
                        },
                        _ => {
                            proof {
                                lemma_decimal_value_grows(digits, index - sign + 1);
                            }
                            return None;
                        },
                    }
                    any_digit = true;
                },
            }
        }
    }
    assert(digits.take(digits.len() as int) =~= digits);
    if any_digit {
        Some(value)
    } else {
        None
    }
}

} // verus!
