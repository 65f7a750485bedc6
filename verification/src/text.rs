//! Text helpers: decimal and hexadecimal numbers, surrounding white space and lines.

use vstd::prelude::*;
use vstd::string::StringExecFns;
use vstd::utf8::{decode_utf8, valid_utf8};

verus! {

/// Whether a character is white space: the characters of the Unicode property White_Space.
pub open spec fn white_space(c: char) -> bool {
    let code = c as int;
    ||| 0x09 <= code <= 0x0d
    ||| code == 0x20
    ||| code == 0x85
    ||| code == 0xa0
    ||| code == 0x1680
    ||| 0x2000 <= code <= 0x200a
    ||| code == 0x2028
    ||| code == 0x2029
    ||| code == 0x202f
    ||| code == 0x205f
    ||| code == 0x3000
}

/// `char::is_whitespace`: whether a character has the Unicode property White_Space.
pub assume_specification[ char::is_whitespace ](c: char) -> (white: bool)
    ensures
        white == white_space(c),
;

/// `String::push`: appends one character.
pub assume_specification[ String::push ](s: &mut String, c: char)
    ensures
        final(s)@ == old(s)@.push(c),
;

/// The text that `String::from_utf8_lossy` makes of bytes that are no valid UTF-8.
pub uninterp spec fn repaired_text(bytes: Seq<u8>) -> Seq<char>;

/// The text of bytes: that of valid UTF-8, or what is left of it where the bytes are not valid.
pub open spec fn lossy_text(bytes: Seq<u8>) -> Seq<char> {
    if valid_utf8(bytes) {
        decode_utf8(bytes)
    } else {
        repaired_text(bytes)
    }
}

/// `String::from_utf8_lossy`: valid UTF-8 is decoded as it stands. What replaces the invalid parts
/// of other input is not stated.
#[verifier::external_body]
pub(crate) fn from_utf8_lossy(bytes: &[u8]) -> (text: String)
    ensures
        valid_utf8(bytes@) ==> text@ == decode_utf8(bytes@),
        !valid_utf8(bytes@) ==> text@ == repaired_text(bytes@),
{
    String::from_utf8_lossy(bytes).into_owned()
}

/// Whether two texts are the same.
pub fn same_text(a: &str, b: &str) -> (same: bool)
    ensures
        same == (a@ == b@),
{
    let a: String = a.to_owned();
    let b: String = b.to_owned();
    a == b
}

/// The characters of a text.
pub fn chars_of(text: &str) -> (chars: Vec<char>)
    ensures
        chars@ == text@,
{
    let mut chars: Vec<char> = Vec::new();
    for c in iter: text.chars()
        invariant
            iter.seq() == text@,
            chars@ == text@.take(iter.index() as int),
    {
        chars.push(c);
    }
    assert(text@.take(text@.len() as int) == text@);
    chars
}

/// The text of the characters from `start` up to `end`.
pub fn text_between(chars: &Vec<char>, start: usize, end: usize) -> (text: String)
    requires
        start <= end <= chars@.len(),
    ensures
        text@ == chars@.subrange(start as int, end as int),
{
    let mut text = String::new();
    let mut i: usize = start;
    while i < end
        invariant
            start <= i <= end <= chars@.len(),
            text@ == chars@.subrange(start as int, i as int),
        decreases end - i,
    {
        text.push(chars[i]);
        i += 1;
    }
    text
}

/// The decimal digit of a value below ten.
pub open spec fn digit(value: int) -> char {
    (48 + value) as char
}

/// A number in decimal, without leading zeros.
pub open spec fn decimal(n: nat) -> Seq<char>
    decreases n,
{
    if n < 10 {
        seq![digit(n as int)]
    } else {
        decimal(n / 10).push(digit((n % 10) as int))
    }
}

/// Appends a number in decimal.
pub fn push_decimal(text: &mut String, n: u64)
    ensures
        final(text)@ == old(text)@ + decimal(n as nat),
    decreases n,
{
    if n >= 10 {
        push_decimal(text, n / 10);
    }
    let low: u8 = 48 + (n % 10) as u8;
    text.push(low as char);
}

/// The hexadecimal digit of a value below sixteen, in lower case.
pub open spec fn hex_digit(value: int) -> char {
    if value < 10 {
        digit(value)
    } else {
        (97 + value - 10) as char
    }
}

/// The last digits of a number in hexadecimal, with zeros in front where it has fewer.
pub open spec fn hexadecimal(n: nat, digits: nat) -> Seq<char>
    decreases digits,
{
    if digits == 0 {
        Seq::empty()
    } else {
        hexadecimal(n / 16, (digits - 1) as nat).push(hex_digit((n % 16) as int))
    }
}

/// Appends the last digits of a number in hexadecimal.
pub fn push_hexadecimal(text: &mut String, n: u64, digits: u8)
    ensures
        final(text)@ == old(text)@ + hexadecimal(n as nat, digits as nat),
    decreases digits,
{
    if digits > 0 {
        push_hexadecimal(text, n / 16, digits - 1);
        let low: u8 = (n % 16) as u8;
        if low < 10 {
            text.push((48 + low) as char);
        } else {
            text.push((97 + (low - 10)) as char);
        }
    }
}

/// Whether a character is a decimal digit.
pub open spec fn is_digit(c: char) -> bool {
    '0' <= c <= '9'
}

/// Whether a text is made of decimal digits alone.
pub open spec fn all_digits(text: Seq<char>) -> bool {
    forall|i: int| 0 <= i < text.len() ==> is_digit(#[trigger] text[i])
}

/// The number that decimal digits stand for.
pub open spec fn decimal_value(digits: Seq<char>) -> nat
    decreases digits.len(),
{
    if digits.len() == 0 {
        0
    } else {
        (decimal_value(digits.drop_last()) * 10 + (digits.last() as int - '0' as int)) as nat
    }
}

/// The digits of a number, without an optional plus sign in front.
pub open spec fn unsigned_part(text: Seq<char>) -> Seq<char> {
    if text.len() > 0 && text[0] == '+' {
        text.skip(1)
    } else {
        text
    }
}

/// The number that a text holds: an optional plus sign, then at least one digit and nothing else,
/// and a value of at most 64 bits.
pub open spec fn parsed_u64(text: Seq<char>) -> Option<u64> {
    let digits = unsigned_part(text);
    if digits.len() > 0 && all_digits(digits) && decimal_value(digits) <= u64::MAX {
        Some(decimal_value(digits) as u64)
    } else {
        None
    }
}

/// Reads an unsigned decimal number.
pub fn parse_u64(text: &str) -> (number: Option<u64>)
    ensures
        number == parsed_u64(text@),
{
    let chars = chars_of(text);
    let start: usize = if chars.len() > 0 && chars[0] == '+' {
        1
    } else {
        0
    };
    let ghost digits = unsigned_part(text@);
    assert(digits == chars@.skip(start as int));
    if start == chars.len() {
        return None;
    }
    let mut value: u64 = 0;
    let mut i: usize = start;
    while i < chars.len()
        invariant
            start <= i <= chars@.len(),
            digits == chars@.skip(start as int),
            digits.len() == chars@.len() - start,
            all_digits(digits.take(i - start)),
            value == decimal_value(digits.take(i - start)),
            digits == unsigned_part(text@),
        decreases chars@.len() - i,
    {
        let c: char = chars[i];
        let ghost k = i - start;
        assert(digits[k] == c);
        if c < '0' || c > '9' {
            assert(!is_digit(digits[k]));
            return None;
        }
        proof {
            assert(digits.take(k + 1).drop_last() == digits.take(k));
            assert(digits.take(k + 1).last() == c);
            lemma_value_grows(digits, k + 1);
        }
        let low: u64 = (c as u32 - '0' as u32) as u64;
        match value.checked_mul(10) {
            None => {
                return None;
            },
            Some(tens) => match tens.checked_add(low) {
                None => {
                    return None;
                },
                Some(sum) => {
                    value = sum;
                },
            },
        }
        assert(all_digits(digits.take(k + 1))) by {
            assert forall|j: int| 0 <= j < k + 1 implies is_digit(
                #[trigger] digits.take(k + 1)[j],
            ) by {
                if j < k {
                    assert(digits.take(k)[j] == digits[j]);
                }
            }
        }
        i += 1;
    }
    assert(digits.take(digits.len() as int) == digits);
    Some(value)
}

/// Digits that follow never make a number smaller.
proof fn lemma_value_grows(digits: Seq<char>, n: int)
    requires
        0 <= n <= digits.len(),
    ensures
        all_digits(digits) ==> decimal_value(digits.take(n)) <= decimal_value(digits),
    decreases digits.len(),
{
    if all_digits(digits) {
        if n == digits.len() {
            assert(digits.take(n) == digits);
        } else {
            let init = digits.drop_last();
            assert(all_digits(init)) by {
                assert forall|j: int| 0 <= j < init.len() implies is_digit(#[trigger] init[j]) by {
                    assert(init[j] == digits[j]);
                }
            }
            lemma_value_grows(init, n);
            assert(init.take(n) == digits.take(n));
            assert(is_digit(digits[digits.len() - 1]));
        }
    }
}

/// A number that was written in decimal is read back as it was.
pub proof fn law_decimal_reads_back(n: u64)
    ensures
        parsed_u64(decimal(n as nat)) == Some(n),
{
    lemma_decimal_digits(n as nat);
    assert(is_digit(decimal(n as nat)[0]));
}

pub(crate) proof fn lemma_decimal_digits(n: nat)
    ensures
        decimal(n).len() > 0,
        all_digits(decimal(n)),
        decimal_value(decimal(n)) == n,
    decreases n,
{
    reveal_with_fuel(decimal_value, 2);
    if n < 10 {
        assert(decimal(n).drop_last() == Seq::<char>::empty());
    } else {
        lemma_decimal_digits(n / 10);
        let init = decimal(n / 10);
        assert(decimal(n).drop_last() == init);
        assert forall|i: int| 0 <= i < decimal(n).len() implies is_digit(
            #[trigger] decimal(n)[i],
        ) by {
            if i < init.len() {
                assert(decimal(n)[i] == init[i]);
            }
        }
    }
}

/// Two numbers with the same decimal text are the same.
pub proof fn law_decimal_is_injective(a: nat, b: nat)
    requires
        decimal(a) == decimal(b),
    ensures
        a == b,
{
    lemma_decimal_digits(a);
    lemma_decimal_digits(b);
}

/// A text without the white space in front of it.
pub open spec fn trimmed_start(text: Seq<char>) -> Seq<char>
    decreases text.len(),
{
    if text.len() > 0 && white_space(text[0]) {
        trimmed_start(text.drop_first())
    } else {
        text
    }
}

/// A text without the white space behind it.
pub open spec fn trimmed_end(text: Seq<char>) -> Seq<char>
    decreases text.len(),
{
    if text.len() > 0 && white_space(text.last()) {
        trimmed_end(text.drop_last())
    } else {
        text
    }
}

/// A text without the white space around it.
pub open spec fn trimmed(text: Seq<char>) -> Seq<char> {
    trimmed_end(trimmed_start(text))
}

/// Removes the white space around a text.
pub fn trim(text: &str) -> (inner: String)
    ensures
        inner@ == trimmed(text@),
{
    let chars = chars_of(text);
    let (start, end) = trim_range(&chars, 0, chars.len());
    assert(chars@.subrange(0, chars@.len() as int) == text@);
    text_between(&chars, start, end)
}

/// The bounds of what is left of the characters from `from` up to `to` without the white space
/// around them.
fn trim_range(chars: &Vec<char>, from: usize, to: usize) -> (range: (usize, usize))
    requires
        from <= to <= chars@.len(),
    ensures
        from <= range.0 <= range.1 <= to,
        chars@.subrange(range.0 as int, range.1 as int) == trimmed(
            chars@.subrange(from as int, to as int),
        ),
{
    let mut start: usize = from;
    let ghost whole = chars@.subrange(from as int, to as int);
    while start < to && chars[start].is_whitespace()
        invariant
            from <= start <= to <= chars@.len(),
            trimmed_start(chars@.subrange(start as int, to as int)) == trimmed_start(whole),
        decreases to - start,
    {
        assert(chars@.subrange(start as int, to as int).drop_first() == chars@.subrange(
            start + 1,
            to as int,
        ));
        start += 1;
    }
    let mut end: usize = to;
    let ghost tail = chars@.subrange(start as int, to as int);
    assert(trimmed_start(whole) == tail);
    while end > start && chars[end - 1].is_whitespace()
        invariant
            from <= start <= end <= to <= chars@.len(),
            trimmed_end(chars@.subrange(start as int, end as int)) == trimmed_end(tail),
        decreases end - start,
    {
        assert(chars@.subrange(start as int, end as int).drop_last() == chars@.subrange(
            start as int,
            end - 1,
        ));
        end -= 1;
    }
    (start, end)
}

/// The lines of a text: a line ends with a line feed, which a carriage return may precede; the
/// end of the last line may be missing.
pub open spec fn lines_of(text: Seq<char>) -> Seq<Seq<char>>
    decreases text.len(),
{
    if text.len() == 0 {
        Seq::empty()
    } else {
        let n = line_length(text) as int;
        if n < text.len() {
            seq![without_return(text.take(n))] + lines_of(text.skip(n + 1))
        } else {
            seq![text]
        }
    }
}

/// The number of characters before the first line feed.
pub open spec fn line_length(text: Seq<char>) -> nat
    decreases text.len(),
{
    if text.len() == 0 || text[0] == '\n' {
        0
    } else {
        1 + line_length(text.drop_first())
    }
}

/// A line without one carriage return at its end.
pub open spec fn without_return(line: Seq<char>) -> Seq<char> {
    if line.len() > 0 && line.last() == '\r' {
        line.drop_last()
    } else {
        line
    }
}

/// The first line that holds more than white space.
pub open spec fn first_full_line(lines: Seq<Seq<char>>) -> Option<Seq<char>>
    decreases lines.len(),
{
    if lines.len() == 0 {
        None
    } else if trimmed(lines[0]).len() > 0 {
        Some(lines[0])
    } else {
        first_full_line(lines.drop_first())
    }
}

/// Finds the first line that holds more than white space.
pub fn find_full_line(text: &str) -> (line: Option<String>)
    ensures
        line is Some <==> first_full_line(lines_of(text@)) is Some,
        line matches Some(l) ==> first_full_line(lines_of(text@)) == Some(l@),
{
    let chars = chars_of(text);
    let mut start: usize = 0;
    assert(chars@.skip(0) == text@);
    while start < chars.len()
        invariant
            start <= chars@.len(),
            chars@ == text@,
            first_full_line(lines_of(chars@.skip(start as int))) == first_full_line(
                lines_of(text@),
            ),
        decreases chars@.len() - start,
    {
        let ghost rest = chars@.skip(start as int);
        let mut end: usize = start;
        while end < chars.len() && chars[end] != '\n'
            invariant
                start <= end <= chars@.len(),
                rest == chars@.skip(start as int),
                line_length(rest) == end - start + line_length(chars@.skip(end as int)),
            decreases chars@.len() - end,
        {
            assert(chars@.skip(end as int).drop_first() == chars@.skip(end + 1));
            end += 1;
        }
        let ghost n = end - start;
        assert(line_length(rest) == n);
        let terminated: bool = end < chars.len();
        let stop: usize = if terminated && end > start && chars[end - 1] == '\r' {
            end - 1
        } else {
            end
        };
        let ghost line = lines_of(rest)[0];
        proof {
            assert(rest.take(n) == chars@.subrange(start as int, end as int));
            if terminated {
                assert(lines_of(rest).drop_first() == lines_of(rest.skip(n + 1)));
                assert(rest.skip(n + 1) == chars@.skip(end + 1));
                assert(line == without_return(rest.take(n)));
            } else {
                assert(line == rest);
                assert(lines_of(rest).drop_first() == Seq::<Seq<char>>::empty());
            }
            assert(line == chars@.subrange(start as int, stop as int));
        }
        let (from, to) = trim_range(&chars, start, stop);
        if from < to {
            return Some(text_between(&chars, start, stop));
        }
        if !terminated {
            assert(first_full_line(Seq::<Seq<char>>::empty()) is None);
            return None;
        }
        start = end + 1;
    }
    assert(chars@.skip(start as int) == Seq::<char>::empty());
    None
}

/// Trimming a second time changes nothing.
pub proof fn law_trim_is_idempotent(text: Seq<char>)
    ensures
        trimmed(trimmed(text)) == trimmed(text),
{
    let start = trimmed_start(text);
    lemma_trimmed_start_ends(text);
    lemma_trimmed_end_ends(start);
    assert(trimmed_start(trimmed(text)) == trimmed(text));
}

proof fn lemma_trimmed_start_ends(text: Seq<char>)
    ensures
        trimmed_start(text).len() > 0 ==> !white_space(trimmed_start(text)[0]),
    decreases text.len(),
{
    if text.len() > 0 && white_space(text[0]) {
        lemma_trimmed_start_ends(text.drop_first());
    }
}

proof fn lemma_trimmed_end_ends(text: Seq<char>)
    ensures
        trimmed_end(text).len() > 0 ==> !white_space(trimmed_end(text).last()),
        trimmed_end(text).len() > 0 ==> trimmed_end(text)[0] == text[0],
    decreases text.len(),
{
    if text.len() > 0 && white_space(text.last()) {
        lemma_trimmed_end_ends(text.drop_last());
    }
}

/// The first full line of a text is never blank.
pub proof fn law_full_lines_are_not_blank(lines: Seq<Seq<char>>)
    ensures
        first_full_line(lines) matches Some(line) ==> trimmed(line).len() > 0 && lines.contains(
            line,
        ),
    decreases lines.len(),
{
    if lines.len() > 0 {
        if trimmed(lines[0]).len() == 0 {
            let rest = lines.drop_first();
            law_full_lines_are_not_blank(rest);
            if let Some(line) = first_full_line(rest) {
                let i = choose|i: int| 0 <= i < rest.len() && rest[i] == line;
                assert(lines[i + 1] == line);
            }
        } else {
            assert(lines.contains(lines[0]));
        }
    }
}

/// The decimal digits in order.
pub open spec fn ten_digits() -> Seq<char> {
    seq!['0', '1', '2', '3', '4', '5', '6', '7', '8', '9']
}

/// The hexadecimal digits in order, in lower case.
pub open spec fn sixteen_digits() -> Seq<char> {
    seq!['0', '1', '2', '3', '4', '5', '6', '7', '8', '9', 'a', 'b', 'c', 'd', 'e', 'f']
}

/// Whether a text spells a number in decimal: its last character is the digit of what is left over
/// from a division by ten, and what stands in front spells the rest, if there is a rest.
pub open spec fn spells(text: Seq<char>, n: nat) -> bool
    decreases text.len(),
{
    &&& text.len() > 0
    &&& text.last() == ten_digits()[(n % 10) as int]
    &&& if text.len() == 1 {
        n < 10
    } else {
        n >= 10 && spells(text.drop_last(), n / 10)
    }
}

/// Whether a text spells the last digits of a number in hexadecimal.
pub open spec fn spells_hex(text: Seq<char>, n: nat) -> bool
    decreases text.len(),
{
    text.len() > 0 ==> text.last() == sixteen_digits()[(n % 16) as int] && spells_hex(
        text.drop_last(),
        n / 16,
    )
}

proof fn lemma_decimal_spells(n: nat)
    ensures
        spells(decimal(n), n),
    decreases n,
{
    let low = (n % 10) as int;
    assert(digit(low) == ten_digits()[low]);
    if n >= 10 {
        lemma_decimal_spells(n / 10);
        assert(decimal(n).drop_last() == decimal(n / 10));
        assert(decimal(n / 10).len() > 0);
    } else {
        assert(n % 10 == n);
    }
}

proof fn lemma_hexadecimal_spells(n: nat, digits: nat)
    ensures
        hexadecimal(n, digits).len() == digits,
        spells_hex(hexadecimal(n, digits), n),
    decreases digits,
{
    if digits > 0 {
        let low = (n % 16) as int;
        assert(hex_digit(low) == sixteen_digits()[low]);
        lemma_hexadecimal_spells(n / 16, (digits - 1) as nat);
        assert(hexadecimal(n, digits).drop_last() == hexadecimal(n / 16, (digits - 1) as nat));
    }
}

/// A number is appended in decimal: what was there stays, and what follows spells the number
/// without a zero in front.
pub proof fn law_numbers_are_spelled_out(text: &mut String, n: u64)
    requires
        call_ensures(push_decimal, (text, n), ()),
    ensures
        final(text)@.len() > old(text)@.len(),
        final(text)@.take(old(text)@.len() as int) == old(text)@,
        spells(final(text)@.skip(old(text)@.len() as int), n as nat),
{
    lemma_decimal_spells(n as nat);
    assert(final(text)@.skip(old(text)@.len() as int) == decimal(n as nat));
    assert(final(text)@.take(old(text)@.len() as int) == old(text)@);
}

/// So are as many of the last digits of a number in hexadecimal as are asked for.
pub proof fn law_codes_are_spelled_out(text: &mut String, n: u64, digits: u8)
    requires
        call_ensures(push_hexadecimal, (text, n, digits), ()),
    ensures
        final(text)@.len() == old(text)@.len() + digits,
        final(text)@.take(old(text)@.len() as int) == old(text)@,
        spells_hex(final(text)@.skip(old(text)@.len() as int), n as nat),
{
    lemma_hexadecimal_spells(n as nat, digits as nat);
    assert(final(text)@.skip(old(text)@.len() as int) == hexadecimal(n as nat, digits as nat));
    assert(final(text)@.take(old(text)@.len() as int) == old(text)@);
}

/// The words that hold a number hold it spelled out.
pub proof fn law_words_spell_numbers(n: nat, digits: nat)
    ensures
        spells(decimal(n), n),
        hexadecimal(n, digits).len() == digits,
        spells_hex(hexadecimal(n, digits), n),
{
    lemma_decimal_spells(n);
    lemma_hexadecimal_spells(n, digits);
}

/// Nothing at all and a plus sign alone are no numbers, and one digit is its own.
pub proof fn law_shortest_numbers_are_read(text: &str, number: Option<u64>, k: int)
    requires
        call_ensures(parse_u64, (text,), number),
        0 <= k < 10,
    ensures
        text@.len() == 0 ==> number is None,
        text@ == seq!['+'] ==> number is None,
        text@ == seq![ten_digits()[k]] || text@ == seq!['+', ten_digits()[k]] ==> number == Some(
            k as u64,
        ),
        text@.len() == 1 && !ten_digits().contains(text@[0]) ==> number is None,
{
    let c = ten_digits()[k];
    reveal_with_fuel(decimal_value, 2);
    lemma_digit_chars(c, k);
    assert(seq!['+', c].skip(1) == seq![c]);
    assert(seq![c].drop_last() == Seq::<char>::empty());
    assert(decimal_value(seq![c]) == k);
    if text@ == seq![c] || text@ == seq!['+', c] {
        assert(unsigned_part(text@) == seq![c]);
    }
    if text@.len() == 1 && !ten_digits().contains(text@[0]) {
        if is_digit(text@[0]) {
            assert(text@[0] == ten_digits()[text@[0] as int - '0' as int]);
        }
        if unsigned_part(text@).len() > 0 {
            assert(!is_digit(unsigned_part(text@)[0]));
        }
    }
}

proof fn lemma_digit_chars(c: char, k: int)
    requires
        0 <= k < 10,
    ensures
        c == ten_digits()[k] <==> is_digit(c) && c as int - '0' as int == k,
{
}

/// A digit behind a number makes it ten times as much and that digit, and no number where that is
/// more than 64 bits hold. Any other character behind a text makes it no number, and neither does a
/// digit make one of a text that is none, unless nothing but a sign stands in front of it.
pub proof fn law_longer_numbers_are_read(
    text: &str,
    number: Option<u64>,
    longer: &str,
    longer_number: Option<u64>,
    k: int,
)
    requires
        longer@.len() == text@.len() + 1,
        longer@.drop_last() == text@,
        text@.len() > 0,
        text@ != seq!['+'],
        call_ensures(parse_u64, (text,), number),
        call_ensures(parse_u64, (longer,), longer_number),
    ensures
        number is None ==> longer_number is None,
        !ten_digits().contains(longer@.last()) ==> longer_number is None,
        0 <= k < 10 && longer@.last() == ten_digits()[k] ==> (number matches Some(n) ==> (
        if n * 10 + k <= 0xffff_ffff_ffff_ffff {
            longer_number == Some((n * 10 + k) as u64)
        } else {
            longer_number is None
        })),
{
    let digits = unsigned_part(text@);
    let more = unsigned_part(longer@);
    let c = longer@.last();
    assert(longer@[0] == text@[0]);
    assert(more.drop_last() == digits);
    assert(more.last() == c);
    if text@[0] == '+' && digits.len() == 0 {
        assert(text@ == seq!['+']);
    }
    assert(digits.len() > 0);
    if all_digits(more) {
        assert forall|i: int| 0 <= i < digits.len() implies is_digit(#[trigger] digits[i]) by {
            assert(more[i] == digits[i]);
        }
        assert(is_digit(more[more.len() - 1]));
    }
    if all_digits(digits) && is_digit(c) {
        assert forall|i: int| 0 <= i < more.len() implies is_digit(#[trigger] more[i]) by {
            if i < digits.len() {
                assert(more[i] == digits[i]);
            }
        }
    }
    if is_digit(c) {
        assert(c == ten_digits()[c as int - '0' as int]);
    }
    if 0 <= k < 10 {
        lemma_digit_chars(c, k);
    }
    assert(decimal_value(more) == (decimal_value(digits) * 10 + (c as int - '0' as int)) as nat);
}

proof fn lemma_start_trimmed(text: Seq<char>) -> (k: int)
    ensures
        0 <= k <= text.len(),
        trimmed_start(text) == text.skip(k),
        forall|i: int| 0 <= i < k ==> white_space(#[trigger] text[i]),
        k < text.len() ==> !white_space(text[k]),
    decreases text.len(),
{
    if text.len() > 0 && white_space(text[0]) {
        let rest = text.drop_first();
        let k = lemma_start_trimmed(rest);
        assert(rest.skip(k) == text.skip(k + 1));
        assert forall|i: int| 0 <= i < k + 1 implies white_space(#[trigger] text[i]) by {
            if i > 0 {
                assert(rest[i - 1] == text[i]);
            }
        }
        if k + 1 < text.len() {
            assert(rest[k] == text[k + 1]);
        }
        k + 1
    } else {
        assert(text.skip(0) == text);
        0
    }
}

proof fn lemma_end_trimmed(text: Seq<char>) -> (k: int)
    ensures
        0 <= k <= text.len(),
        trimmed_end(text) == text.take(k),
        forall|i: int| k <= i < text.len() ==> white_space(#[trigger] text[i]),
        k > 0 ==> !white_space(text[k - 1]),
    decreases text.len(),
{
    if text.len() > 0 && white_space(text.last()) {
        let rest = text.drop_last();
        let k = lemma_end_trimmed(rest);
        assert(rest.take(k) == text.take(k));
        assert forall|i: int| k <= i < text.len() implies white_space(#[trigger] text[i]) by {
            if i < rest.len() {
                assert(rest[i] == text[i]);
            }
        }
        if k > 0 {
            assert(rest[k - 1] == text[k - 1]);
        }
        k
    } else {
        assert(text.take(text.len() as int) == text);
        text.len() as int
    }
}

/// Whether a text from one place up to another is what white space surrounds: it neither starts nor
/// ends with white space itself.
pub open spec fn is_inner(text: Seq<char>, from: int, to: int) -> bool {
    &&& 0 <= from <= to <= text.len()
    &&& forall|i: int| 0 <= i < from ==> white_space(#[trigger] text[i])
    &&& forall|i: int| to <= i < text.len() ==> white_space(#[trigger] text[i])
    &&& from < to ==> !white_space(text[from]) && !white_space(text[to - 1])
}

pub(crate) proof fn lemma_trimmed(text: Seq<char>) -> (range: (int, int))
    ensures
        is_inner(text, range.0, range.1),
        trimmed(text) == text.subrange(range.0, range.1),
{
    let from = lemma_start_trimmed(text);
    let rest = text.skip(from);
    let k = lemma_end_trimmed(rest);
    let to = from + k;
    assert forall|i: int| to <= i < text.len() implies white_space(#[trigger] text[i]) by {
        assert(rest[i - from] == text[i]);
    }
    if k > 0 {
        assert(rest[k - 1] == text[to - 1]);
    }
    assert(rest.take(k) == text.subrange(from, to));
    (from, to)
}

/// A text is trimmed to what white space surrounds, in one piece.
pub proof fn law_white_space_is_trimmed(text: &str, inner: String) -> (range: (int, int))
    requires
        call_ensures(trim, (text,), inner),
    ensures
        is_inner(text@, range.0, range.1),
        inner@ == text@.subrange(range.0, range.1),
{
    lemma_trimmed(text@)
}

/// Whether a text is a line of another one: it starts at the start or behind a line feed, and ends
/// before the next line feed, or before a carriage return in front of that, or at the end.
pub open spec fn is_line(text: Seq<char>, line: Seq<char>, from: int, to: int) -> bool {
    &&& 0 <= from <= to <= text.len()
    &&& from > 0 ==> text[from - 1] == '\n'
    &&& forall|i: int| from <= i < to ==> #[trigger] text[i] != '\n'
    &&& to < text.len() ==> text[to] == '\n'
    &&& line == (if to < text.len() && from < to && text[to - 1] == '\r' {
        text.subrange(from, to - 1)
    } else {
        text.subrange(from, to)
    })
}

/// Whether a text is white space alone.
pub open spec fn is_blank(text: Seq<char>) -> bool {
    forall|i: int| 0 <= i < text.len() ==> white_space(#[trigger] text[i])
}

proof fn lemma_line_length(text: Seq<char>)
    ensures
        line_length(text) <= text.len(),
        forall|i: int| 0 <= i < line_length(text) ==> #[trigger] text[i] != '\n',
        line_length(text) < text.len() ==> text[line_length(text) as int] == '\n',
    decreases text.len(),
{
    if text.len() > 0 && text[0] != '\n' {
        let rest = text.drop_first();
        lemma_line_length(rest);
        assert forall|i: int| 0 <= i < line_length(text) implies #[trigger] text[i] != '\n' by {
            if i > 0 {
                assert(rest[i - 1] == text[i]);
            }
        }
        if line_length(text) < text.len() {
            assert(rest[line_length(rest) as int] == text[line_length(text) as int]);
        }
    }
}

proof fn lemma_blank(text: Seq<char>)
    ensures
        trimmed(text).len() == 0 <==> is_blank(text),
{
    let (from, to) = lemma_trimmed(text);
    if from < to {
        assert(!white_space(text[from]));
    } else {
        assert forall|i: int| 0 <= i < text.len() implies white_space(#[trigger] text[i]) by {}
    }
}

proof fn lemma_full_line(text: Seq<char>) -> (range: (int, int))
    ensures
        first_full_line(lines_of(text)) is None <==> is_blank(text),
        first_full_line(lines_of(text)) matches Some(line) ==> is_line(
            text,
            line,
            range.0,
            range.1,
        ) && !is_blank(line) && is_blank(text.take(range.0)),
    decreases text.len(),
{
    if text.len() == 0 {
        (0, 0)
    } else {
        let n = line_length(text) as int;
        let lines = lines_of(text);
        let line = lines[0];
        lemma_line_length(text);
        lemma_blank(line);
        if n < text.len() {
            let rest = text.skip(n + 1);
            let (from, to) = lemma_full_line(rest);
            assert(lines.drop_first() == lines_of(rest));
            assert(line == without_return(text.take(n)));
            assert(white_space('\n') && white_space('\r'));
            if n > 0 && text[n - 1] == '\r' {
                assert(text.take(n).last() == '\r');
                assert(line == text.subrange(0, n - 1));
            } else {
                assert(line == text.subrange(0, n));
            }
            if trimmed(line).len() > 0 {
                assert(text.take(0) == Seq::<char>::empty());
                let k = choose|k: int| 0 <= k < line.len() && !white_space(#[trigger] line[k]);
                assert(!white_space(text[k]));
                (0, n)
            } else {
                assert forall|i: int| 0 <= i < n + 1 implies white_space(#[trigger] text[i]) by {
                    if i < line.len() {
                        assert(white_space(line[i]));
                    }
                }
                assert forall|i: int| 0 <= i < rest.len() implies #[trigger] rest[i] == text[n + 1
                    + i] by {}
                if is_blank(rest) {
                    assert forall|i: int| 0 <= i < text.len() implies white_space(
                        #[trigger] text[i],
                    ) by {
                        if i > n {
                            assert(rest[i - n - 1] == text[i]);
                        }
                    }
                }
                if is_blank(text) {
                    assert forall|i: int| 0 <= i < rest.len() implies white_space(
                        #[trigger] rest[i],
                    ) by {
                        assert(white_space(text[n + 1 + i]));
                    }
                }
                if let Some(found) = first_full_line(lines_of(rest)) {
                    let start = n + 1 + from;
                    let end = n + 1 + to;
                    assert forall|i: int| start <= i < end implies #[trigger] text[i] != '\n' by {
                        assert(rest[i - n - 1] == text[i]);
                    }
                    if from > 0 {
                        assert(rest[from - 1] == text[start - 1]);
                    }
                    if to < rest.len() {
                        assert(rest[to] == text[end]);
                    }
                    if from < to {
                        assert(rest[to - 1] == text[end - 1]);
                    }
                    if to < rest.len() && from < to && rest[to - 1] == '\r' {
                        assert(found == text.subrange(start, end - 1));
                    } else {
                        assert(found == text.subrange(start, end));
                    }
                    assert forall|i: int| 0 <= i < start implies white_space(
                        #[trigger] text.take(start)[i],
                    ) by {
                        if i > n {
                            assert(rest.take(from)[i - n - 1] == text[i]);
                        } else {
                            assert(white_space(text[i]));
                        }
                    }
                }
                (n + 1 + from, n + 1 + to)
            }
        } else {
            assert(line == text);
            assert(lines.drop_first() == Seq::<Seq<char>>::empty());
            assert(first_full_line(lines.drop_first()) is None);
            assert(text.take(0) == Seq::<char>::empty());
            assert(text.subrange(0, n) == text);
            (0, n)
        }
    }
}

/// The line that is found in a text is a line of it with more than white space, and only white
/// space stands in front of it. None is found exactly where the text is white space alone.
pub proof fn law_first_full_line_is_found(text: &str, line: Option<String>) -> (range: (int, int))
    requires
        call_ensures(find_full_line, (text,), line),
    ensures
        line is None <==> is_blank(text@),
        line matches Some(l) ==> is_line(text@, l@, range.0, range.1) && !is_blank(l@) && is_blank(
            text@.take(range.0),
        ),
{
    lemma_full_line(text@)
}

/// Texts are taken apart into their characters and put together from them, and are the same where
/// these are.
pub proof fn law_texts_are_their_characters(
    a: &str,
    b: &str,
    same: bool,
    chars: Vec<char>,
    start: usize,
    end: usize,
    part: String,
)
    requires
        call_ensures(same_text, (a, b), same),
        call_ensures(chars_of, (a,), chars),
        start <= end <= chars@.len(),
        call_ensures(text_between, (&chars, start, end), part),
    ensures
        same <==> a@.len() == b@.len() && forall|i: int|
            0 <= i < a@.len() ==> #[trigger] a@[i] == b@[i],
        chars@ == a@,
        part@ == a@.subrange(start as int, end as int),
{
    if a@.len() == b@.len() && forall|i: int| 0 <= i < a@.len() ==> #[trigger] a@[i] == b@[i] {
        assert(a@ == b@);
    }
}

} // verus!
