//! URIs of local files.

use vstd::prelude::*;

verus! {

/// Whether a byte of a path stands for itself in a URI: letters, digits, and `-._~/`.
pub open spec fn unreserved(byte: u8) -> bool {
    ||| 0x41 <= byte <= 0x5a
    ||| 0x61 <= byte <= 0x7a
    ||| 0x30 <= byte <= 0x39
    ||| byte == 0x2d
    ||| byte == 0x2e
    ||| byte == 0x5f
    ||| byte == 0x7e
    ||| byte == 0x2f
}

/// A hexadecimal digit, in upper case.
pub open spec fn hex_digit(value: int) -> char {
    if value < 10 {
        (0x30 + value) as char
    } else {
        (0x41 + value - 10) as char
    }
}

/// A byte of a path in a URI.
pub open spec fn escaped_byte(byte: u8) -> Seq<char> {
    if unreserved(byte) {
        seq![byte as char]
    } else {
        seq!['%', hex_digit(byte as int / 16), hex_digit(byte as int % 16)]
    }
}

/// A path in a URI.
pub open spec fn escaped(path: Seq<u8>) -> Seq<char>
    decreases path.len(),
{
    if path.len() == 0 {
        Seq::empty()
    } else {
        escaped(path.drop_last()) + escaped_byte(path.last())
    }
}

/// The URI of a path.
pub open spec fn file_uri(path: Seq<u8>) -> Seq<char> {
    "file://"@ + escaped(path)
}

fn push_hex_digit(text: &mut String, value: u8)
    requires
        value < 16,
    ensures
        final(text)@ == old(text)@.push(hex_digit(value as int)),
{
    if value < 10 {
        text.push((0x30 + value) as char);
    } else {
        text.push((0x41 + (value - 10)) as char);
    }
}

/// The URI of a path.
pub fn path_to_file_uri(path: &[u8]) -> (uri: String)
    ensures
        uri@ == file_uri(path@),
{
    let mut uri: String = "file://".to_owned();
    let mut i: usize = 0;
    assert(path@.take(0) == Seq::<u8>::empty());
    while i < path.len()
        invariant
            i <= path@.len(),
            uri@ == "file://"@ + escaped(path@.take(i as int)),
        decreases path@.len() - i,
    {
        let ghost before = uri@;
        let byte: u8 = path[i];
        match byte {
            0x41..=0x5a | 0x61..=0x7a | 0x30..=0x39 | 0x2d | 0x2e | 0x5f | 0x7e | 0x2f => {
                uri.push(byte as char);
            },
            _ => {
                uri.push('%');
                push_hex_digit(&mut uri, byte / 16);
                push_hex_digit(&mut uri, byte % 16);
            },
        }
        assert(uri@ == before + escaped_byte(byte));
        assert(path@.take(i + 1).drop_last() == path@.take(i as int));
        assert(uri@ == "file://"@ + escaped(path@.take(i + 1)));
        i += 1;
    }
    assert(path@.take(i as int) == path@);
    uri
}

/// The value of a hexadecimal digit.
pub open spec fn hex_value(digit: char) -> int {
    if '0' <= digit <= '9' {
        digit as int - 0x30
    } else {
        digit as int - 0x41 + 10
    }
}

/// The path in a URI: a percent sign and two hexadecimal digits stand for a byte, any other
/// character for its own code.
pub open spec fn unescaped(text: Seq<char>) -> Seq<u8>
    decreases text.len(),
{
    if text.len() == 0 {
        Seq::empty()
    } else if text[0] == '%' && text.len() >= 3 {
        seq![(hex_value(text[1]) * 16 + hex_value(text[2])) as u8] + unescaped(text.skip(3))
    } else {
        seq![text[0] as u8] + unescaped(text.skip(1))
    }
}

proof fn lemma_escaped_from_front(path: Seq<u8>)
    requires
        path.len() > 0,
    ensures
        escaped(path) == escaped_byte(path[0]) + escaped(path.drop_first()),
    decreases path.len(),
{
    if path.len() == 1 {
        assert(path.drop_last() == Seq::<u8>::empty());
        assert(path.drop_first() == Seq::<u8>::empty());
    } else {
        lemma_escaped_from_front(path.drop_last());
        assert(path.drop_last().drop_first() == path.drop_first().drop_last());
        assert(path.drop_first().last() == path.last());
    }
}

/// The path can be read back out of its URI.
pub proof fn law_uri_reads_back(path: Seq<u8>)
    ensures
        unescaped(escaped(path)) == path,
        file_uri(path).skip("file://"@.len() as int) == escaped(path),
    decreases path.len(),
{
    assert(file_uri(path).skip("file://"@.len() as int) == escaped(path));
    if path.len() > 0 {
        let rest = path.drop_first();
        let byte = path[0];
        lemma_escaped_from_front(path);
        law_uri_reads_back(rest);
        let text = escaped(path);
        if unreserved(byte) {
            assert(text[0] == byte as char);
            assert(text.skip(1) == escaped(rest));
            assert(byte as char != '%');
            assert((byte as char) as u8 == byte);
        } else {
            let high = byte as int / 16;
            let low = byte as int % 16;
            assert(text[0] == '%');
            assert(text[1] == hex_digit(high));
            assert(text[2] == hex_digit(low));
            assert(text.skip(3) == escaped(rest));
            assert(hex_value(hex_digit(high)) == high);
            assert(hex_value(hex_digit(low)) == low);
        }
        assert(seq![byte] + rest == path);
    }
}

/// Two paths with the same URI are the same.
pub proof fn law_uris_are_distinct(a: Seq<u8>, b: Seq<u8>)
    requires
        file_uri(a) == file_uri(b),
    ensures
        a == b,
{
    law_uri_reads_back(a);
    law_uri_reads_back(b);
}

/// A URI holds only characters that stand for themselves in a URI, and percent signs.
pub proof fn law_uri_is_plain(path: Seq<u8>, i: int)
    requires
        0 <= i < escaped(path).len(),
    ensures
        escaped(path)[i] as int <= 0x7f,
        escaped(path)[i] == '%' || unreserved(escaped(path)[i] as u8),
    decreases path.len(),
{
    if path.len() > 0 {
        let init = escaped(path.drop_last());
        if i < init.len() {
            law_uri_is_plain(path.drop_last(), i);
            assert(escaped(path)[i] == init[i]);
        } else {
            let c = escaped_byte(path.last())[i - init.len()];
            assert(escaped(path)[i] == c);
        }
    }
}

/// Whether a byte is that of an ASCII letter or digit, or of one of the signs that need no escape.
pub open spec fn is_plain(byte: u8) -> bool {
    let c = byte as char;
    ||| 'A' <= c && c <= 'Z'
    ||| 'a' <= c && c <= 'z'
    ||| '0' <= c && c <= '9'
    ||| c == '-'
    ||| c == '.'
    ||| c == '_'
    ||| c == '~'
    ||| c == '/'
}

/// Whether a character is the hexadecimal digit of a value, in upper case.
pub open spec fn is_digit_of(digit: char, value: int) -> bool {
    ||| 0 <= value && value <= 9 && '0' <= digit && digit as int - '0' as int == value
    ||| 10 <= value && value <= 15 && 'A' <= digit && digit as int - 'A' as int == value - 10
}

proof fn lemma_escaped_in_turn(a: Seq<u8>, b: Seq<u8>)
    ensures
        escaped(a + b) == escaped(a) + escaped(b),
    decreases b.len(),
{
    if b.len() == 0 {
        assert(a + b == a);
    } else {
        assert((a + b).drop_last() == a + b.drop_last());
        lemma_escaped_in_turn(a, b.drop_last());
    }
}

/// The URI of a path starts with its scheme, and the parts of the path follow in turn, each as in a
/// URI of its own.
pub proof fn law_parts_are_escaped_in_turn(
    path: &[u8],
    uri: String,
    front: &[u8],
    front_uri: String,
    back: &[u8],
    back_uri: String,
)
    requires
        path@ == front@ + back@,
        call_ensures(path_to_file_uri, (path,), uri),
        call_ensures(path_to_file_uri, (front,), front_uri),
        call_ensures(path_to_file_uri, (back,), back_uri),
    ensures
        "file://"@.len() == 7,
        front@.len() == 0 ==> front_uri@ == "file://"@,
        back_uri@.len() >= 7 && back_uri@.take(7) == "file://"@,
        uri@ == front_uri@ + back_uri@.skip(7),
{
    reveal_strlit("file://");
    lemma_escaped_in_turn(front@, back@);
    assert(back_uri@.skip(7) == escaped(back@));
    assert(back_uri@.take(7) == "file://"@);
}

/// A letter, a digit and each of the signs `-._~/` stand for themselves in a URI. Any other byte is
/// a percent sign and two digits.
pub proof fn law_bytes_are_escaped(path: &[u8], uri: String)
    requires
        path@.len() == 1,
        call_ensures(path_to_file_uri, (path,), uri),
    ensures
        uri@.take(7) == "file://"@,
        is_plain(path@[0]) ==> uri@.len() == 8 && uri@[7] == path@[0] as char,
        !is_plain(path@[0]) ==> uri@.len() == 10 && uri@[7] == '%' && is_digit_of(
            uri@[8],
            path@[0] as int / 16,
        ) && is_digit_of(uri@[9], path@[0] as int % 16),
{
    reveal_strlit("file://");
    let byte = path@[0];
    assert(path@.drop_last() == Seq::<u8>::empty());
    assert(escaped(path@.drop_last()) == Seq::<char>::empty());
    assert(escaped(path@) == escaped_byte(byte));
    assert(uri@.take(7) == "file://"@);
}

} // verus!
