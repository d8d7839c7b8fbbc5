//! Byte classes of the lexical grammar, and the bridge between the two models
//! of a string: its characters and its UTF-8 bytes.

use vstd::prelude::*;
use vstd::string::*;
use vstd::utf8::*;

verus! {

/// The byte that stands for an ASCII character.
pub open spec fn byte(c: char) -> u8 {
    c as u8
}

/// Blanks: space, tab, line feed and carriage return.
pub open spec fn is_space(b: u8) -> bool {
    b == byte(' ') || b == byte('\t') || b == byte('\n') || b == byte('\r')
}

/// The decimal digits.
pub open spec fn is_digit(b: u8) -> bool {
    byte('0') <= b <= byte('9')
}

/// The letters in lower case.
pub open spec fn is_lower(b: u8) -> bool {
    byte('a') <= b <= byte('z')
}

/// The letters in upper case.
pub open spec fn is_upper(b: u8) -> bool {
    byte('A') <= b <= byte('Z')
}

/// Bytes that may continue an identifier: letters, digits and the underscore.
pub open spec fn is_word(b: u8) -> bool {
    is_digit(b) || is_lower(b) || is_upper(b) || b == byte('_')
}

/// Every byte is below 128.
pub open spec fn is_ascii_bytes(s: Seq<u8>) -> bool {
    forall|i: int| 0 <= i < s.len() ==> #[trigger] s[i] < 128
}

/// The characters that a sequence of ASCII bytes spells.
pub open spec fn chars_of(s: Seq<u8>) -> Seq<char> {
    Seq::new(s.len(), |i: int| s[i] as char)
}

/// The bytes of a sequence of ASCII characters.
pub open spec fn bytes_of(s: Seq<char>) -> Seq<u8> {
    Seq::new(s.len(), |i: int| s[i] as u8)
}

/// ASCII text is encoded one byte per character.
pub proof fn lemma_encode_ascii(s: Seq<char>)
    requires
        is_ascii_chars(s),
    ensures
        encode_utf8(s) == bytes_of(s),
        is_ascii_bytes(bytes_of(s)),
        chars_of(bytes_of(s)) == s,
{
    is_ascii_chars_encode_utf8(s);
    assert(encode_utf8(s) =~= bytes_of(s));
    assert forall|i: int| 0 <= i < s.len() implies #[trigger] bytes_of(s)[i] < 128 by {
        let c = s[i];
        assert('\0' <= c <= '\u{7f}');
    }
    assert forall|i: int| 0 <= i < s.len() implies #[trigger] chars_of(bytes_of(s))[i] == s[i] by {
        let c = s[i];
        assert('\0' <= c <= '\u{7f}');
    }
    assert(chars_of(bytes_of(s)) =~= s);
}

/// ASCII bytes are the encoding of the characters they spell.
pub proof fn lemma_ascii_bytes_encode(b: Seq<u8>)
    requires
        is_ascii_bytes(b),
    ensures
        is_ascii_chars(chars_of(b)),
        encode_utf8(chars_of(b)) == b,
        decode_utf8(b) == chars_of(b),
{
    let c = chars_of(b);
    assert forall|i: int| 0 <= i < c.len() implies '\0' <= #[trigger] c[i] <= '\u{7f}' by {
        assert(b[i] < 128);
    }
    lemma_encode_ascii(c);
    assert(bytes_of(c) =~= b) by {
        assert forall|i: int| 0 <= i < b.len() implies bytes_of(c)[i] == b[i] by {
            assert(b[i] < 128);
        }
    }
    encode_utf8_decode_utf8(c);
}

/// A string whose bytes are all ASCII spells exactly those bytes.
pub proof fn lemma_ascii_view(s: Seq<char>)
    requires
        is_ascii_bytes(encode_utf8(s)),
    ensures
        s == chars_of(encode_utf8(s)),
        is_ascii_chars(s),
{
    let b = encode_utf8(s);
    lemma_ascii_bytes_encode(b);
    encode_utf8_decode_utf8(s);
}

/// Two strings are equal exactly when their encodings are.
pub proof fn lemma_encode_injective(a: Seq<char>, b: Seq<char>)
    ensures
        (encode_utf8(a) == encode_utf8(b)) <==> a == b,
{
    encode_utf8_decode_utf8(a);
    encode_utf8_decode_utf8(b);
}

/// Whether two strings hold the same text.
pub fn str_eq(a: &str, b: &str) -> (same: bool)
    ensures
        same == (a@ == b@),
{
    let x = a.as_bytes();
    let y = b.as_bytes();
    proof {
        lemma_encode_injective(a@, b@);
    }
    if x.len() != y.len() {
        return false;
    }
    let mut i: usize = 0;
    while i < x.len()
        invariant
            i <= x.len(),
            x.len() == y.len(),
            x@ == a.spec_bytes(),
            y@ == b.spec_bytes(),
            forall|k: int| 0 <= k < i ==> x@[k] == y@[k],
        decreases x.len() - i,
    {
        if x[i] != y[i] {
            return false;
        }
        i += 1;
    }
    assert(x@ =~= y@);
    true
}

/// In well-formed UTF-8 a character begins right after every ASCII byte.
pub proof fn lemma_boundary_after_ascii(bytes: Seq<u8>, i: int)
    requires
        valid_utf8(bytes),
        0 <= i < bytes.len(),
        bytes[i] < 128,
    ensures
        is_char_boundary(bytes, i + 1),
    decreases bytes.len(),
{
    let rest = pop_first_scalar(bytes);
    let width = length_of_first_scalar(bytes);
    if i == 0 {
        assert(is_char_boundary(rest, 0));
    } else {
        is_char_boundary_iff_not_is_continuation_byte(bytes, i);
        assert(is_char_boundary(rest, i - width));
        assert(0 <= i - width);
        assert(rest[i - width] == bytes[i]);
        lemma_boundary_after_ascii(rest, i - width);
    }
}

/// The part of `input` from byte `start` up to byte `end`, which must hold
/// ASCII only.
pub fn slice<'a>(input: &'a str, start: usize, end: usize) -> (part: &'a str)
    requires
        start < end <= input.spec_bytes().len(),
        forall|i: int| start <= i < end ==> #[trigger] input.spec_bytes()[i] < 128,
    ensures
        part.spec_bytes() == input.spec_bytes().subrange(start as int, end as int),
        part@ == chars_of(input.spec_bytes().subrange(start as int, end as int)),
{
    let ghost bytes = input.spec_bytes();
    proof {
        encode_utf8_valid_utf8(input@);
        lemma_boundary_after_ascii(bytes, end - 1);
        valid_utf8_split(bytes, end as int);
    }
    let (head, _) = input.split_at(end);
    proof {
        assert(head.spec_bytes()[start as int] == bytes[start as int]);
        is_char_boundary_iff_not_is_continuation_byte(head.spec_bytes(), start as int);
    }
    let (_, part) = head.split_at(start);
    proof {
        let b = bytes.subrange(start as int, end as int);
        assert(part.spec_bytes() =~= b);
        assert forall|i: int| 0 <= i < b.len() implies #[trigger] b[i] < 128 by {
            assert(b[i] == bytes[start + i]);
        }
        lemma_ascii_view(part@);
    }
    part
}

/// Whether `b` is a blank: a space, a tab, a line feed or a carriage return.
pub fn space_byte(b: u8) -> (r: bool)
    ensures
        r == is_space(b),
{
    b == ' ' as u8 || b == '\t' as u8 || b == '\n' as u8 || b == '\r' as u8
}

/// Whether `b` is a decimal digit.
pub fn digit_byte(b: u8) -> (r: bool)
    ensures
        r == is_digit(b),
{
    '0' as u8 <= b && b <= '9' as u8
}

/// Whether `b` is a letter in lower case.
pub fn lower_byte(b: u8) -> (r: bool)
    ensures
        r == is_lower(b),
{
    'a' as u8 <= b && b <= 'z' as u8
}

/// Whether `b` is a letter in upper case.
pub fn upper_byte(b: u8) -> (r: bool)
    ensures
        r == is_upper(b),
{
    'A' as u8 <= b && b <= 'Z' as u8
}

/// Whether `b` may stand in a word: a letter, a digit or an underscore.
pub fn word_byte(b: u8) -> (r: bool)
    ensures
        r == is_word(b),
{
    digit_byte(b) || lower_byte(b) || upper_byte(b) || b == '_' as u8
}

} // verus!
