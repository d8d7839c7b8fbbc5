//! The table of lexemes, and the rule by which the tokenizer chooses among
//! them: the longest text that the table knows, and among the tokens of that
//! text a keyword or literal before an identifier.

use vstd::prelude::*;
use crate::ascii::{byte, chars_of, is_digit, is_lower, is_space, is_upper, is_word};
use crate::decimal::all_digits;
use crate::grammar::{
    Lexeme, TokenView, at, bool_literal, comment_len, digit_len, int_literal, lemma_digit_len,
    lemma_trivia_len, lemma_word_len, lexeme, trivia_len, word_len,
};
use crate::reading::is_word_text;
use crate::spelling::lemma_keywords;

verus! {

/// A punctuation mark or an operator.
pub open spec fn is_mark(text: Seq<u8>) -> bool {
    ||| text.len() == 1 && (at(text, 0, '.') || at(text, 0, ',') || at(text, 0, ':') || at(
        text,
        0,
        '=',
    ) || at(text, 0, '(') || at(text, 0, ')') || at(text, 0, '[') || at(text, 0, ']') || at(
        text,
        0,
        '|',
    ) || at(text, 0, '*') || at(text, 0, '+') || at(text, 0, '-') || at(text, 0, '<') || at(
        text,
        0,
        '>',
    ))
    ||| text.len() == 2 && at(text, 1, '>') && (at(text, 0, '-') || at(text, 0, '='))
    ||| text.len() == 2 && at(text, 1, '=') && (at(text, 0, '=') || at(text, 0, '!'))
    ||| text.len() == 2 && at(text, 0, '&') && at(text, 1, '&')
    ||| text.len() == 2 && at(text, 0, '|') && at(text, 1, '|')
}

/// The symbolic spelling of `any`, of `lambda` or of `forall`.
pub open spec fn is_glyph(text: Seq<u8>) -> bool {
    text == seq![0xceu8, 0x9bu8] || text == seq![0xceu8, 0xbbu8] || text == seq![
        0xe2u8,
        0x88u8,
        0x80u8,
    ]
}

/// A letter followed by letters, digits and underscores: an identifier or a
/// keyword.
pub open spec fn is_word_run(text: Seq<u8>) -> bool {
    &&& text.len() > 0
    &&& is_lower(text[0]) || is_upper(text[0])
    &&& forall|i: int| 0 <= i < text.len() ==> is_word(#[trigger] text[i])
}

/// Digits, with or without a tilde before them: an integer literal, whether
/// or not its value fits.
pub open spec fn is_int_text(text: Seq<u8>) -> bool {
    let digits = if at(text, 0, '~') {
        text.skip(1)
    } else {
        text
    };
    digits.len() > 0 && all_digits(digits)
}

/// A text that the table knows as a lexeme.
pub open spec fn is_lexeme_text(text: Seq<u8>) -> bool {
    is_mark(text) || is_glyph(text) || is_word_run(text) || is_int_text(text)
}

/// The table: `text` is a spelling of `token`.
pub open spec fn spells(text: Seq<u8>, token: TokenView) -> bool {
    match token {
        TokenView::Dot => text.len() == 1 && at(text, 0, '.'),
        TokenView::Comma => text.len() == 1 && at(text, 0, ','),
        TokenView::Colon => text.len() == 1 && at(text, 0, ':'),
        TokenView::Equal => text.len() == 1 && at(text, 0, '='),
        TokenView::LParen => text.len() == 1 && at(text, 0, '('),
        TokenView::RParen => text.len() == 1 && at(text, 0, ')'),
        TokenView::LBrack => text.len() == 1 && at(text, 0, '['),
        TokenView::RBrack => text.len() == 1 && at(text, 0, ']'),
        TokenView::Bar => text.len() == 1 && at(text, 0, '|'),
        TokenView::Arrow => text.len() == 2 && at(text, 0, '-') && at(text, 1, '>'),
        TokenView::DoubleArrow => text.len() == 2 && at(text, 0, '=') && at(text, 1, '>'),
        TokenView::Mul => text.len() == 1 && at(text, 0, '*'),
        TokenView::Infix6(t) => t == chars_of(text) && text.len() == 1 && (at(text, 0, '+') || at(
            text,
            0,
            '-',
        )),
        TokenView::Infix4(t) => t == chars_of(text) && ((text.len() == 1 && (at(text, 0, '<')
            || at(text, 0, '>'))) || (text.len() == 2 && at(text, 1, '=') && (at(text, 0, '=')
            || at(text, 0, '!')))),
        TokenView::Infix3(t) => t == chars_of(text) && text.len() == 2 && ((at(text, 0, '&')
            && at(text, 1, '&')) || (at(text, 0, '|') && at(text, 1, '|'))),
        TokenView::ExpId(t) => t == chars_of(text) && is_word_run(text) && is_lower(text[0]),
        TokenView::TypId(t) => t == chars_of(text) && is_word_run(text) && is_upper(text[0]),
        TokenView::IntLit(v) => int_literal(text) == Some(v),
        TokenView::BoolLit(b) => bool_literal(chars_of(text)) == Some(b),
        TokenView::UnitLit => chars_of(text) == "null"@,
        TokenView::If => chars_of(text) == "if"@,
        TokenView::Then => chars_of(text) == "then"@,
        TokenView::Else => chars_of(text) == "else"@,
        TokenView::Let => chars_of(text) == "let"@,
        TokenView::In => chars_of(text) == "in"@,
        TokenView::Match => chars_of(text) == "match"@,
        TokenView::With => chars_of(text) == "with"@,
        TokenView::End => chars_of(text) == "end"@,
        TokenView::Any => chars_of(text) == "any"@ || text == seq![0xceu8, 0x9bu8],
        TokenView::Lambda => chars_of(text) == "lambda"@ || text == seq![0xceu8, 0xbbu8],
        TokenView::Forall => chars_of(text) == "forall"@ || text == seq![
            0xe2u8,
            0x88u8,
            0x80u8,
        ],
        TokenView::TInt => chars_of(text) == "Int"@,
        TokenView::TBool => chars_of(text) == "Bool"@,
        TokenView::TUnit => chars_of(text) == "Unit"@,
    }
}

/// Identifiers give way to every other token of the same text.
pub open spec fn rank(token: TokenView) -> nat {
    if token is ExpId || token is TypId {
        0
    } else {
        1
    }
}

/// No lexeme longer than `n` bytes begins the text.
pub open spec fn none_longer(s: Seq<u8>, n: nat) -> bool {
    forall|m: int| n < m <= s.len() ==> !is_lexeme_text(#[trigger] s.take(m))
}

/// The characters of a text decide its bytes.
proof fn lemma_chars_decide_bytes(text: Seq<u8>, word: Seq<char>)
    requires
        chars_of(text) == word,
    ensures
        text.len() == word.len(),
        forall|i: int| 0 <= i < text.len() ==> #[trigger] text[i] == word[i] as u8,
{
    assert forall|i: int| 0 <= i < text.len() implies #[trigger] text[i] == word[i] as u8 by {
        assert(chars_of(text)[i] == text[i] as char);
    }
}

/// Every text that spells a token is a lexeme of the table.
pub proof fn law_spelling_is_lexeme(text: Seq<u8>, token: TokenView)
    requires
        spells(text, token),
    ensures
        is_lexeme_text(text),
{
    lemma_keywords();
    let word = chars_of(text);
    lemma_chars_decide_bytes(text, word);
    if is_word_text(word) {
        assert(text[0] == word[0] as u8);
        assert forall|i: int| 0 <= i < text.len() implies is_word(#[trigger] text[i]) by {
            assert(text[i] == word[i] as u8);
            assert(is_word(byte(word[i])));
        }
        assert(is_word_run(text));
    }
}

/// A word is read as far as it goes.
proof fn lemma_word_is_longest(s: Seq<u8>)
    requires
        s.len() > 0,
        is_lower(s[0]) || is_upper(s[0]),
    ensures
        is_word_run(s.take(word_len(s) as int)),
        none_longer(s, word_len(s)),
{
    lemma_word_len(s);
    let n = word_len(s);
    assert forall|m: int| n < m <= s.len() implies !is_lexeme_text(#[trigger] s.take(m)) by {
        let t = s.take(m);
        assert(t[0] == s[0]);
        assert(t[n as int] == s[n as int]);
        if is_int_text(t) {
            if at(t, 0, '~') {
            } else {
                assert(is_digit(t[0]));
            }
        }
    }
}

/// A number is read as far as its digits go.
proof fn lemma_number_is_longest(s: Seq<u8>)
    requires
        s.len() > 0,
        is_digit(s[0]) || (at(s, 0, '~') && s.len() > 1 && is_digit(s[1])),
    ensures
        ({
            let sign: nat = if at(s, 0, '~') {
                1
            } else {
                0
            };
            let n = sign + digit_len(s.skip(sign as int));
            n <= s.len() && is_int_text(s.take(n as int)) && none_longer(s, n)
        }),
{
    let sign: nat = if at(s, 0, '~') {
        1
    } else {
        0
    };
    let d = s.skip(sign as int);
    lemma_digit_len(d);
    let n = sign + digit_len(d);
    assert(d[0] == s[sign as int]);
    let lit = s.take(n as int);
    assert(lit[0] == s[0]);
    let digits = if at(lit, 0, '~') {
        lit.skip(1)
    } else {
        lit
    };
    assert(digits =~= d.take(digit_len(d) as int));
    assert forall|m: int| n < m <= s.len() implies !is_lexeme_text(#[trigger] s.take(m)) by {
        let t = s.take(m);
        assert(t[0] == s[0]);
        assert(t[1] == s[1]);
        assert(t[n as int] == s[n as int]);
        assert(s[n as int] == d[n - sign]);
        let tail = if at(t, 0, '~') {
            t.skip(1)
        } else {
            t
        };
        if is_int_text(t) {
            assert(tail[n - sign] == s[n as int]);
            assert(is_digit(tail[n - sign]));
        }
    }
}

/// Longest match: a token's text is a spelling of the token, and no longer
/// beginning of the input is a lexeme at all; a literal that does not fit is
/// the longest lexeme too; and where nothing is read, no beginning of the
/// input is a lexeme.
pub proof fn law_longest_match(s: Seq<u8>)
    ensures
        match lexeme(s) {
            Lexeme::Token(token, n) => n <= s.len() && spells(s.take(n as int), token)
                && none_longer(s, n),
            Lexeme::Overflow(n) => n <= s.len() && is_int_text(s.take(n as int)) && int_literal(
                s.take(n as int),
            ) is None && none_longer(s, n),
            Lexeme::Unknown => none_longer(s, 0),
        },
{
    if s.len() == 0 {
    } else if is_lower(s[0]) || is_upper(s[0]) {
        lemma_word_is_longest(s);
        lemma_word_len(s);
        assert(word_len(s) == 1 + word_len(s.skip(1)));
        let w = s.take(word_len(s) as int);
        assert(w[0] == s[0]);
        assert(chars_of(w)[0] == w[0] as char);
        assert(byte(chars_of(w)[0]) == w[0]);
    } else if is_digit(s[0]) || (at(s, 0, '~') && s.len() > 1 && is_digit(s[1])) {
        lemma_number_is_longest(s);
    } else {
        let n: nat = match lexeme(s) {
            Lexeme::Token(_, n) => n,
            _ => 0,
        };
        assert(n <= s.len());
        if n > 0 {
            let t = s.take(n as int);
            assert(t[0] == s[0]);
            if n > 1 {
                assert(t[1] == s[1]);
            }
            if n > 2 {
                assert(t[2] == s[2]);
            }
            if n == 2 {
                assert(t =~= seq![s[0], s[1]]);
            }
            if n == 3 {
                assert(t =~= seq![s[0], s[1], s[2]]);
            }
        }
        assert forall|m: int| n < m <= s.len() implies !is_lexeme_text(#[trigger] s.take(m)) by {
            let t = s.take(m);
            assert(t[0] == s[0]);
            if m > 1 {
                assert(t[1] == s[1]);
            }
            if m > 2 {
                assert(t[2] == s[2]);
            }
            if is_int_text(t) {
                if at(t, 0, '~') {
                    assert(t.skip(1)[0] == t[1]);
                }
            }
        }
    }
}

/// Priority: of the tokens that the text of a token spells, the tokenizer
/// gives the one that is no identifier, and there is only one such.
pub proof fn law_keywords_first(s: Seq<u8>, other: TokenView)
    requires
        lexeme(s) matches Lexeme::Token(token, n) && spells(s.take(n as int), other),
    ensures
        lexeme(s) matches Lexeme::Token(token, n) && (other == token || rank(other) < rank(
            token,
        )),
{
    lemma_keywords();
    law_longest_match(s);
    if let Lexeme::Token(token, n) = lexeme(s) {
        let t = s.take(n as int);
        assert(t[0] == s[0]);
        if n > 1 {
            assert(t[1] == s[1]);
        }
        if is_lower(s[0]) || is_upper(s[0]) {
        } else if is_digit(s[0]) || (at(s, 0, '~') && s.len() > 1 && is_digit(s[1])) {
            lemma_chars_decide_bytes(t, chars_of(t));
            if !(other is IntLit) {
                lemma_other_is_no_number(t, other);
            }
        } else {
            lemma_chars_decide_bytes(t, chars_of(t));
            lemma_other_is_no_mark(t, other);
        }
    }
}

/// A text that begins with a digit or a tilde spells no token but an
/// integer.
proof fn lemma_other_is_no_number(t: Seq<u8>, other: TokenView)
    requires
        t.len() > 0,
        is_digit(t[0]) || at(t, 0, '~'),
        !(other is IntLit),
    ensures
        !spells(t, other),
{
    lemma_keywords();
    let word = chars_of(t);
    if spells(t, other) {
        lemma_chars_decide_bytes(t, word);
        if is_word_text(word) {
            assert(t[0] == word[0] as u8);
        }
    }
}

/// A text that begins with neither letter nor digit nor tilde spells at most
/// one token.
proof fn lemma_other_is_no_mark(t: Seq<u8>, other: TokenView)
    requires
        t.len() > 0,
        !is_lower(t[0]) && !is_upper(t[0]) && !is_digit(t[0]) && !at(t, 0, '~'),
    ensures
        forall|token: TokenView| spells(t, token) && spells(t, other) ==> token == other,
{
    lemma_keywords();
    let word = chars_of(t);
    lemma_chars_decide_bytes(t, word);
    if is_word_text(word) {
        assert(t[0] == word[0] as u8);
    }
    assert forall|token: TokenView| spells(t, token) && spells(t, other) implies token
        == other by {
        if t.len() > 1 {
            assert(t[1] == t[1]);
        }
    }
}

/// Blanks and comments are skipped as far as they go: where the tokenizer
/// looks for a token, neither a blank nor a comment begins.
pub proof fn law_trivia_is_longest(s: Seq<u8>)
    ensures
        trivia_len(s) <= s.len(),
        trivia_len(s.skip(trivia_len(s) as int)) == 0,
        trivia_len(s) < s.len() ==> !is_space(s[trivia_len(s) as int]),
        comment_len(s.skip(trivia_len(s) as int)) == 0 || comment_len(
            s.skip(trivia_len(s) as int),
        ) > s.len() - trivia_len(s),
    decreases s.len(),
{
    lemma_trivia_len(s);
    if s.len() > 0 && is_space(s[0]) {
        let t = s.skip(1);
        law_trivia_is_longest(t);
        assert(t.skip(trivia_len(t) as int) =~= s.skip(trivia_len(s) as int));
        if trivia_len(s) < s.len() {
            assert(s[trivia_len(s) as int] == t[trivia_len(t) as int]);
        }
    } else if 0 < comment_len(s) <= s.len() {
        let c = comment_len(s);
        let t = s.skip(c as int);
        law_trivia_is_longest(t);
        assert(t.skip(trivia_len(t) as int) =~= s.skip(trivia_len(s) as int));
        if trivia_len(s) < s.len() {
            assert(s[trivia_len(s) as int] == t[trivia_len(t) as int]);
        }
    } else {
        assert(s.skip(0) =~= s);
    }
}

} // verus!
