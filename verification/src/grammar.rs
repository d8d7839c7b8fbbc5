//! The lexical grammar: which token stands at the front of a text, and the
//! sequence of tokens that a whole text holds.
//!
//! Text is read as bytes. Blanks and comments separate tokens and yield none.
//! At each place the longest token that matches is taken, and a word that is
//! spelled like a keyword is that keyword.

use vstd::prelude::*;
use crate::ascii::{byte, chars_of, is_digit, is_lower, is_space, is_upper, is_word};
use crate::decimal::{all_digits, value};

verus! {

/// A token as contracts see it: its kind, and for the kinds that carry one,
/// the text or value it was read from.
pub enum TokenView {
    Dot,
    Comma,
    Colon,
    Equal,
    LParen,
    RParen,
    LBrack,
    RBrack,
    Bar,
    Arrow,
    DoubleArrow,
    Mul,
    Infix6(Seq<char>),
    Infix4(Seq<char>),
    Infix3(Seq<char>),
    ExpId(Seq<char>),
    TypId(Seq<char>),
    IntLit(i64),
    BoolLit(bool),
    UnitLit,
    If,
    Then,
    Else,
    Let,
    In,
    Match,
    With,
    End,
    Any,
    Lambda,
    Forall,
    TInt,
    TBool,
    TUnit,
}

/// Why a text cannot be read further.
pub enum Fault {
    /// No token begins at `offset`.
    NoMatch { offset: nat },
    /// The integer literal at `start..end` is outside the 64-bit range.
    IntLiteral { start: nat, end: nat },
}

impl Fault {
    /// The same fault, seen from `by` bytes further left.
    pub open spec fn shifted(self, by: nat) -> Fault {
        match self {
            Fault::NoMatch { offset } => Fault::NoMatch { offset: offset + by },
            Fault::IntLiteral { start, end } => Fault::IntLiteral {
                start: start + by,
                end: end + by,
            },
        }
    }
}

/// What stands at the very front of a text.
pub enum Lexeme {
    /// A token, and how many bytes it takes.
    Token(TokenView, nat),
    /// An integer literal of this many bytes whose value does not fit.
    Overflow(nat),
    /// Nothing that the grammar knows.
    Unknown,
}

/// What the next token of a text is, blanks and comments skipped.
pub enum Scan {
    /// Only blanks and comments are left.
    End,
    /// A token at `start..end`.
    Token { token: TokenView, start: nat, end: nat },
    /// Reading cannot go on.
    Failed(Fault),
}

/// The byte at `i` is the character `c`.
pub open spec fn at(s: Seq<u8>, i: int, c: char) -> bool {
    0 <= i < s.len() && s[i] == byte(c)
}

/// How many word bytes the text begins with.
pub open spec fn word_len(s: Seq<u8>) -> nat
    decreases s.len(),
{
    if s.len() > 0 && is_word(s[0]) {
        1 + word_len(s.skip(1))
    } else {
        0
    }
}

/// How many digits the text begins with.
pub open spec fn digit_len(s: Seq<u8>) -> nat
    decreases s.len(),
{
    if s.len() > 0 && is_digit(s[0]) {
        1 + digit_len(s.skip(1))
    } else {
        0
    }
}

/// Where the first `*/` at or after `i` begins.
pub open spec fn comment_close(s: Seq<u8>, i: int) -> Option<int>
    decreases s.len() - i,
{
    if i < 0 || i + 1 >= s.len() {
        None
    } else if at(s, i, '*') && at(s, i + 1, '/') {
        Some(i)
    } else {
        comment_close(s, i + 1)
    }
}

/// The length of the comment that the text begins with, or zero if it begins
/// with none. A comment runs from `/*` to the first `*/` after it; comments
/// do not nest, and one that is never closed is no comment.
pub open spec fn comment_len(s: Seq<u8>) -> nat {
    if at(s, 0, '/') && at(s, 1, '*') {
        match comment_close(s, 2) {
            Some(j) => (j + 2) as nat,
            None => 0,
        }
    } else {
        0
    }
}

/// How many bytes of blanks and comments the text begins with.
pub open spec fn trivia_len(s: Seq<u8>) -> nat
    decreases s.len(),
{
    if s.len() > 0 && is_space(s[0]) {
        1 + trivia_len(s.skip(1))
    } else if 0 < comment_len(s) <= s.len() {
        comment_len(s) + trivia_len(s.skip(comment_len(s) as int))
    } else {
        0
    }
}

/// The truth value that a text spells.
pub open spec fn bool_literal(text: Seq<char>) -> Option<bool> {
    if text == "true"@ {
        Some(true)
    } else if text == "false"@ {
        Some(false)
    } else {
        None
    }
}

/// The integer that a text spells: digits, with a tilde before them for a
/// negative number. `None` if the text has another form or the number is
/// outside the 64-bit range.
pub open spec fn int_literal(text: Seq<u8>) -> Option<i64> {
    let negative = at(text, 0, '~');
    let digits = if negative {
        text.skip(1)
    } else {
        text
    };
    if digits.len() == 0 || !all_digits(digits) {
        None
    } else if negative && value(digits) <= 0x8000_0000_0000_0000 {
        Some((-value(digits)) as i64)
    } else if !negative && value(digits) <= 0x7fff_ffff_ffff_ffff {
        Some(value(digits) as i64)
    } else {
        None
    }
}

/// The token that a word is: a literal or keyword if it is spelled like one,
/// else an identifier, of terms if it begins in lower case and of types
/// otherwise.
pub open spec fn word_token(w: Seq<char>) -> TokenView {
    if bool_literal(w) is Some {
        TokenView::BoolLit(bool_literal(w)->0)
    } else if w == "null"@ {
        TokenView::UnitLit
    } else if w == "if"@ {
        TokenView::If
    } else if w == "then"@ {
        TokenView::Then
    } else if w == "else"@ {
        TokenView::Else
    } else if w == "let"@ {
        TokenView::Let
    } else if w == "in"@ {
        TokenView::In
    } else if w == "match"@ {
        TokenView::Match
    } else if w == "with"@ {
        TokenView::With
    } else if w == "end"@ {
        TokenView::End
    } else if w == "any"@ {
        TokenView::Any
    } else if w == "lambda"@ {
        TokenView::Lambda
    } else if w == "forall"@ {
        TokenView::Forall
    } else if w == "Int"@ {
        TokenView::TInt
    } else if w == "Bool"@ {
        TokenView::TBool
    } else if w == "Unit"@ {
        TokenView::TUnit
    } else if w.len() > 0 && is_lower(byte(w[0])) {
        TokenView::ExpId(w)
    } else {
        TokenView::TypId(w)
    }
}

/// The number that the text begins with; it begins with a digit, or with a
/// tilde and a digit.
pub open spec fn number(s: Seq<u8>) -> Lexeme {
    let sign: nat = if at(s, 0, '~') {
        1
    } else {
        0
    };
    let n = sign + digit_len(s.skip(sign as int));
    match int_literal(s.take(n as int)) {
        Some(v) => Lexeme::Token(TokenView::IntLit(v), n),
        None => Lexeme::Overflow(n),
    }
}

/// The punctuation mark or operator that the text begins with. Marks of two
/// characters come before those of one.
pub open spec fn symbol(s: Seq<u8>) -> Lexeme {
    if at(s, 0, '-') && at(s, 1, '>') {
        Lexeme::Token(TokenView::Arrow, 2)
    } else if at(s, 0, '=') && at(s, 1, '>') {
        Lexeme::Token(TokenView::DoubleArrow, 2)
    } else if (at(s, 0, '=') || at(s, 0, '!')) && at(s, 1, '=') {
        Lexeme::Token(TokenView::Infix4(chars_of(s.take(2))), 2)
    } else if (at(s, 0, '&') && at(s, 1, '&')) || (at(s, 0, '|') && at(s, 1, '|')) {
        Lexeme::Token(TokenView::Infix3(chars_of(s.take(2))), 2)
    } else if at(s, 0, '.') {
        Lexeme::Token(TokenView::Dot, 1)
    } else if at(s, 0, ',') {
        Lexeme::Token(TokenView::Comma, 1)
    } else if at(s, 0, ':') {
        Lexeme::Token(TokenView::Colon, 1)
    } else if at(s, 0, '=') {
        Lexeme::Token(TokenView::Equal, 1)
    } else if at(s, 0, '(') {
        Lexeme::Token(TokenView::LParen, 1)
    } else if at(s, 0, ')') {
        Lexeme::Token(TokenView::RParen, 1)
    } else if at(s, 0, '[') {
        Lexeme::Token(TokenView::LBrack, 1)
    } else if at(s, 0, ']') {
        Lexeme::Token(TokenView::RBrack, 1)
    } else if at(s, 0, '|') {
        Lexeme::Token(TokenView::Bar, 1)
    } else if at(s, 0, '*') {
        Lexeme::Token(TokenView::Mul, 1)
    } else if at(s, 0, '+') || at(s, 0, '-') {
        Lexeme::Token(TokenView::Infix6(chars_of(s.take(1))), 1)
    } else if at(s, 0, '<') || at(s, 0, '>') {
        Lexeme::Token(TokenView::Infix4(chars_of(s.take(1))), 1)
    } else {
        glyph(s)
    }
}

/// The symbolic spelling of a keyword that the text begins with: a capital
/// lambda for `any`, a small lambda for `lambda`, a turned A for `forall`,
/// each in UTF-8.
pub open spec fn glyph(s: Seq<u8>) -> Lexeme {
    if s.len() >= 2 && s[0] == 0xce && s[1] == 0x9b {
        Lexeme::Token(TokenView::Any, 2)
    } else if s.len() >= 2 && s[0] == 0xce && s[1] == 0xbb {
        Lexeme::Token(TokenView::Lambda, 2)
    } else if s.len() >= 3 && s[0] == 0xe2 && s[1] == 0x88 && s[2] == 0x80 {
        Lexeme::Token(TokenView::Forall, 3)
    } else {
        Lexeme::Unknown
    }
}

/// What the text begins with, when it begins with neither blank nor comment.
pub open spec fn lexeme(s: Seq<u8>) -> Lexeme {
    if s.len() == 0 {
        Lexeme::Unknown
    } else if is_lower(s[0]) || is_upper(s[0]) {
        Lexeme::Token(word_token(chars_of(s.take(word_len(s) as int))), word_len(s))
    } else if is_digit(s[0]) || (at(s, 0, '~') && s.len() > 1 && is_digit(s[1])) {
        number(s)
    } else {
        symbol(s)
    }
}

/// The next token of the text, with its place in it.
pub open spec fn scan(s: Seq<u8>) -> Scan {
    let start = trivia_len(s);
    if start >= s.len() {
        Scan::End
    } else {
        match lexeme(s.skip(start as int)) {
            Lexeme::Token(token, n) => Scan::Token { token, start, end: start + n },
            Lexeme::Overflow(n) => Scan::Failed(Fault::IntLiteral { start, end: start + n }),
            Lexeme::Unknown => Scan::Failed(Fault::NoMatch { offset: start }),
        }
    }
}

/// A run of word bytes ends where the first other byte stands.
pub proof fn lemma_word_len(s: Seq<u8>)
    ensures
        word_len(s) <= s.len(),
        forall|i: int| 0 <= i < word_len(s) ==> is_word(#[trigger] s[i]),
        word_len(s) < s.len() ==> !is_word(s[word_len(s) as int]),
    decreases s.len(),
{
    if s.len() > 0 && is_word(s[0]) {
        let t = s.skip(1);
        lemma_word_len(t);
        assert forall|i: int| 0 <= i < word_len(s) implies is_word(#[trigger] s[i]) by {
            if i > 0 {
                assert(s[i] == t[i - 1]);
            }
        }
        if word_len(s) < s.len() {
            assert(s[word_len(s) as int] == t[word_len(t) as int]);
        }
    }
}

/// The run of word bytes is the only prefix of word bytes that no word byte
/// follows.
pub proof fn lemma_word_len_is(s: Seq<u8>, n: nat)
    requires
        n <= s.len(),
        forall|i: int| 0 <= i < n ==> is_word(#[trigger] s[i]),
        n < s.len() ==> !is_word(s[n as int]),
    ensures
        word_len(s) == n,
    decreases n,
{
    if n > 0 {
        let t = s.skip(1);
        assert forall|i: int| 0 <= i < n - 1 implies is_word(#[trigger] t[i]) by {
            assert(t[i] == s[i + 1]);
        }
        lemma_word_len_is(t, (n - 1) as nat);
    }
}

/// A run of digits ends where the first other byte stands.
pub proof fn lemma_digit_len(s: Seq<u8>)
    ensures
        digit_len(s) <= s.len(),
        forall|i: int| 0 <= i < digit_len(s) ==> is_digit(#[trigger] s[i]),
        digit_len(s) < s.len() ==> !is_digit(s[digit_len(s) as int]),
    decreases s.len(),
{
    if s.len() > 0 && is_digit(s[0]) {
        let t = s.skip(1);
        lemma_digit_len(t);
        assert forall|i: int| 0 <= i < digit_len(s) implies is_digit(#[trigger] s[i]) by {
            if i > 0 {
                assert(s[i] == t[i - 1]);
            }
        }
        if digit_len(s) < s.len() {
            assert(s[digit_len(s) as int] == t[digit_len(t) as int]);
        }
    }
}

/// The run of digits is the only prefix of digits that no digit follows.
pub proof fn lemma_digit_len_is(s: Seq<u8>, n: nat)
    requires
        n <= s.len(),
        forall|i: int| 0 <= i < n ==> is_digit(#[trigger] s[i]),
        n < s.len() ==> !is_digit(s[n as int]),
    ensures
        digit_len(s) == n,
    decreases n,
{
    if n > 0 {
        let t = s.skip(1);
        assert forall|i: int| 0 <= i < n - 1 implies is_digit(#[trigger] t[i]) by {
            assert(t[i] == s[i + 1]);
        }
        lemma_digit_len_is(t, (n - 1) as nat);
    }
}

/// A comment's end is found where the first `*/` stands, and nowhere before.
pub proof fn lemma_comment_close(s: Seq<u8>, i: int)
    requires
        0 <= i,
    ensures
        match comment_close(s, i) {
            Some(j) => i <= j && j + 1 < s.len() && at(s, j, '*') && at(s, j + 1, '/')
                && forall|k: int| i <= k < j ==> !(at(s, k, '*') && at(s, k + 1, '/')),
            None => forall|k: int| i <= k && k + 1 < s.len() ==> !(at(s, k, '*') && at(s, k + 1, '/')),
        },
    decreases s.len() - i,
{
    if i + 1 >= s.len() {
    } else if at(s, i, '*') && at(s, i + 1, '/') {
    } else {
        lemma_comment_close(s, i + 1);
    }
}

/// The first `*/` at or after `i` is the comment's end.
pub proof fn lemma_comment_close_is(s: Seq<u8>, i: int, j: int)
    requires
        0 <= i <= j,
        j + 1 < s.len(),
        at(s, j, '*'),
        at(s, j + 1, '/'),
        forall|k: int| i <= k < j ==> !(at(s, k, '*') && at(s, k + 1, '/')),
    ensures
        comment_close(s, i) == Some(j),
    decreases j - i,
{
    if i < j {
        lemma_comment_close_is(s, i + 1, j);
    }
}

/// Blanks and comments lie within the text.
pub proof fn lemma_trivia_len(s: Seq<u8>)
    ensures
        trivia_len(s) <= s.len(),
    decreases s.len(),
{
    if s.len() > 0 && is_space(s[0]) {
        lemma_trivia_len(s.skip(1));
    } else if 0 < comment_len(s) <= s.len() {
        lemma_trivia_len(s.skip(comment_len(s) as int));
    }
}

/// A token or an unreadable literal is not empty and lies within the text.
pub proof fn lemma_lexeme_len(s: Seq<u8>)
    ensures
        match lexeme(s) {
            Lexeme::Token(_, n) => 0 < n <= s.len(),
            Lexeme::Overflow(n) => 0 < n <= s.len(),
            Lexeme::Unknown => true,
        },
{
    if s.len() > 0 {
        lemma_word_len(s);
        if at(s, 0, '~') {
            lemma_digit_len(s.skip(1));
            if s.len() > 1 {
                assert(s.skip(1)[0] == s[1]);
            }
        } else {
            lemma_digit_len(s.skip(0));
            assert(s.skip(0) =~= s);
        }
    }
}

/// Where a scan ends: a token is not empty, and everything lies within the
/// text.
pub proof fn lemma_scan_bounds(s: Seq<u8>)
    ensures
        match scan(s) {
            Scan::End => true,
            Scan::Token { token, start, end } => start < end <= s.len(),
            Scan::Failed(Fault::NoMatch { offset }) => offset < s.len(),
            Scan::Failed(Fault::IntLiteral { start, end }) => start < end <= s.len(),
        },
{
    lemma_trivia_len(s);
    if trivia_len(s) < s.len() {
        lemma_lexeme_len(s.skip(trivia_len(s) as int));
    }
}

/// The tokens of the text from `from` on, each with the offsets of its first
/// byte and of the byte after its last, or the fault at which reading stops.
pub open spec fn lex(s: Seq<u8>, from: nat) -> Result<Seq<(nat, TokenView, nat)>, Fault>
    decreases s.len() - from,
{
    if from >= s.len() {
        Ok(Seq::empty())
    } else {
        match scan(s.skip(from as int)) {
            Scan::End => Ok(Seq::empty()),
            Scan::Failed(fault) => Err(fault.shifted(from)),
            Scan::Token { token, start, end } => {
                proof {
                    lemma_scan_bounds(s.skip(from as int));
                }
                match lex(s, from + end) {
                    Ok(rest) => Ok(seq![(from + start, token, from + end)] + rest),
                    Err(fault) => Err(fault),
                }
            },
        }
    }
}

/// The tokens of the text alone, without their places; `None` if the text
/// cannot be read to its end.
pub open spec fn tokens(s: Seq<u8>) -> Option<Seq<TokenView>>
    decreases s.len(),
{
    match scan(s) {
        Scan::End => Some(Seq::empty()),
        Scan::Failed(_) => None,
        Scan::Token { token, start, end } => {
            proof {
                lemma_scan_bounds(s);
            }
            match tokens(s.skip(end as int)) {
                Some(rest) => Some(seq![token] + rest),
                None => None,
            }
        },
    }
}

/// The tokens of a spanned sequence, without their places.
pub open spec fn kinds(spanned: Seq<(nat, TokenView, nat)>) -> Seq<TokenView> {
    Seq::new(spanned.len(), |i: int| spanned[i].1)
}

/// Reading with places and reading without agree on the tokens.
pub proof fn lemma_lex_tokens(s: Seq<u8>, from: nat)
    requires
        from <= s.len(),
    ensures
        match lex(s, from) {
            Ok(spanned) => tokens(s.skip(from as int)) == Some(kinds(spanned)),
            Err(_) => tokens(s.skip(from as int)) is None,
        },
    decreases s.len() - from,
{
    let t = s.skip(from as int);
    if from >= s.len() {
        assert(trivia_len(t) == 0);
        assert(kinds(Seq::empty()) =~= Seq::<TokenView>::empty());
    } else {
        lemma_scan_bounds(t);
        match scan(t) {
            Scan::End => {
                assert(kinds(Seq::empty()) =~= Seq::<TokenView>::empty());
            },
            Scan::Failed(_) => {},
            Scan::Token { token, start, end } => {
                lemma_lex_tokens(s, from + end);
                assert(t.skip(end as int) =~= s.skip((from + end) as int));
                match lex(s, from + end) {
                    Ok(rest) => {
                        let all = seq![(from + start, token, from + end)] + rest;
                        assert(kinds(all) =~= seq![token] + kinds(rest));
                    },
                    Err(_) => {},
                }
            },
        }
    }
}

} // verus!
