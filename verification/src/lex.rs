//! The tokenizer: it walks a source text and hands out its tokens one by
//! one, each with the byte offsets it was found at.

use vstd::prelude::*;
use vstd::string::*;
use crate::ascii::{
    byte, digit_byte, is_digit, is_lower, is_upper, is_word, lower_byte, slice, space_byte, str_eq,
    upper_byte, word_byte,
};
use crate::decimal::{all_digits, lemma_value_prefix, value};
use crate::grammar::{
    Fault, Lexeme, Scan, TokenView, at, bool_literal, comment_len, digit_len, int_literal,
    lemma_comment_close, lemma_comment_close_is, lemma_digit_len, lemma_digit_len_is,
    lemma_scan_bounds, lemma_word_len, lemma_word_len_is, lex, lexeme, number, scan, symbol,
    trivia_len, word_len, word_token,
};

verus! {

/// The tokens of the language. Operators of different precedence are
/// different kinds of token, so that a parser can tell them apart by kind
/// alone.
#[derive(Debug, PartialEq, Clone)]
pub enum Token<'a> {
    Dot,
    Comma,
    Colon,
    Equal,
    LParen,
    RParen,
    LBrack,
    RBrack,
    Bar,
    Arrow,
    DoubleArrow,
    /// Precedence 7: multiplication.
    Mul,
    /// Precedence 6: `+` and `-`.
    Infix6(&'a str),
    /// Precedence 4: `<`, `>`, `==` and `!=`.
    Infix4(&'a str),
    /// Precedence 3: `&&` and `||`.
    Infix3(&'a str),
    /// An identifier of terms; it begins in lower case.
    ExpId(&'a str),
    /// An identifier of types; it begins in upper case.
    TypId(&'a str),
    IntLit(i64),
    BoolLit(bool),
    /// The unit literal, `null`.
    UnitLit,
    If,
    Then,
    Else,
    Let,
    In,
    Match,
    With,
    End,
    Any,
    Lambda,
    Forall,
    TInt,
    TBool,
    TUnit,
}

impl<'a> View for Token<'a> {
    type V = TokenView;

    open spec fn view(&self) -> TokenView {
        match *self {
            Token::Dot => TokenView::Dot,
            Token::Comma => TokenView::Comma,
            Token::Colon => TokenView::Colon,
            Token::Equal => TokenView::Equal,
            Token::LParen => TokenView::LParen,
            Token::RParen => TokenView::RParen,
            Token::LBrack => TokenView::LBrack,
            Token::RBrack => TokenView::RBrack,
            Token::Bar => TokenView::Bar,
            Token::Arrow => TokenView::Arrow,
            Token::DoubleArrow => TokenView::DoubleArrow,
            Token::Mul => TokenView::Mul,
            Token::Infix6(s) => TokenView::Infix6(s@),
            Token::Infix4(s) => TokenView::Infix4(s@),
            Token::Infix3(s) => TokenView::Infix3(s@),
            Token::ExpId(s) => TokenView::ExpId(s@),
            Token::TypId(s) => TokenView::TypId(s@),
            Token::IntLit(i) => TokenView::IntLit(i),
            Token::BoolLit(b) => TokenView::BoolLit(b),
            Token::UnitLit => TokenView::UnitLit,
            Token::If => TokenView::If,
            Token::Then => TokenView::Then,
            Token::Else => TokenView::Else,
            Token::Let => TokenView::Let,
            Token::In => TokenView::In,
            Token::Match => TokenView::Match,
            Token::With => TokenView::With,
            Token::End => TokenView::End,
            Token::Any => TokenView::Any,
            Token::Lambda => TokenView::Lambda,
            Token::Forall => TokenView::Forall,
            Token::TInt => TokenView::TInt,
            Token::TBool => TokenView::TBool,
            Token::TUnit => TokenView::TUnit,
        }
    }
}

/// Why tokenizing stopped.
#[derive(Debug, PartialEq, Eq, Clone, Copy)]
pub enum LexicalError {
    /// No token begins at byte `offset`.
    NoMatch { offset: usize },
    /// The integer literal at bytes `start..end` is outside the 64-bit range.
    IntLiteral { start: usize, end: usize },
}

impl View for LexicalError {
    type V = Fault;

    open spec fn view(&self) -> Fault {
        match *self {
            LexicalError::NoMatch { offset } => Fault::NoMatch { offset: offset as nat },
            LexicalError::IntLiteral { start, end } => Fault::IntLiteral {
                start: start as nat,
                end: end as nat,
            },
        }
    }
}

/// A token with the offsets of its first byte and of the byte after its last.
pub type Spanned<'a> = (usize, Token<'a>, usize);

/// The truth value that `slice` spells, if it spells one.
pub fn token_bool_lit(slice: &str) -> (b: Option<bool>)
    ensures
        b == bool_literal(slice@),
{
    if str_eq(slice, "true") {
        Some(true)
    } else if str_eq(slice, "false") {
        Some(false)
    } else {
        None
    }
}

/// The integer that `slice` spells: digits, after a tilde for a negative
/// number. `None` if `slice` has another form or the number does not fit.
#[verifier::loop_isolation(false)]
pub fn token_int_lit(slice: &str) -> (i: Option<i64>)
    ensures
        i == int_literal(slice.spec_bytes()),
{
    let bytes = slice.as_bytes();
    let len = bytes.len();
    let negative = len > 0 && bytes[0] == '~' as u8;
    let first: usize = if negative {
        1
    } else {
        0
    };
    let limit: u64 = if negative {
        0x8000_0000_0000_0000
    } else {
        0x7fff_ffff_ffff_ffff
    };
    let ghost digits = bytes@.skip(first as int);
    proof {
        assert(bytes@.skip(0) =~= bytes@);
        assert(digits == if at(bytes@, 0, '~') {
            bytes@.skip(1)
        } else {
            bytes@
        });
    }
    if first == len {
        return None;
    }
    let mut acc: u64 = 0;
    let mut k: usize = first;
    while k < len
        invariant
            first <= k <= len,
            len == bytes.len(),
            digits == bytes@.skip(first as int),
            all_digits(digits.take(k - first)),
            acc == value(digits.take(k - first)),
            0x7fff_ffff_ffff_ffff <= limit <= 0x8000_0000_0000_0000,
            acc <= limit,
        decreases len - k,
    {
        let b = bytes[k];
        let ghost before = digits.take(k - first);
        let ghost after = digits.take(k + 1 - first);
        proof {
            assert(after.drop_last() =~= before);
            assert(after.last() == b);
        }
        if !digit_byte(b) {
            assert(!is_digit(digits[k - first]));
            assert(negative == at(bytes@, 0, '~'));
            return None;
        }
        let d: u64 = (b - 48) as u64;
        if acc > (limit - d) / 10 {
            proof {
                assert(value(after) > limit);
                if all_digits(digits) {
                    lemma_value_prefix(digits, k + 1 - first);
                }
                assert(negative == at(bytes@, 0, '~'));
            }
            return None;
        }
        acc = acc * 10 + d;
        k += 1;
    }
    proof {
        assert(digits.take(len - first) =~= digits);
        assert(bytes@ == slice.spec_bytes());
        assert(negative == at(bytes@, 0, '~'));
    }
    if negative {
        if acc == 0x8000_0000_0000_0000 {
            Some(i64::MIN)
        } else {
            Some(-(acc as i64))
        }
    } else {
        Some(acc as i64)
    }
}

/// Where the run of word bytes that begins at `from` ends.
fn word_end(bytes: &[u8], from: usize) -> (end: usize)
    requires
        from <= bytes.len(),
    ensures
        end == from + word_len(bytes@.skip(from as int)),
        end <= bytes.len(),
{
    let mut j = from;
    while j < bytes.len() && word_byte(bytes[j])
        invariant
            from <= j <= bytes.len(),
            forall|k: int| from <= k < j ==> is_word(#[trigger] bytes@[k]),
        decreases bytes.len() - j,
    {
        j += 1;
    }
    proof {
        lemma_word_len_is(bytes@.skip(from as int), (j - from) as nat);
    }
    j
}

/// Where the run of digits that begins at `from` ends.
fn digits_end(bytes: &[u8], from: usize) -> (end: usize)
    requires
        from <= bytes.len(),
    ensures
        end == from + digit_len(bytes@.skip(from as int)),
        end <= bytes.len(),
{
    let mut j = from;
    while j < bytes.len() && digit_byte(bytes[j])
        invariant
            from <= j <= bytes.len(),
            forall|k: int| from <= k < j ==> is_digit(#[trigger] bytes@[k]),
        decreases bytes.len() - j,
    {
        j += 1;
    }
    proof {
        lemma_digit_len_is(bytes@.skip(from as int), (j - from) as nat);
    }
    j
}

/// Where the comment that begins at `from` ends; `from` itself if no comment
/// begins there.
fn comment_end(bytes: &[u8], from: usize) -> (end: usize)
    requires
        from <= bytes.len(),
    ensures
        end == from + comment_len(bytes@.skip(from as int)),
        end <= bytes.len(),
{
    let len = bytes.len();
    let ghost s = bytes@.skip(from as int);
    if len - from < 4 || bytes[from] != '/' as u8 || bytes[from + 1] != '*' as u8 {
        proof {
            if at(s, 0, '/') && at(s, 1, '*') {
                lemma_comment_close(s, 2);
            }
        }
        return from;
    }
    let mut j = from + 2;
    while j < len - 1
        invariant
            from + 2 <= j <= len,
            len == bytes.len(),
            s == bytes@.skip(from as int),
            at(s, 0, '/') && at(s, 1, '*'),
            forall|k: int| 2 <= k < j - from ==> !(at(s, k, '*') && at(s, k + 1, '/')),
        decreases len - j,
    {
        if bytes[j] == '*' as u8 && bytes[j + 1] == '/' as u8 {
            proof {
                lemma_comment_close_is(s, 2, j - from);
            }
            return j + 2;
        }
        j += 1;
    }
    proof {
        lemma_comment_close(s, 2);
    }
    from
}

/// Where the blanks and comments that begin at `from` end.
fn skip_trivia(bytes: &[u8], from: usize) -> (end: usize)
    requires
        from <= bytes.len(),
    ensures
        end == from + trivia_len(bytes@.skip(from as int)),
        end <= bytes.len(),
{
    let len = bytes.len();
    let mut p = from;
    loop
        invariant
            from <= p <= len,
            len == bytes.len(),
            trivia_len(bytes@.skip(from as int)) == (p - from) + trivia_len(
                bytes@.skip(p as int),
            ),
        ensures
            from <= p <= len,
            trivia_len(bytes@.skip(from as int)) == p - from,
        decreases len - p,
    {
        let ghost s = bytes@.skip(p as int);
        if p < len && space_byte(bytes[p]) {
            proof {
                assert(s.skip(1) =~= bytes@.skip(p + 1));
            }
            p += 1;
        } else {
            let e = comment_end(bytes, p);
            if e == p {
                break ;
            }
            proof {
                assert(s.skip(comment_len(s) as int) =~= bytes@.skip(e as int));
            }
            p = e;
        }
    }
    p
}

/// The token that the word `text` is; `lower` tells whether it begins in
/// lower case.
fn keyword<'a>(text: &'a str, lower: bool) -> (token: Token<'a>)
    requires
        lower == (text@.len() > 0 && is_lower(byte(text@[0]))),
    ensures
        token@ == word_token(text@),
{
    if let Some(b) = token_bool_lit(text) {
        Token::BoolLit(b)
    } else if str_eq(text, "null") {
        Token::UnitLit
    } else if str_eq(text, "if") {
        Token::If
    } else if str_eq(text, "then") {
        Token::Then
    } else if str_eq(text, "else") {
        Token::Else
    } else if str_eq(text, "let") {
        Token::Let
    } else if str_eq(text, "in") {
        Token::In
    } else if str_eq(text, "match") {
        Token::Match
    } else if str_eq(text, "with") {
        Token::With
    } else if str_eq(text, "end") {
        Token::End
    } else if str_eq(text, "any") {
        Token::Any
    } else if str_eq(text, "lambda") {
        Token::Lambda
    } else if str_eq(text, "forall") {
        Token::Forall
    } else if str_eq(text, "Int") {
        Token::TInt
    } else if str_eq(text, "Bool") {
        Token::TBool
    } else if str_eq(text, "Unit") {
        Token::TUnit
    } else if lower {
        Token::ExpId(text)
    } else {
        Token::TypId(text)
    }
}

/// The punctuation mark or operator that begins at `start`, with the offset
/// where it ends; `None` if none begins there.
fn read_symbol<'a>(input: &'a str, start: usize) -> (found: Option<(Token<'a>, usize)>)
    requires
        start < input.spec_bytes().len(),
    ensures
        match symbol(input.spec_bytes().skip(start as int)) {
            Lexeme::Token(token, n) => found matches Some((t, end)) && t@ == token && end
                == start + n,
            _ => found is None,
        },
{
    let bytes = input.as_bytes();
    let len = bytes.len();
    let ghost s = bytes@.skip(start as int);
    let c = bytes[start];
    let d: u8 = if len - start > 1 {
        bytes[start + 1]
    } else {
        0
    };
    let e: u8 = if len - start > 2 {
        bytes[start + 2]
    } else {
        0
    };
    proof {
        assert(s[0] == c);
        if len - start > 1 {
            assert(s[1] == d);
        }
        if len - start > 2 {
            assert(s[2] == e);
        }
        assert(s.take(1) =~= bytes@.subrange(start as int, start + 1));
        if len - start > 1 {
            assert(s.take(2) =~= bytes@.subrange(start as int, start + 2));
        }
    }
    if c == '-' as u8 && d == '>' as u8 {
        Some((Token::Arrow, start + 2))
    } else if c == '=' as u8 && d == '>' as u8 {
        Some((Token::DoubleArrow, start + 2))
    } else if (c == '=' as u8 || c == '!' as u8) && d == '=' as u8 {
        Some((Token::Infix4(slice(input, start, start + 2)), start + 2))
    } else if (c == '&' as u8 && d == '&' as u8) || (c == '|' as u8 && d == '|' as u8) {
        Some((Token::Infix3(slice(input, start, start + 2)), start + 2))
    } else if c == '.' as u8 {
        Some((Token::Dot, start + 1))
    } else if c == ',' as u8 {
        Some((Token::Comma, start + 1))
    } else if c == ':' as u8 {
        Some((Token::Colon, start + 1))
    } else if c == '=' as u8 {
        Some((Token::Equal, start + 1))
    } else if c == '(' as u8 {
        Some((Token::LParen, start + 1))
    } else if c == ')' as u8 {
        Some((Token::RParen, start + 1))
    } else if c == '[' as u8 {
        Some((Token::LBrack, start + 1))
    } else if c == ']' as u8 {
        Some((Token::RBrack, start + 1))
    } else if c == '|' as u8 {
        Some((Token::Bar, start + 1))
    } else if c == '*' as u8 {
        Some((Token::Mul, start + 1))
    } else if c == '+' as u8 || c == '-' as u8 {
        Some((Token::Infix6(slice(input, start, start + 1)), start + 1))
    } else if c == '<' as u8 || c == '>' as u8 {
        Some((Token::Infix4(slice(input, start, start + 1)), start + 1))
    } else if c == 0xce && d == 0x9b {
        Some((Token::Any, start + 2))
    } else if c == 0xce && d == 0xbb {
        Some((Token::Lambda, start + 2))
    } else if c == 0xe2 && d == 0x88 && e == 0x80 {
        Some((Token::Forall, start + 3))
    } else {
        None
    }
}

/// The word that begins at `start`, where a letter stands, with the offset
/// where it ends.
fn read_word<'a>(input: &'a str, start: usize) -> (found: (Token<'a>, usize))
    requires
        start < input.spec_bytes().len(),
        is_lower(input.spec_bytes()[start as int]) || is_upper(input.spec_bytes()[start as int]),
    ensures
        lexeme(input.spec_bytes().skip(start as int)) == Lexeme::Token(
            found.0@,
            (found.1 - start) as nat,
        ),
        start < found.1 <= input.spec_bytes().len(),
{
    let bytes = input.as_bytes();
    let c = bytes[start];
    let ghost s = bytes@.skip(start as int);
    let end = word_end(bytes, start);
    proof {
        assert(s[0] == c);
        lemma_word_len(s);
        assert forall|i: int| start <= i < end implies #[trigger] bytes@[i] < 128 by {
            assert(bytes@[i] == s[i - start]);
        }
        assert(s.take(end - start) =~= bytes@.subrange(start as int, end as int));
    }
    let text = slice(input, start, end);
    proof {
        assert(text@[0] == c as char);
    }
    (keyword(text, lower_byte(c)), end)
}

/// The number that begins at `start`, where a digit stands, or a tilde and a
/// digit, with the offset where it ends; the fault if it does not fit.
fn read_number<'a>(input: &'a str, start: usize) -> (found: Result<(Token<'a>, usize), LexicalError>)
    requires
        start < input.spec_bytes().len(),
        is_digit(input.spec_bytes()[start as int]) || (at(input.spec_bytes(), start as int, '~')
            && start + 1 < input.spec_bytes().len() && is_digit(
            input.spec_bytes()[start + 1],
        )),
    ensures
        match number(input.spec_bytes().skip(start as int)) {
            Lexeme::Token(token, n) => found matches Ok((t, end)) && t@ == token && end == start
                + n,
            Lexeme::Overflow(n) => found == Err::<(Token<'a>, usize), _>(
                LexicalError::IntLiteral { start, end: (start + n) as usize },
            ) && start + n <= usize::MAX,
            Lexeme::Unknown => false,
        },
{
    let bytes = input.as_bytes();
    let c = bytes[start];
    let ghost s = bytes@.skip(start as int);
    let sign: usize = if c == '~' as u8 {
        1
    } else {
        0
    };
    let end = digits_end(bytes, start + sign);
    proof {
        let t = bytes@.skip(start + sign);
        assert(s[0] == c);
        assert(s.skip(sign as int) =~= t);
        lemma_digit_len(t);
        assert(t[0] == bytes@[start + sign]);
        assert forall|i: int| start <= i < end implies #[trigger] bytes@[i] < 128 by {
            if i >= start + sign {
                assert(bytes@[i] == t[i - start - sign]);
            }
        }
        assert(s.take(end - start) =~= bytes@.subrange(start as int, end as int));
    }
    let text = slice(input, start, end);
    match token_int_lit(text) {
        Some(v) => Ok((Token::IntLit(v), end)),
        None => Err(LexicalError::IntLiteral { start, end }),
    }
}

/// The token that begins at `start`, with the offset where it ends, or the
/// fault found there.
fn read_lexeme<'a>(input: &'a str, start: usize) -> (found: Result<(Token<'a>, usize), LexicalError>)
    requires
        start < input.spec_bytes().len(),
    ensures
        match lexeme(input.spec_bytes().skip(start as int)) {
            Lexeme::Token(token, n) => found matches Ok((t, end)) && t@ == token && end == start
                + n,
            Lexeme::Overflow(n) => found matches Err(error) && error@ == (Fault::IntLiteral {
                start: start as nat,
                end: start as nat + n,
            }),
            Lexeme::Unknown => found matches Err(error) && error@ == (Fault::NoMatch {
                offset: start as nat,
            }),
        },
{
    let bytes = input.as_bytes();
    let len = bytes.len();
    let c = bytes[start];
    let ghost s = bytes@.skip(start as int);
    proof {
        assert(s[0] == c);
        if len - start > 1 {
            assert(s[1] == bytes@[start + 1]);
        }
    }
    if lower_byte(c) || upper_byte(c) {
        Ok(read_word(input, start))
    } else if digit_byte(c) || (c == '~' as u8 && len - start > 1 && digit_byte(bytes[start + 1])) {
        read_number(input, start)
    } else {
        match read_symbol(input, start) {
            Some(found) => Ok(found),
            None => Err(LexicalError::NoMatch { offset: start }),
        }
    }
}

/// A tokenizer over one source text. It reads forward only; to read a text
/// again, make a new one.
pub struct LexerWrap<'a> {
    input: &'a str,
    pos: usize,
    halted: bool,
}

impl<'a> LexerWrap<'a> {
    #[verifier::type_invariant]
    spec fn within(self) -> bool {
        self.pos <= self.input.spec_bytes().len()
    }

    /// The bytes of the text that is being read.
    pub closed spec fn source(self) -> Seq<u8> {
        self.input.spec_bytes()
    }

    /// The offset of the first byte that has not been read.
    pub closed spec fn offset(self) -> nat {
        self.pos as nat
    }

    /// Whether a fault has ended the reading.
    pub closed spec fn halted(self) -> bool {
        self.halted
    }

    /// What `next` will find: nothing once a fault has ended the reading,
    /// else the next token of the text that is left.
    pub open spec fn upcoming(self) -> Scan {
        if self.halted() {
            Scan::End
        } else {
            scan(self.source().skip(self.offset() as int))
        }
    }

    /// A tokenizer at the start of `input`.
    pub fn new(input: &'a str) -> (lexer: Self)
        ensures
            lexer.source() == input.spec_bytes(),
            lexer.offset() == 0,
            !lexer.halted(),
    {
        LexerWrap { input, pos: 0, halted: false }
    }

    /// The text that is being read.
    pub fn input(&self) -> (input: &'a str)
        ensures
            input.spec_bytes() == self.source(),
    {
        self.input
    }

    /// The offset of the first byte that has not been read.
    pub fn position(&self) -> (offset: usize)
        ensures
            offset == self.offset(),
            offset <= self.source().len(),
    {
        proof {
            use_type_invariant(self);
        }
        self.pos
    }

    /// The next token with its offsets, or the fault that ends the reading,
    /// or `None` when the text holds no further token or a fault has been
    /// reported before.
    pub fn next(&mut self) -> (item: Option<Result<Spanned<'a>, LexicalError>>)
        ensures
            final(self).source() == old(self).source(),
            final(self).offset() <= final(self).source().len(),
            match old(self).upcoming() {
                Scan::End => item is None && final(self).offset() == old(self).offset()
                    && final(self).halted() == old(self).halted(),
                Scan::Token { token, start, end } => item matches Some(Ok(found)) && found.0
                    == old(self).offset() + start && found.1@ == token && found.2 == old(
                    self,
                ).offset() + end && final(self).offset() == old(self).offset() + end
                    && !final(self).halted(),
                Scan::Failed(fault) => item matches Some(Err(error)) && error@ == fault.shifted(
                    old(self).offset(),
                ) && final(self).offset() == old(self).offset() && final(self).halted(),
            },
    {
        proof {
            use_type_invariant(&*self);
        }
        if self.halted {
            return None;
        }
        let input: &'a str = self.input;
        let bytes = input.as_bytes();
        let start = skip_trivia(bytes, self.pos);
        if start >= bytes.len() {
            return None;
        }
        proof {
            assert(bytes@.skip(self.pos as int).skip(start - self.pos) =~= bytes@.skip(
                start as int,
            ));
            lemma_scan_bounds(bytes@.skip(self.pos as int));
        }
        match read_lexeme(input, start) {
            Ok((token, end)) => {
                self.pos = end;
                Some(Ok((start, token, end)))
            },
            Err(error) => {
                self.halted = true;
                Some(Err(error))
            },
        }
    }
}

/// Tokens with their offsets, as contracts see them.
pub open spec fn spanned<'a>(items: Seq<Spanned<'a>>) -> Seq<(nat, TokenView, nat)> {
    Seq::new(items.len(), |i: int| (items[i].0 as nat, items[i].1@, items[i].2 as nat))
}

/// All tokens of `input` with their offsets, or the fault at which reading
/// stops.
pub fn tokenize<'a>(input: &'a str) -> (result: Result<Vec<Spanned<'a>>, LexicalError>)
    ensures
        match result {
            Ok(items) => lex(input.spec_bytes(), 0) == Ok::<_, Fault>(spanned(items@)),
            Err(error) => lex(input.spec_bytes(), 0) == Err::<Seq<(nat, TokenView, nat)>, _>(
                error@,
            ),
        },
{
    let ghost src = input.spec_bytes();
    let mut lexer = LexerWrap::new(input);
    let mut items: Vec<Spanned<'a>> = Vec::new();
    proof {
        assert(spanned(items@) =~= Seq::empty());
        match lex(src, 0) {
            Ok(rest) => assert(Seq::<(nat, TokenView, nat)>::empty() + rest =~= rest),
            Err(_) => {},
        }
    }
    loop
        invariant
            src == input.spec_bytes(),
            lexer.source() == src,
            lexer.offset() <= src.len(),
            !lexer.halted(),
            lex(src, 0) == match lex(src, lexer.offset()) {
                Ok(rest) => Ok::<_, Fault>(spanned(items@) + rest),
                Err(fault) => Err(fault),
            },
        decreases src.len() - lexer.offset(),
    {
        let ghost from = lexer.offset();
        let ghost before = items@;
        proof {
            lemma_scan_bounds(src.skip(from as int));
        }
        match lexer.next() {
            None => {
                proof {
                    assert(spanned(items@) + Seq::empty() =~= spanned(items@));
                }
                return Ok(items);
            },
            Some(Ok(found)) => {
                items.push(found);
                proof {
                    let one = seq![(found.0 as nat, found.1@, found.2 as nat)];
                    assert(spanned(items@) =~= spanned(before) + one);
                    match lex(src, lexer.offset()) {
                        Ok(rest) => assert(spanned(before) + (one + rest) =~= spanned(items@)
                            + rest),
                        Err(_) => {},
                    }
                }
            },
            Some(Err(error)) => {
                return Err(error);
            },
        }
    }
}

} // verus!
