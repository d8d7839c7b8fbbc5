use system_f::lex::{
    token_bool_lit, token_int_lit, tokenize, LexerWrap, LexicalError, Token,
};

fn kinds(input: &str) -> Vec<Token<'_>> {
    let mut out = Vec::new();
    for (_, token, _) in tokenize(input).unwrap() {
        out.push(token);
    }
    out
}

#[test]
fn sign_glyph_negates_the_literal() {
    assert_eq!(kinds("~42"), vec![Token::IntLit(-42)]);
    assert_eq!(kinds("42"), vec![Token::IntLit(42)]);
    assert_eq!(kinds("0"), vec![Token::IntLit(0)]);
    assert_eq!(kinds("~0"), vec![Token::IntLit(0)]);
    assert_eq!(kinds("007"), vec![Token::IntLit(7)]);
}

#[test]
fn minus_is_an_operator_not_a_sign() {
    assert_eq!(kinds("-42"), vec![Token::Infix6("-"), Token::IntLit(42)]);
    assert_eq!(
        kinds("1-~2"),
        vec![Token::IntLit(1), Token::Infix6("-"), Token::IntLit(-2)]
    );
}

#[test]
fn multiplication_is_its_own_kind() {
    assert_eq!(
        kinds("1+2*3"),
        vec![
            Token::IntLit(1),
            Token::Infix6("+"),
            Token::IntLit(2),
            Token::Mul,
            Token::IntLit(3)
        ]
    );
}

#[test]
fn case_decides_the_kind_of_identifier() {
    assert_eq!(kinds("foo"), vec![Token::ExpId("foo")]);
    assert_eq!(kinds("Foo"), vec![Token::TypId("Foo")]);
    assert_eq!(kinds("f_1X"), vec![Token::ExpId("f_1X")]);
    assert_eq!(kinds("F_1x"), vec![Token::TypId("F_1x")]);
}

#[test]
fn comments_and_blanks_yield_no_token() {
    assert_eq!(
        tokenize("1 /* c */ + 2"),
        Ok(vec![
            (0, Token::IntLit(1), 1),
            (10, Token::Infix6("+"), 11),
            (12, Token::IntLit(2), 13)
        ])
    );
}

#[test]
fn empty_and_blank_texts_hold_no_token() {
    assert_eq!(tokenize(""), Ok(vec![]));
    assert_eq!(tokenize(" \t\r\n"), Ok(vec![]));
    assert_eq!(tokenize("/**/"), Ok(vec![]));
    assert_eq!(tokenize("/* a */ /* b */"), Ok(vec![]));
}

#[test]
fn offsets_count_bytes_from_the_start() {
    assert_eq!(tokenize("\t\r\n x"), Ok(vec![(4, Token::ExpId("x"), 5)]));
    assert_eq!(
        tokenize("let x"),
        Ok(vec![(0, Token::Let, 3), (4, Token::ExpId("x"), 5)])
    );
}

#[test]
fn comments_end_at_the_first_close_and_do_not_nest() {
    assert_eq!(tokenize("/*/*/ x"), Ok(vec![(6, Token::ExpId("x"), 7)]));
    assert_eq!(tokenize("/***/x"), Ok(vec![(5, Token::ExpId("x"), 6)]));
    assert_eq!(
        tokenize("/* /* */ */"),
        Err(LexicalError::NoMatch { offset: 10 })
    );
    let mut lexer = LexerWrap::new("/* /* */ */");
    assert_eq!(lexer.next(), Some(Ok((9, Token::Mul, 10))));
}

#[test]
fn comment_may_hold_text_that_is_not_ascii() {
    assert_eq!(tokenize("/* \u{3bb}\u{2200} */x"), Ok(vec![(11, Token::ExpId("x"), 12)]));
}

#[test]
fn unclosed_comment_is_a_fault_at_its_start() {
    assert_eq!(tokenize("x /* c"), Err(LexicalError::NoMatch { offset: 2 }));
    assert_eq!(tokenize("/*/"), Err(LexicalError::NoMatch { offset: 0 }));
    assert_eq!(tokenize("/"), Err(LexicalError::NoMatch { offset: 0 }));
}

#[test]
fn punctuation_marks() {
    assert_eq!(
        kinds(". , : = ( ) [ ] | -> =>"),
        vec![
            Token::Dot,
            Token::Comma,
            Token::Colon,
            Token::Equal,
            Token::LParen,
            Token::RParen,
            Token::LBrack,
            Token::RBrack,
            Token::Bar,
            Token::Arrow,
            Token::DoubleArrow
        ]
    );
}

#[test]
fn operators_by_precedence() {
    assert_eq!(
        kinds("* + - < > == != && ||"),
        vec![
            Token::Mul,
            Token::Infix6("+"),
            Token::Infix6("-"),
            Token::Infix4("<"),
            Token::Infix4(">"),
            Token::Infix4("=="),
            Token::Infix4("!="),
            Token::Infix3("&&"),
            Token::Infix3("||")
        ]
    );
}

#[test]
fn the_longest_mark_wins() {
    assert_eq!(
        kinds("==="),
        vec![Token::Infix4("=="), Token::Equal]
    );
    assert_eq!(kinds("==>"), vec![Token::Infix4("=="), Token::Infix4(">")]);
    assert_eq!(
        kinds("a-->b"),
        vec![
            Token::ExpId("a"),
            Token::Infix6("-"),
            Token::Arrow,
            Token::ExpId("b")
        ]
    );
    assert_eq!(
        kinds("x|y||z|||"),
        vec![
            Token::ExpId("x"),
            Token::Bar,
            Token::ExpId("y"),
            Token::Infix3("||"),
            Token::ExpId("z"),
            Token::Infix3("||"),
            Token::Bar
        ]
    );
    assert_eq!(kinds("<="), vec![Token::Infix4("<"), Token::Equal]);
}

#[test]
fn keywords() {
    assert_eq!(
        kinds("if then else let in match with end any lambda forall"),
        vec![
            Token::If,
            Token::Then,
            Token::Else,
            Token::Let,
            Token::In,
            Token::Match,
            Token::With,
            Token::End,
            Token::Any,
            Token::Lambda,
            Token::Forall
        ]
    );
    assert_eq!(
        kinds("Int Bool Unit"),
        vec![Token::TInt, Token::TBool, Token::TUnit]
    );
    assert_eq!(
        kinds("true false null"),
        vec![Token::BoolLit(true), Token::BoolLit(false), Token::UnitLit]
    );
}

#[test]
fn symbolic_spellings_of_keywords() {
    assert_eq!(
        tokenize("\u{39b} X . \u{3bb} x \u{2200}Y"),
        Ok(vec![
            (0, Token::Any, 2),
            (3, Token::TypId("X"), 4),
            (5, Token::Dot, 6),
            (7, Token::Lambda, 9),
            (10, Token::ExpId("x"), 11),
            (12, Token::Forall, 15),
            (15, Token::TypId("Y"), 16)
        ])
    );
}

#[test]
fn a_word_that_only_begins_like_a_keyword_is_an_identifier() {
    assert_eq!(kinds("iffy"), vec![Token::ExpId("iffy")]);
    assert_eq!(kinds("truex"), vec![Token::ExpId("truex")]);
    assert_eq!(kinds("true1"), vec![Token::ExpId("true1")]);
    assert_eq!(kinds("nulls"), vec![Token::ExpId("nulls")]);
    assert_eq!(kinds("Intx"), vec![Token::TypId("Intx")]);
    assert_eq!(kinds("Int_"), vec![Token::TypId("Int_")]);
    assert_eq!(kinds("int"), vec![Token::ExpId("int")]);
    assert_eq!(kinds("True"), vec![Token::TypId("True")]);
    assert_eq!(kinds("If"), vec![Token::TypId("If")]);
    assert_eq!(kinds("in1"), vec![Token::ExpId("in1")]);
}

#[test]
fn a_number_ends_where_its_digits_end() {
    assert_eq!(kinds("12ab"), vec![Token::IntLit(12), Token::ExpId("ab")]);
    assert_eq!(kinds("1 2"), vec![Token::IntLit(1), Token::IntLit(2)]);
    assert_eq!(kinds("1~2"), vec![Token::IntLit(1), Token::IntLit(-2)]);
    assert_eq!(tokenize("12_"), Err(LexicalError::NoMatch { offset: 2 }));
}

#[test]
fn bytes_outside_the_grammar_are_faults_at_their_offset() {
    assert_eq!(tokenize("_x"), Err(LexicalError::NoMatch { offset: 0 }));
    assert_eq!(tokenize("a # b"), Err(LexicalError::NoMatch { offset: 2 }));
    assert_eq!(tokenize("x !y"), Err(LexicalError::NoMatch { offset: 2 }));
    assert_eq!(tokenize("x & y"), Err(LexicalError::NoMatch { offset: 2 }));
    assert_eq!(tokenize("~"), Err(LexicalError::NoMatch { offset: 0 }));
    assert_eq!(tokenize("~x"), Err(LexicalError::NoMatch { offset: 0 }));
    assert_eq!(tokenize("~~1"), Err(LexicalError::NoMatch { offset: 0 }));
    assert_eq!(tokenize("x \u{e9}"), Err(LexicalError::NoMatch { offset: 2 }));
    assert_eq!(tokenize("\"s\""), Err(LexicalError::NoMatch { offset: 0 }));
}

#[test]
fn integer_literals_at_the_ends_of_the_range() {
    assert_eq!(kinds("9223372036854775807"), vec![Token::IntLit(i64::MAX)]);
    assert_eq!(kinds("~9223372036854775807"), vec![Token::IntLit(-i64::MAX)]);
    assert_eq!(kinds("~9223372036854775808"), vec![Token::IntLit(i64::MIN)]);
    assert_eq!(kinds("0000000000000000000000000000012"), vec![Token::IntLit(12)]);
}

#[test]
fn integer_literals_out_of_range_are_faults_with_their_span() {
    assert_eq!(
        tokenize("9223372036854775808"),
        Err(LexicalError::IntLiteral { start: 0, end: 19 })
    );
    assert_eq!(
        tokenize("x ~9223372036854775809 y"),
        Err(LexicalError::IntLiteral { start: 2, end: 22 })
    );
    assert_eq!(
        tokenize("99999999999999999999999999"),
        Err(LexicalError::IntLiteral { start: 0, end: 26 })
    );
    assert_eq!(
        tokenize("18446744073709551616"),
        Err(LexicalError::IntLiteral { start: 0, end: 20 })
    );
}

#[test]
fn next_hands_out_tokens_one_by_one() {
    let mut lexer = LexerWrap::new("f [Int] ");
    assert_eq!(lexer.next(), Some(Ok((0, Token::ExpId("f"), 1))));
    assert_eq!(lexer.next(), Some(Ok((2, Token::LBrack, 3))));
    assert_eq!(lexer.next(), Some(Ok((3, Token::TInt, 6))));
    assert_eq!(lexer.next(), Some(Ok((6, Token::RBrack, 7))));
    assert_eq!(lexer.next(), None);
    assert_eq!(lexer.next(), None);
}

#[test]
fn next_stops_after_a_fault() {
    let mut lexer = LexerWrap::new("a # b");
    assert_eq!(lexer.next(), Some(Ok((0, Token::ExpId("a"), 1))));
    assert_eq!(lexer.next(), Some(Err(LexicalError::NoMatch { offset: 2 })));
    assert_eq!(lexer.next(), None);
    assert_eq!(lexer.next(), None);
}

#[test]
fn next_stops_after_an_unreadable_literal() {
    let mut lexer = LexerWrap::new("1 99999999999999999999 2");
    assert_eq!(lexer.next(), Some(Ok((0, Token::IntLit(1), 1))));
    assert_eq!(
        lexer.next(),
        Some(Err(LexicalError::IntLiteral { start: 2, end: 22 }))
    );
    assert_eq!(lexer.next(), None);
}

#[test]
fn two_tokenizers_do_not_share_a_cursor() {
    let mut a = LexerWrap::new("x y");
    let mut b = LexerWrap::new("x y");
    assert_eq!(a.next(), Some(Ok((0, Token::ExpId("x"), 1))));
    assert_eq!(a.next(), Some(Ok((2, Token::ExpId("y"), 3))));
    assert_eq!(b.next(), Some(Ok((0, Token::ExpId("x"), 1))));
}

#[test]
fn int_literal_text() {
    assert_eq!(token_int_lit("42"), Some(42));
    assert_eq!(token_int_lit("~42"), Some(-42));
    assert_eq!(token_int_lit("0"), Some(0));
    assert_eq!(token_int_lit("~9223372036854775808"), Some(i64::MIN));
    assert_eq!(token_int_lit("9223372036854775807"), Some(i64::MAX));
    assert_eq!(token_int_lit("9223372036854775808"), None);
    assert_eq!(token_int_lit("~9223372036854775809"), None);
    assert_eq!(token_int_lit(""), None);
    assert_eq!(token_int_lit("~"), None);
    assert_eq!(token_int_lit("-5"), None);
    assert_eq!(token_int_lit("+5"), None);
    assert_eq!(token_int_lit("4a"), None);
    assert_eq!(token_int_lit("~~4"), None);
    assert_eq!(token_int_lit(" 4"), None);
}

#[test]
fn bool_literal_text() {
    assert_eq!(token_bool_lit("true"), Some(true));
    assert_eq!(token_bool_lit("false"), Some(false));
    assert_eq!(token_bool_lit("True"), None);
    assert_eq!(token_bool_lit("truee"), None);
    assert_eq!(token_bool_lit(""), None);
}

#[test]
fn a_small_program() {
    assert_eq!(
        kinds("let id : forall A. A -> A = any A. lambda x : A. x in id[Int] 1 end"),
        vec![
            Token::Let,
            Token::ExpId("id"),
            Token::Colon,
            Token::Forall,
            Token::TypId("A"),
            Token::Dot,
            Token::TypId("A"),
            Token::Arrow,
            Token::TypId("A"),
            Token::Equal,
            Token::Any,
            Token::TypId("A"),
            Token::Dot,
            Token::Lambda,
            Token::ExpId("x"),
            Token::Colon,
            Token::TypId("A"),
            Token::Dot,
            Token::ExpId("x"),
            Token::In,
            Token::ExpId("id"),
            Token::LBrack,
            Token::TInt,
            Token::RBrack,
            Token::IntLit(1),
            Token::End
        ]
    );
}

#[test]
fn position_follows_the_tokens_handed_out() {
    let mut lexer = LexerWrap::new("  ab  cd  ");
    assert_eq!(lexer.input(), "  ab  cd  ");
    assert_eq!(lexer.position(), 0);
    assert_eq!(lexer.next(), Some(Ok((2, Token::ExpId("ab"), 4))));
    assert_eq!(lexer.position(), 4);
    assert_eq!(lexer.next(), Some(Ok((6, Token::ExpId("cd"), 8))));
    assert_eq!(lexer.position(), 8);
    assert_eq!(lexer.next(), None);
    assert_eq!(lexer.position(), 8);
    assert_eq!(lexer.input(), "  ab  cd  ");
}

#[test]
fn position_stays_at_a_fault() {
    let mut lexer = LexerWrap::new("a $");
    assert_eq!(lexer.next(), Some(Ok((0, Token::ExpId("a"), 1))));
    assert_eq!(lexer.next(), Some(Err(LexicalError::NoMatch { offset: 2 })));
    assert_eq!(lexer.position(), 1);
}
