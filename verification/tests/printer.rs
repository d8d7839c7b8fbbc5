use system_f::ast::{Annot, Binary, Constant, Expr, Pattern, RawExpr, Typ};
use system_f::lex::{tokenize, Token};

fn var(name: &str) -> Expr {
    Expr::new(RawExpr::Var { id: name.to_string() })
}

fn num(i: i64) -> Expr {
    Expr::new(RawExpr::Con { val: Constant::Integer(i) })
}

fn tvar(name: &str) -> Typ {
    Typ::TVar(name.to_string())
}

fn arrow(x: Typ, y: Typ) -> Typ {
    Typ::Arrow(Box::new(x), Box::new(y))
}

fn annot(name: &str, typ: Typ) -> Annot {
    Annot { eid: name.to_string(), typ }
}

fn kinds(input: &str) -> Vec<Token<'_>> {
    let mut out = Vec::new();
    for (_, token, _) in tokenize(input).unwrap() {
        out.push(token);
    }
    out
}

#[test]
fn negative_integers_print_with_the_sign_glyph() {
    assert_eq!(Constant::Integer(-42).to_string(), "~42");
    assert_eq!(Constant::Integer(42).to_string(), "42");
    assert_eq!(Constant::Integer(0).to_string(), "0");
    assert_eq!(Constant::Integer(-1).to_string(), "~1");
    assert_eq!(Constant::Integer(10).to_string(), "10");
    assert_eq!(Constant::Integer(1234567890).to_string(), "1234567890");
}

#[test]
fn the_ends_of_the_integer_range_print() {
    assert_eq!(Constant::Integer(i64::MAX).to_string(), "9223372036854775807");
    assert_eq!(Constant::Integer(i64::MIN).to_string(), "~9223372036854775808");
    assert_eq!(Constant::Integer(-i64::MAX).to_string(), "~9223372036854775807");
}

#[test]
fn other_constants_print_as_their_keywords() {
    assert_eq!(Constant::Unit.to_string(), "null");
    assert_eq!(Constant::Boolean(true).to_string(), "true");
    assert_eq!(Constant::Boolean(false).to_string(), "false");
}

#[test]
fn every_integer_that_is_printed_reads_back() {
    for i in [0, 1, -1, 9, 10, -10, 99, 100, 4096, -65535, i64::MAX, i64::MIN, i64::MIN + 1] {
        let text = Constant::Integer(i).to_string();
        assert_eq!(kinds(&text), vec![Token::IntLit(i)]);
    }
}

#[test]
fn ground_types_print_as_their_names() {
    assert_eq!(Typ::Int.to_string(), "Int");
    assert_eq!(Typ::Bool.to_string(), "Bool");
    assert_eq!(Typ::Unit.to_string(), "Unit");
    assert_eq!(Typ::Unknown.to_string(), "Unknown");
    assert_eq!(tvar("Elem").to_string(), "Elem");
}

#[test]
fn tuple_types_join_their_entries_with_stars() {
    assert_eq!(Typ::Prod(vec![Typ::Int, Typ::Bool]).to_string(), "Int * Bool");
    assert_eq!(
        Typ::Prod(vec![Typ::Int, Typ::Bool, Typ::Unit]).to_string(),
        "Int * Bool * Unit"
    );
    assert_eq!(
        Typ::Prod(vec![arrow(Typ::Int, Typ::Int), tvar("A")]).to_string(),
        "(Int -> Int) * (A)"
    );
    assert_eq!(
        Typ::Prod(vec![
            Typ::Prod(vec![Typ::Int, Typ::Int]),
            Typ::Prod(vec![Typ::Bool, Typ::Bool])
        ])
        .to_string(),
        "(Int * Int) * (Bool * Bool)"
    );
    assert_eq!(Typ::Prod(vec![]).to_string(), "");
    assert_eq!(Typ::Prod(vec![Typ::Int]).to_string(), "Int");
}

#[test]
fn a_composite_type_beside_an_arrow_stands_in_parentheses() {
    assert_eq!(arrow(Typ::Int, Typ::Bool).to_string(), "Int -> Bool");
    assert_eq!(
        arrow(Typ::Prod(vec![Typ::Int, Typ::Bool]), Typ::Int).to_string(),
        "(Int * Bool) -> Int"
    );
    assert_eq!(
        arrow(arrow(Typ::Int, Typ::Int), Typ::Int).to_string(),
        "(Int -> Int) -> Int"
    );
    assert_eq!(
        arrow(Typ::Int, arrow(Typ::Int, Typ::Int)).to_string(),
        "Int -> (Int -> Int)"
    );
    assert_eq!(arrow(tvar("A"), Typ::Unknown).to_string(), "(A) -> (Unknown)");
}

#[test]
fn quantified_types_list_their_parameters() {
    assert_eq!(
        Typ::Forall(vec!["A".to_string()], Box::new(arrow(tvar("A"), tvar("A")))).to_string(),
        "forall A. (A) -> (A)"
    );
    assert_eq!(
        Typ::Forall(vec!["A".to_string(), "B".to_string()], Box::new(Typ::Int)).to_string(),
        "forall A, B. Int"
    );
    assert_eq!(Typ::Forall(vec![], Box::new(Typ::Int)).to_string(), "forall . Int");
}

#[test]
fn annotations_print_name_colon_type() {
    assert_eq!(annot("x", Typ::Int).to_string(), "x : Int");
    assert_eq!(
        annot("f", arrow(Typ::Int, Typ::Bool)).to_string(),
        "f : Int -> Bool"
    );
}

#[test]
fn an_expression_prints_its_type_slot_as_a_comment() {
    assert_eq!(var("x").to_string(), "x /*Unknown*/");
    assert_eq!(num(-5).with_typ(Typ::Int).to_string(), "~5 /*Int*/");
    assert_eq!(
        var("f").with_typ(arrow(Typ::Int, Typ::Int)).to_string(),
        "f /*Int -> Int*/"
    );
}

#[test]
fn constants_and_names_print_bare() {
    assert_eq!(RawExpr::Con { val: Constant::Unit }.to_string(), "null");
    assert_eq!(RawExpr::Var { id: "x".to_string() }.to_string(), "x");
}

#[test]
fn let_prints_binder_value_and_body() {
    let e = RawExpr::Let {
        annot: annot("x", Typ::Int),
        exp: Box::new(num(1)),
        body: Box::new(var("x")),
    };
    assert_eq!(
        e.to_string(),
        "let x : Int = 1 /*Unknown*/ in x /*Unknown*/ end"
    );
}

#[test]
fn application_prints_function_then_argument() {
    let e = RawExpr::EApp { exp: Box::new(var("f")), arg: Box::new(var("x")) };
    assert_eq!(e.to_string(), "f /*Unknown*/ x /*Unknown*/");
    let nested = RawExpr::EApp {
        exp: Box::new(var("f")),
        arg: Box::new(Expr::new(RawExpr::EApp {
            exp: Box::new(var("g")),
            arg: Box::new(var("x")),
        })),
    };
    assert_eq!(
        nested.to_string(),
        "f /*Unknown*/ (g /*Unknown*/ x /*Unknown*/ /*Unknown*/)"
    );
}

#[test]
fn type_application_prints_the_type_in_brackets() {
    let e = RawExpr::TApp { exp: Box::new(var("id")), arg: Typ::Int };
    assert_eq!(e.to_string(), "id /*Unknown*/[Int]");
    let e = RawExpr::TApp { exp: Box::new(var("id")), arg: arrow(Typ::Int, Typ::Int) };
    assert_eq!(e.to_string(), "id /*Unknown*/[Int -> Int]");
}

#[test]
fn tuples_print_in_parentheses_with_commas() {
    let e = RawExpr::Tuple { entries: vec![num(1), var("x"), num(-2)] };
    assert_eq!(
        e.to_string(),
        "(1 /*Unknown*/, x /*Unknown*/, ~2 /*Unknown*/)"
    );
}

#[test]
fn a_composite_entry_of_a_tuple_stands_in_parentheses() {
    let inner = Expr::new(RawExpr::Let {
        annot: annot("x", Typ::Int),
        exp: Box::new(num(1)),
        body: Box::new(var("x")),
    });
    let pair = Expr::new(RawExpr::Tuple { entries: vec![num(1), num(2)] });
    let e = RawExpr::Tuple { entries: vec![inner, pair] };
    assert_eq!(
        e.to_string(),
        "((let x : Int = 1 /*Unknown*/ in x /*Unknown*/ end /*Unknown*/), \
         (1 /*Unknown*/, 2 /*Unknown*/) /*Unknown*/)"
    );
}

#[test]
fn match_prints_its_clauses_in_order() {
    let e = RawExpr::Match {
        exp: Box::new(var("p")),
        clauses: vec![
            (Pattern::Var("a".to_string()), num(1)),
            (
                Pattern::Tuple(vec![
                    Pattern::Var("a".to_string()),
                    Pattern::Tuple(vec![
                        Pattern::Var("b".to_string()),
                        Pattern::Var("c".to_string()),
                    ]),
                ]),
                var("b"),
            ),
        ],
    };
    assert_eq!(
        e.to_string(),
        "match p /*Unknown*/ with | a => 1 /*Unknown*/ | (a, (b, c)) => b /*Unknown*/ end"
    );
    let none = RawExpr::Match { exp: Box::new(var("p")), clauses: vec![] };
    assert_eq!(none.to_string(), "match p /*Unknown*/ with end");
}

#[test]
fn binary_operations_print_the_operator_between_the_sides() {
    let ops = [
        (Binary::Add, "+"),
        (Binary::Sub, "-"),
        (Binary::Mul, "*"),
        (Binary::Eq, "=="),
        (Binary::Lt, "<"),
        (Binary::Gt, ">"),
        (Binary::Ne, "!="),
        (Binary::And, "&&"),
        (Binary::Or, "||"),
    ];
    for (op, text) in ops {
        let e = RawExpr::Binop { lhs: Box::new(var("a")), op, rhs: Box::new(num(2)) };
        assert_eq!(
            e.to_string(),
            format!("a /*Unknown*/ {} 2 /*Unknown*/", text)
        );
    }
    let nested = RawExpr::Binop {
        lhs: Box::new(Expr::new(RawExpr::Binop {
            lhs: Box::new(num(1)),
            op: Binary::Add,
            rhs: Box::new(num(2)),
        })),
        op: Binary::Mul,
        rhs: Box::new(num(3)),
    };
    assert_eq!(
        nested.to_string(),
        "(1 /*Unknown*/ + 2 /*Unknown*/ /*Unknown*/) * 3 /*Unknown*/"
    );
}

#[test]
fn lambda_prints_its_parameters_and_body() {
    let e = RawExpr::Lambda {
        args: vec![annot("x", Typ::Int), annot("y", Typ::Bool)],
        body: Box::new(var("x")),
    };
    assert_eq!(e.to_string(), "lambda x : Int, y : Bool. x /*Unknown*/");
}

#[test]
fn type_abstraction_prints_its_parameters_and_body() {
    let e = RawExpr::Any {
        args: vec!["A".to_string(), "B".to_string()],
        body: Box::new(Expr::new(RawExpr::Lambda {
            args: vec![annot("x", tvar("A"))],
            body: Box::new(var("x")),
        })),
    };
    assert_eq!(
        e.to_string(),
        "any A, B. (lambda x : A. x /*Unknown*/ /*Unknown*/)"
    );
}

#[test]
fn conditional_prints_its_three_parts() {
    let e = RawExpr::If {
        cond: Box::new(var("c")),
        t: Box::new(num(1)),
        f: Box::new(num(2)),
    };
    assert_eq!(
        e.to_string(),
        "if c /*Unknown*/ then 1 /*Unknown*/ else 2 /*Unknown*/"
    );
}

#[test]
fn patterns_print_like_the_values_they_match() {
    let mut out = String::new();
    Pattern::Var("x".to_string()).render(&mut out);
    assert_eq!(out, "x");
    let mut out = String::from(">");
    Pattern::Tuple(vec![Pattern::Var("a".to_string()), Pattern::Var("b".to_string())])
        .render(&mut out);
    assert_eq!(out, ">(a, b)");
}

#[test]
fn render_appends_to_what_is_there() {
    let mut out = String::from("type: ");
    arrow(Typ::Int, Typ::Bool).render(&mut out);
    out.push_str("; value: ");
    Constant::Integer(-7).render(&mut out);
    assert_eq!(out, "type: Int -> Bool; value: ~7");
}

#[test]
fn a_printed_type_reads_back_as_its_tokens() {
    let t = Typ::Forall(
        vec!["A".to_string(), "B".to_string()],
        Box::new(arrow(
            Typ::Prod(vec![tvar("A"), Typ::Int]),
            arrow(tvar("B"), Typ::Bool),
        )),
    );
    let text = t.to_string();
    assert_eq!(text, "forall A, B. ((A) * Int) -> ((B) -> Bool)");
    assert_eq!(
        kinds(&text),
        vec![
            Token::Forall,
            Token::TypId("A"),
            Token::Comma,
            Token::TypId("B"),
            Token::Dot,
            Token::LParen,
            Token::LParen,
            Token::TypId("A"),
            Token::RParen,
            Token::Mul,
            Token::TInt,
            Token::RParen,
            Token::Arrow,
            Token::LParen,
            Token::LParen,
            Token::TypId("B"),
            Token::RParen,
            Token::Arrow,
            Token::TBool,
            Token::RParen
        ]
    );
}

#[test]
fn a_printed_expression_reads_back_as_its_tokens() {
    let body = Expr::new(RawExpr::If {
        cond: Box::new(Expr::new(RawExpr::Binop {
            lhs: Box::new(var("x")),
            op: Binary::Lt,
            rhs: Box::new(num(-1)),
        })),
        t: Box::new(Expr::new(RawExpr::Tuple { entries: vec![var("x"), num(0)] })),
        f: Box::new(Expr::new(RawExpr::Match {
            exp: Box::new(var("p")),
            clauses: vec![(
                Pattern::Tuple(vec![Pattern::Var("a".to_string()), Pattern::Var("b".to_string())]),
                Expr::new(RawExpr::EApp {
                    exp: Box::new(Expr::new(RawExpr::TApp {
                        exp: Box::new(var("f")),
                        arg: Typ::Int,
                    })),
                    arg: Box::new(var("a")),
                }),
            )],
        })),
    })
    .with_typ(Typ::Prod(vec![Typ::Int, Typ::Int]));
    let e = Expr::new(RawExpr::Let {
        annot: annot("x", Typ::Int),
        exp: Box::new(Expr::new(RawExpr::Con { val: Constant::Boolean(true) })),
        body: Box::new(body),
    });
    let text = e.to_string();
    assert_eq!(
        kinds(&text),
        vec![
            Token::Let,
            Token::ExpId("x"),
            Token::Colon,
            Token::TInt,
            Token::Equal,
            Token::BoolLit(true),
            Token::In,
            Token::LParen,
            Token::If,
            Token::LParen,
            Token::ExpId("x"),
            Token::Infix4("<"),
            Token::IntLit(-1),
            Token::RParen,
            Token::Then,
            Token::LParen,
            Token::ExpId("x"),
            Token::Comma,
            Token::IntLit(0),
            Token::RParen,
            Token::Else,
            Token::LParen,
            Token::Match,
            Token::ExpId("p"),
            Token::With,
            Token::Bar,
            Token::LParen,
            Token::ExpId("a"),
            Token::Comma,
            Token::ExpId("b"),
            Token::RParen,
            Token::DoubleArrow,
            Token::LParen,
            Token::LParen,
            Token::ExpId("f"),
            Token::LBrack,
            Token::TInt,
            Token::RBrack,
            Token::RParen,
            Token::ExpId("a"),
            Token::RParen,
            Token::End,
            Token::RParen,
            Token::RParen,
            Token::End
        ]
    );
}

#[test]
fn every_operator_prints_as_a_token_of_its_precedence() {
    let expect = [
        (Binary::Mul, Token::Mul),
        (Binary::Add, Token::Infix6("+")),
        (Binary::Sub, Token::Infix6("-")),
        (Binary::Lt, Token::Infix4("<")),
        (Binary::Gt, Token::Infix4(">")),
        (Binary::Eq, Token::Infix4("==")),
        (Binary::Ne, Token::Infix4("!=")),
        (Binary::And, Token::Infix3("&&")),
        (Binary::Or, Token::Infix3("||")),
    ];
    for (op, token) in expect {
        let text = RawExpr::Binop { lhs: Box::new(num(1)), op, rhs: Box::new(num(2)) }.to_string();
        assert_eq!(kinds(&text), vec![Token::IntLit(1), token, Token::IntLit(2)]);
    }
}

#[test]
fn lambda_and_type_abstraction_read_back() {
    let e = RawExpr::Any {
        args: vec!["A".to_string()],
        body: Box::new(Expr::new(RawExpr::Lambda {
            args: vec![annot("x", tvar("A")), annot("n", Typ::Int)],
            body: Box::new(Expr::new(RawExpr::Con { val: Constant::Unit })),
        })),
    };
    assert_eq!(
        kinds(&e.to_string()),
        vec![
            Token::Any,
            Token::TypId("A"),
            Token::Dot,
            Token::LParen,
            Token::Lambda,
            Token::ExpId("x"),
            Token::Colon,
            Token::TypId("A"),
            Token::Comma,
            Token::ExpId("n"),
            Token::Colon,
            Token::TInt,
            Token::Dot,
            Token::UnitLit,
            Token::RParen
        ]
    );
}
