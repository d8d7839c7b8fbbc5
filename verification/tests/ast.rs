use system_f::ast::{Annot, Binary, Constant, Decl, Expr, Pattern, Prog, RawExpr, Typ};

fn var(name: &str) -> Expr {
    Expr::new(RawExpr::Var { id: name.to_string() })
}

#[test]
fn a_new_expression_has_an_unknown_type() {
    let e = Expr::new(RawExpr::Con { val: Constant::Integer(1) });
    assert_eq!(e.typ, Typ::Unknown);
    assert_eq!(e.expr, RawExpr::Con { val: Constant::Integer(1) });
}

#[test]
fn raw_gives_the_expression_without_its_slot() {
    let e = var("x");
    assert_eq!(*e.raw(), RawExpr::Var { id: "x".to_string() });
    assert!(matches!(e.raw(), RawExpr::Var { .. }));
}

#[test]
fn with_typ_fills_the_slot_and_keeps_the_expression() {
    let e = var("x").with_typ(Typ::Int);
    assert_eq!(e.typ, Typ::Int);
    assert_eq!(e.expr, RawExpr::Var { id: "x".to_string() });
}

#[test]
fn atomic_types_are_the_three_ground_types() {
    assert!(Typ::Int.is_atomic());
    assert!(Typ::Bool.is_atomic());
    assert!(Typ::Unit.is_atomic());
    assert!(!Typ::Unknown.is_atomic());
    assert!(!Typ::TVar("A".to_string()).is_atomic());
    assert!(!Typ::Prod(vec![Typ::Int, Typ::Int]).is_atomic());
    assert!(!Typ::Arrow(Box::new(Typ::Int), Box::new(Typ::Int)).is_atomic());
    assert!(!Typ::Forall(vec!["A".to_string()], Box::new(Typ::Int)).is_atomic());
}

#[test]
fn atomic_expressions_are_constants_names_and_tuples() {
    assert!(RawExpr::Con { val: Constant::Unit }.is_atomic());
    assert!(RawExpr::Var { id: "x".to_string() }.is_atomic());
    assert!(RawExpr::Tuple { entries: vec![var("a"), var("b")] }.is_atomic());
    assert!(!RawExpr::EApp { exp: Box::new(var("f")), arg: Box::new(var("x")) }.is_atomic());
    assert!(!RawExpr::TApp { exp: Box::new(var("f")), arg: Typ::Int }.is_atomic());
    assert!(!RawExpr::Let {
        annot: Annot { eid: "x".to_string(), typ: Typ::Int },
        exp: Box::new(var("a")),
        body: Box::new(var("x"))
    }
    .is_atomic());
    assert!(!RawExpr::Match { exp: Box::new(var("x")), clauses: vec![] }.is_atomic());
    assert!(!RawExpr::Binop { lhs: Box::new(var("a")), op: Binary::Add, rhs: Box::new(var("b")) }
        .is_atomic());
    assert!(!RawExpr::Lambda { args: vec![], body: Box::new(var("x")) }.is_atomic());
    assert!(!RawExpr::Any { args: vec![], body: Box::new(var("x")) }.is_atomic());
    assert!(!RawExpr::If {
        cond: Box::new(var("c")),
        t: Box::new(var("a")),
        f: Box::new(var("b"))
    }
    .is_atomic());
}

#[test]
fn every_operator_is_read_from_its_spelling() {
    assert_eq!(Binary::of_str("+"), Some(Binary::Add));
    assert_eq!(Binary::of_str("-"), Some(Binary::Sub));
    assert_eq!(Binary::of_str("*"), Some(Binary::Mul));
    assert_eq!(Binary::of_str("<"), Some(Binary::Lt));
    assert_eq!(Binary::of_str(">"), Some(Binary::Gt));
    assert_eq!(Binary::of_str("=="), Some(Binary::Eq));
    assert_eq!(Binary::of_str("!="), Some(Binary::Ne));
    assert_eq!(Binary::of_str("&&"), Some(Binary::And));
    assert_eq!(Binary::of_str("||"), Some(Binary::Or));
}

#[test]
fn other_text_is_no_operator() {
    assert_eq!(Binary::of_str("/"), None);
    assert_eq!(Binary::of_str(""), None);
    assert_eq!(Binary::of_str("="), None);
    assert_eq!(Binary::of_str("++"), None);
    assert_eq!(Binary::of_str(" +"), None);
    assert_eq!(Binary::of_str("<="), None);
    assert_eq!(Binary::of_str("&"), None);
    assert_eq!(Binary::of_str("and"), None);
}

#[test]
fn an_operator_spelled_and_read_is_itself() {
    let all = [
        Binary::Add,
        Binary::Sub,
        Binary::Mul,
        Binary::Eq,
        Binary::Lt,
        Binary::Gt,
        Binary::Ne,
        Binary::And,
        Binary::Or,
    ];
    for op in all {
        assert_eq!(Binary::of_str(op.as_str()), Some(op));
    }
    assert_eq!(Binary::Ne.as_str(), "!=");
    assert_eq!(Binary::Or.as_str(), "||");
}

#[test]
fn a_cloned_type_equals_its_source() {
    let t = Typ::Forall(
        vec!["A".to_string(), "B".to_string()],
        Box::new(Typ::Arrow(
            Box::new(Typ::Prod(vec![Typ::TVar("A".to_string()), Typ::Int, Typ::Unknown])),
            Box::new(Typ::Prod(vec![Typ::TVar("B".to_string()), Typ::Bool, Typ::Unit])),
        )),
    );
    assert_eq!(t.clone(), t);
    assert_eq!(Typ::Prod(vec![]).clone(), Typ::Prod(vec![]));
    assert_ne!(t.clone(), Typ::Int);
}

#[test]
fn a_program_keeps_its_declarations_in_order() {
    let prog: Prog = vec![
        Decl { id: "one".to_string(), sig: Typ::Int, body: var("x") },
        Decl { id: "two".to_string(), sig: Typ::Bool, body: var("y") },
    ];
    assert_eq!(prog[0].id, "one");
    assert_eq!(prog[1].sig, Typ::Bool);
    assert_eq!(prog[1].body, var("y"));
}

#[test]
fn patterns_compare_by_structure() {
    let p = Pattern::Tuple(vec![Pattern::Var("a".to_string()), Pattern::Var("b".to_string())]);
    let q = Pattern::Tuple(vec![Pattern::Var("a".to_string()), Pattern::Var("b".to_string())]);
    assert_eq!(p, q);
    assert_ne!(p, Pattern::Var("a".to_string()));
}
