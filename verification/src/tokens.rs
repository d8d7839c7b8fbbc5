//! The tokens that each node of the syntax tree is written with, and the
//! condition under which its printed text can be read back: that its names
//! are names.

use vstd::prelude::*;
use crate::ast::{Annot, Binary, Constant, Expr, Id, Pattern, RawExpr, Typ};
use crate::grammar::{TokenView, word_token};
use crate::print::join;
use crate::reading::is_word_text;

verus! {

/// A name that a term can carry: a word in lower case that is no keyword.
pub open spec fn is_term_name(name: Seq<char>) -> bool {
    is_word_text(name) && word_token(name) == TokenView::ExpId(name)
}

/// A name that a type parameter can carry: a word in upper case that names
/// no built-in type.
pub open spec fn is_type_name(name: Seq<char>) -> bool {
    is_word_text(name) && word_token(name) == TokenView::TypId(name)
}

/// Every name of the list can be carried by a type parameter.
pub open spec fn are_type_names(names: Seq<Id>) -> bool {
    forall|i: int| 0 <= i < names.len() ==> is_type_name(#[trigger] names[i]@)
}

/// The token of each type parameter of a list.
pub open spec fn name_tokens(names: Seq<Id>) -> Seq<Seq<TokenView>> {
    Seq::new(names.len(), |i: int| seq![TokenView::TypId(names[i]@)])
}

impl Typ {
    /// Every type parameter in the type carries a type name.
    pub open spec fn well_named(self) -> bool
        decreases self,
    {
        match self {
            Typ::TVar(v) => is_type_name(v@),
            Typ::Prod(ts) => forall|i: int| 0 <= i < ts@.len() ==> (#[trigger] ts@[i]).well_named(),
            Typ::Arrow(x, y) => x.well_named() && y.well_named(),
            Typ::Forall(vs, t) => are_type_names(vs@) && t.well_named(),
            _ => true,
        }
    }

    /// The tokens of the type's text.
    pub open spec fn tokens(self) -> Seq<TokenView>
        decreases self, 0nat,
    {
        match self {
            Typ::Unknown => seq![TokenView::TypId("Unknown"@)],
            Typ::Int => seq![TokenView::TInt],
            Typ::Bool => seq![TokenView::TBool],
            Typ::Unit => seq![TokenView::TUnit],
            Typ::TVar(v) => seq![TokenView::TypId(v@)],
            Typ::Prod(ts) => join(Typ::enclosed_token_lists(ts@), seq![TokenView::Mul]),
            Typ::Arrow(x, y) => x.enclosed_tokens() + seq![TokenView::Arrow]
                + y.enclosed_tokens(),
            Typ::Forall(vs, t) => seq![TokenView::Forall] + join(
                name_tokens(vs@),
                seq![TokenView::Comma],
            ) + seq![TokenView::Dot] + t.tokens(),
        }
    }

    /// The tokens of the type's enclosed text.
    pub open spec fn enclosed_tokens(self) -> Seq<TokenView>
        decreases self, 1nat,
    {
        if self.atomic() {
            self.tokens()
        } else {
            seq![TokenView::LParen] + self.tokens() + seq![TokenView::RParen]
        }
    }

    /// The enclosed tokens of each type of a list.
    pub open spec fn enclosed_token_lists(ts: Seq<Typ>) -> Seq<Seq<TokenView>>
        decreases ts, 2nat,
    {
        Seq::new(
            ts.len(),
            |i: int|
                if 0 <= i < ts.len() {
                    ts[i].enclosed_tokens()
                } else {
                    Seq::empty()
                },
        )
    }
}

impl Constant {
    /// The token of the constant's text.
    pub open spec fn tokens(self) -> Seq<TokenView> {
        match self {
            Constant::Unit => seq![TokenView::UnitLit],
            Constant::Boolean(b) => seq![TokenView::BoolLit(b)],
            Constant::Integer(i) => seq![TokenView::IntLit(i)],
        }
    }
}

impl Binary {
    /// The token of the operator: its spelling, under the kind of its
    /// precedence.
    pub open spec fn token(self) -> TokenView {
        match self {
            Binary::Mul => TokenView::Mul,
            Binary::Add | Binary::Sub => TokenView::Infix6(self.symbol()),
            Binary::Eq | Binary::Lt | Binary::Gt | Binary::Ne => TokenView::Infix4(self.symbol()),
            Binary::And | Binary::Or => TokenView::Infix3(self.symbol()),
        }
    }
}

impl Annot {
    /// The annotated name is a term name, and the type is well named.
    pub open spec fn well_named(self) -> bool {
        is_term_name(self.eid@) && self.typ.well_named()
    }

    /// The tokens of the annotation's text.
    pub open spec fn tokens(self) -> Seq<TokenView> {
        seq![TokenView::ExpId(self.eid@)] + seq![TokenView::Colon] + self.typ.tokens()
    }

    /// The tokens of each annotation of a list.
    pub open spec fn token_lists(annots: Seq<Annot>) -> Seq<Seq<TokenView>> {
        Seq::new(annots.len(), |i: int| annots[i].tokens())
    }
}

impl Pattern {
    /// Every name that the pattern binds is a term name.
    pub open spec fn well_named(self) -> bool
        decreases self,
    {
        match self {
            Pattern::Var(name) => is_term_name(name@),
            Pattern::Tuple(ps) => forall|i: int|
                0 <= i < ps@.len() ==> (#[trigger] ps@[i]).well_named(),
        }
    }

    /// The tokens of the pattern's text.
    pub open spec fn tokens(self) -> Seq<TokenView>
        decreases self, 0nat,
    {
        match self {
            Pattern::Var(name) => seq![TokenView::ExpId(name@)],
            Pattern::Tuple(ps) => seq![TokenView::LParen] + join(
                Pattern::token_lists(ps@),
                seq![TokenView::Comma],
            ) + seq![TokenView::RParen],
        }
    }

    /// The tokens of each pattern of a list.
    pub open spec fn token_lists(ps: Seq<Pattern>) -> Seq<Seq<TokenView>>
        decreases ps, 1nat,
    {
        Seq::new(
            ps.len(),
            |i: int|
                if 0 <= i < ps.len() {
                    ps[i].tokens()
                } else {
                    Seq::empty()
                },
        )
    }
}

impl Expr {
    /// Every name in the expression is a name of its kind, in the type slot
    /// too.
    pub open spec fn well_named(self) -> bool
        decreases self, 1nat,
    {
        self.expr.well_named() && self.typ.well_named()
    }

    /// The tokens of the expression's text. The type slot is printed as a
    /// comment and has none.
    pub open spec fn tokens(self) -> Seq<TokenView>
        decreases self, 1nat,
    {
        self.expr.tokens()
    }

    /// The tokens of the expression's enclosed text.
    pub open spec fn enclosed_tokens(self) -> Seq<TokenView>
        decreases self, 2nat,
    {
        if self.expr.atomic() {
            self.tokens()
        } else {
            seq![TokenView::LParen] + self.tokens() + seq![TokenView::RParen]
        }
    }

    /// The enclosed tokens of each expression of a list.
    pub open spec fn enclosed_token_lists(es: Seq<Expr>) -> Seq<Seq<TokenView>>
        decreases es, 3nat,
    {
        Seq::new(
            es.len(),
            |i: int|
                if 0 <= i < es.len() {
                    es[i].enclosed_tokens()
                } else {
                    Seq::empty()
                },
        )
    }

    /// The tokens of one match clause.
    pub open spec fn clause_tokens(clause: (Pattern, Expr)) -> Seq<TokenView>
        decreases clause, 3nat,
    {
        seq![TokenView::Bar] + clause.0.tokens() + seq![TokenView::DoubleArrow]
            + clause.1.enclosed_tokens()
    }

    /// The tokens of each clause of a list.
    pub open spec fn clause_token_lists(cs: Seq<(Pattern, Expr)>) -> Seq<Seq<TokenView>>
        decreases cs, 4nat,
    {
        Seq::new(
            cs.len(),
            |i: int|
                if 0 <= i < cs.len() {
                    Expr::clause_tokens(cs[i])
                } else {
                    Seq::empty()
                },
        )
    }
}

impl RawExpr {
    /// Every name in the expression is a name of its kind.
    pub open spec fn well_named(self) -> bool
        decreases self, 0nat,
    {
        match self {
            RawExpr::Con { val } => true,
            RawExpr::Var { id } => is_term_name(id@),
            RawExpr::Let { annot, exp, body } => annot.well_named() && exp.well_named()
                && body.well_named(),
            RawExpr::EApp { exp, arg } => exp.well_named() && arg.well_named(),
            RawExpr::TApp { exp, arg } => exp.well_named() && arg.well_named(),
            RawExpr::Tuple { entries } => forall|i: int|
                0 <= i < entries@.len() ==> (#[trigger] entries@[i]).well_named(),
            RawExpr::Match { exp, clauses } => exp.well_named() && forall|i: int|
                0 <= i < clauses@.len() ==> (#[trigger] clauses@[i]).0.well_named()
                    && clauses@[i].1.well_named(),
            RawExpr::Binop { lhs, op, rhs } => lhs.well_named() && rhs.well_named(),
            RawExpr::Lambda { args, body } => body.well_named() && forall|i: int|
                0 <= i < args@.len() ==> (#[trigger] args@[i]).well_named(),
            RawExpr::Any { args, body } => are_type_names(args@) && body.well_named(),
            RawExpr::If { cond, t, f } => cond.well_named() && t.well_named() && f.well_named(),
        }
    }

    /// The tokens of the expression's text.
    pub open spec fn tokens(self) -> Seq<TokenView>
        decreases self, 0nat,
    {
        match self {
            RawExpr::Con { val } => val.tokens(),
            RawExpr::Var { id } => seq![TokenView::ExpId(id@)],
            RawExpr::Let { annot, exp, body } => seq![TokenView::Let] + annot.tokens()
                + seq![TokenView::Equal] + exp.enclosed_tokens() + seq![TokenView::In]
                + body.enclosed_tokens() + seq![TokenView::End],
            RawExpr::EApp { exp, arg } => exp.enclosed_tokens() + arg.enclosed_tokens(),
            RawExpr::TApp { exp, arg } => exp.enclosed_tokens() + seq![TokenView::LBrack]
                + arg.tokens() + seq![TokenView::RBrack],
            RawExpr::Tuple { entries } => seq![TokenView::LParen] + join(
                Expr::enclosed_token_lists(entries@),
                seq![TokenView::Comma],
            ) + seq![TokenView::RParen],
            RawExpr::Match { exp, clauses } => seq![TokenView::Match] + exp.enclosed_tokens()
                + seq![TokenView::With] + join(
                Expr::clause_token_lists(clauses@),
                Seq::<TokenView>::empty(),
            ) + seq![TokenView::End],
            RawExpr::Binop { lhs, op, rhs } => lhs.enclosed_tokens() + seq![op.token()]
                + rhs.enclosed_tokens(),
            RawExpr::Lambda { args, body } => seq![TokenView::Lambda] + join(
                Annot::token_lists(args@),
                seq![TokenView::Comma],
            ) + seq![TokenView::Dot] + body.enclosed_tokens(),
            RawExpr::Any { args, body } => seq![TokenView::Any] + join(
                name_tokens(args@),
                seq![TokenView::Comma],
            ) + seq![TokenView::Dot] + body.enclosed_tokens(),
            RawExpr::If { cond, t, f } => seq![TokenView::If] + cond.enclosed_tokens()
                + seq![TokenView::Then] + t.enclosed_tokens() + seq![TokenView::Else]
                + f.enclosed_tokens(),
        }
    }
}

} // verus!
