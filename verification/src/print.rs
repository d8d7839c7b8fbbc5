//! The printer: what each node looks like as text, and the functions that
//! produce that text.

use vstd::prelude::*;
use vstd::string::*;
use crate::ast::{Annot, Constant, Expr, Id, Pattern, RawExpr, Typ};
use crate::decimal::{numeral, render_numeral};

verus! {

/// The parts, with `sep` between each two neighbours.
pub open spec fn join<T>(parts: Seq<Seq<T>>, sep: Seq<T>) -> Seq<T>
    decreases parts.len(),
{
    if parts.len() == 0 {
        Seq::empty()
    } else if parts.len() == 1 {
        parts[0]
    } else {
        join(parts.drop_last(), sep) + sep + parts.last()
    }
}

/// What one more part adds to a joined text.
pub proof fn lemma_join_step<T>(parts: Seq<Seq<T>>, sep: Seq<T>, i: int)
    requires
        0 <= i < parts.len(),
    ensures
        join(parts.take(i + 1), sep) == if i == 0 {
            parts[0]
        } else {
            join(parts.take(i), sep) + sep + parts[i]
        },
        join(parts.take(0), sep) == Seq::<T>::empty(),
        parts.take(parts.len() as int) == parts,
{
    assert(parts.take(i + 1).drop_last() =~= parts.take(i));
    assert(parts.take(parts.len() as int) =~= parts);
}

/// The views of a list of names.
pub open spec fn name_texts(names: Seq<Id>) -> Seq<Seq<char>> {
    Seq::new(names.len(), |i: int| names[i]@)
}

impl Typ {
    /// The type as source text.
    pub open spec fn text(self) -> Seq<char>
        decreases self, 0nat,
    {
        match self {
            Typ::Unknown => "Unknown"@,
            Typ::Int => "Int"@,
            Typ::Bool => "Bool"@,
            Typ::Unit => "Unit"@,
            Typ::TVar(v) => v@,
            Typ::Prod(ts) => join(Typ::enclosed_texts(ts@), " * "@),
            Typ::Arrow(x, y) => x.enclosed_text() + " -> "@ + y.enclosed_text(),
            Typ::Forall(vs, t) => "forall "@ + join(name_texts(vs@), ", "@) + ". "@ + t.text(),
        }
    }

    /// The type as it stands inside another: in parentheses unless atomic.
    pub open spec fn enclosed_text(self) -> Seq<char>
        decreases self, 1nat,
    {
        if self.atomic() {
            self.text()
        } else {
            "("@ + self.text() + ")"@
        }
    }

    /// The enclosed text of each type of a list.
    pub open spec fn enclosed_texts(ts: Seq<Typ>) -> Seq<Seq<char>>
        decreases ts, 2nat,
    {
        Seq::new(
            ts.len(),
            |i: int|
                if 0 <= i < ts.len() {
                    ts[i].enclosed_text()
                } else {
                    Seq::empty()
                },
        )
    }

    /// Appends the type's text to `out`.
    pub fn render(&self, out: &mut String)
        ensures
            final(out)@ == old(out)@ + self.text(),
        decreases self, 0nat,
    {
        match self {
            Typ::Unknown => out.append("Unknown"),
            Typ::Int => out.append("Int"),
            Typ::Bool => out.append("Bool"),
            Typ::Unit => out.append("Unit"),
            Typ::TVar(v) => out.append(v.as_str()),
            Typ::Prod(ts) => Typ::render_product(ts, out),
            Typ::Arrow(x, y) => {
                x.render_enclosed(out);
                out.append(" -> ");
                y.render_enclosed(out);
            },
            Typ::Forall(vs, t) => {
                out.append("forall ");
                render_names(vs, out);
                out.append(". ");
                t.render(out);
            },
        }
    }

    /// Appends the type's text to `out`, in parentheses unless it is atomic.
    pub fn render_enclosed(&self, out: &mut String)
        ensures
            final(out)@ == old(out)@ + self.enclosed_text(),
        decreases self, 1nat,
    {
        if self.is_atomic() {
            self.render(out);
        } else {
            out.append("(");
            self.render(out);
            out.append(")");
        }
    }

    fn render_product(ts: &Vec<Typ>, out: &mut String)
        ensures
            final(out)@ == old(out)@ + join(Typ::enclosed_texts(ts@), " * "@),
        decreases ts, 2nat,
    {
        let ghost parts = Typ::enclosed_texts(ts@);
        let mut i: usize = 0;
        while i < ts.len()
            invariant
                i <= ts.len(),
                parts == Typ::enclosed_texts(ts@),
                out@ == old(out)@ + join(parts.take(i as int), " * "@),
            decreases ts.len() - i,
        {
            proof {
                lemma_join_step(parts, " * "@, i as int);
            }
            if i != 0 {
                out.append(" * ");
            }
            ts[i].render_enclosed(out);
            i += 1;
        }
        proof {
            if ts.len() > 0 {
                lemma_join_step(parts, " * "@, 0);
            }
            assert(parts.take(ts.len() as int) =~= parts);
        }
    }

    /// The type as source text.
    pub fn to_string(&self) -> (s: String)
        ensures
            s@ == self.text(),
    {
        let mut s = String::new();
        self.render(&mut s);
        s
    }
}

/// Appends the names to `out`, separated by commas.
pub fn render_names(names: &Vec<Id>, out: &mut String)
    ensures
        final(out)@ == old(out)@ + join(name_texts(names@), ", "@),
{
    let ghost parts = name_texts(names@);
    let mut i: usize = 0;
    while i < names.len()
        invariant
            i <= names.len(),
            parts == name_texts(names@),
            out@ == old(out)@ + join(parts.take(i as int), ", "@),
        decreases names.len() - i,
    {
        proof {
            lemma_join_step(parts, ", "@, i as int);
        }
        if i != 0 {
            out.append(", ");
        }
        out.append(names[i].as_str());
        i += 1;
    }
    proof {
        if names.len() > 0 {
            lemma_join_step(parts, ", "@, 0);
        }
        assert(parts.take(names.len() as int) =~= parts);
    }
}

impl Constant {
    /// The constant as source text. A negative integer is written with a
    /// tilde before its magnitude.
    pub open spec fn text(self) -> Seq<char> {
        match self {
            Constant::Unit => "null"@,
            Constant::Boolean(b) => if b {
                "true"@
            } else {
                "false"@
            },
            Constant::Integer(i) => if i < 0 {
                "~"@ + numeral((-i) as nat)
            } else {
                numeral(i as nat)
            },
        }
    }

    /// Appends the constant's text to `out`.
    pub fn render(&self, out: &mut String)
        ensures
            final(out)@ == old(out)@ + self.text(),
    {
        match self {
            Constant::Unit => out.append("null"),
            Constant::Boolean(b) => {
                if *b {
                    out.append("true");
                } else {
                    out.append("false");
                }
            },
            Constant::Integer(i) => {
                if *i < 0 {
                    let magnitude: u64 = if *i == i64::MIN {
                        9223372036854775808u64
                    } else {
                        (-*i) as u64
                    };
                    out.append("~");
                    render_numeral(magnitude, out);
                    assert(out@ =~= old(out)@ + ("~"@ + numeral((-*i) as nat)));
                } else {
                    render_numeral(*i as u64, out);
                }
            },
        }
    }

    /// The constant as source text.
    pub fn to_string(&self) -> (s: String)
        ensures
            s@ == self.text(),
    {
        let mut s = String::new();
        self.render(&mut s);
        s
    }
}

impl Annot {
    /// The annotation as source text: the name, a colon, the type.
    pub open spec fn text(self) -> Seq<char> {
        self.eid@ + " : "@ + self.typ.text()
    }

    /// The text of each annotation of a list.
    pub open spec fn texts(annots: Seq<Annot>) -> Seq<Seq<char>> {
        Seq::new(annots.len(), |i: int| annots[i].text())
    }

    /// Appends the annotation's text to `out`.
    pub fn render(&self, out: &mut String)
        ensures
            final(out)@ == old(out)@ + self.text(),
    {
        out.append(self.eid.as_str());
        out.append(" : ");
        self.typ.render(out);
        assert(out@ =~= old(out)@ + self.text());
    }

    /// The annotation as source text.
    pub fn to_string(&self) -> (s: String)
        ensures
            s@ == self.text(),
    {
        let mut s = String::new();
        self.render(&mut s);
        s
    }
}

/// Appends the annotations to `out`, separated by commas.
pub fn render_annots(annots: &Vec<Annot>, out: &mut String)
    ensures
        final(out)@ == old(out)@ + join(Annot::texts(annots@), ", "@),
{
    let ghost parts = Annot::texts(annots@);
    let mut i: usize = 0;
    while i < annots.len()
        invariant
            i <= annots.len(),
            parts == Annot::texts(annots@),
            out@ == old(out)@ + join(parts.take(i as int), ", "@),
        decreases annots.len() - i,
    {
        proof {
            lemma_join_step(parts, ", "@, i as int);
        }
        if i != 0 {
            out.append(", ");
        }
        annots[i].render(out);
        i += 1;
    }
    proof {
        if annots.len() > 0 {
            lemma_join_step(parts, ", "@, 0);
        }
        assert(parts.take(annots.len() as int) =~= parts);
    }
}

impl Pattern {
    /// The pattern as source text.
    pub open spec fn text(self) -> Seq<char>
        decreases self, 0nat,
    {
        match self {
            Pattern::Var(name) => name@,
            Pattern::Tuple(ps) => "("@ + join(Pattern::texts(ps@), ", "@) + ")"@,
        }
    }

    /// The text of each pattern of a list.
    pub open spec fn texts(ps: Seq<Pattern>) -> Seq<Seq<char>>
        decreases ps, 1nat,
    {
        Seq::new(
            ps.len(),
            |i: int|
                if 0 <= i < ps.len() {
                    ps[i].text()
                } else {
                    Seq::empty()
                },
        )
    }

    /// Appends the pattern's text to `out`.
    pub fn render(&self, out: &mut String)
        ensures
            final(out)@ == old(out)@ + self.text(),
        decreases self, 0nat,
    {
        match self {
            Pattern::Var(name) => out.append(name.as_str()),
            Pattern::Tuple(ps) => {
                out.append("(");
                Pattern::render_all(ps, out);
                out.append(")");
                assert(out@ =~= old(out)@ + self.text());
            },
        }
    }

    fn render_all(ps: &Vec<Pattern>, out: &mut String)
        ensures
            final(out)@ == old(out)@ + join(Pattern::texts(ps@), ", "@),
        decreases ps, 1nat,
    {
        let ghost parts = Pattern::texts(ps@);
        let mut i: usize = 0;
        while i < ps.len()
            invariant
                i <= ps.len(),
                parts == Pattern::texts(ps@),
                out@ == old(out)@ + join(parts.take(i as int), ", "@),
            decreases ps.len() - i,
        {
            proof {
                lemma_join_step(parts, ", "@, i as int);
            }
            if i != 0 {
                out.append(", ");
            }
            ps[i].render(out);
            i += 1;
        }
        proof {
            if ps.len() > 0 {
                lemma_join_step(parts, ", "@, 0);
            }
            assert(parts.take(ps.len() as int) =~= parts);
        }
    }
}

impl Expr {
    /// The expression as source text, followed by its type in a comment.
    pub open spec fn text(self) -> Seq<char>
        decreases self, 1nat,
    {
        self.expr.text() + " /*"@ + self.typ.text() + "*/"@
    }

    /// The expression as it stands inside another: in parentheses unless
    /// atomic.
    pub open spec fn enclosed_text(self) -> Seq<char>
        decreases self, 2nat,
    {
        if self.expr.atomic() {
            self.text()
        } else {
            "("@ + self.text() + ")"@
        }
    }

    /// The enclosed text of each expression of a list.
    pub open spec fn enclosed_texts(es: Seq<Expr>) -> Seq<Seq<char>>
        decreases es, 3nat,
    {
        Seq::new(
            es.len(),
            |i: int|
                if 0 <= i < es.len() {
                    es[i].enclosed_text()
                } else {
                    Seq::empty()
                },
        )
    }

    /// The text of one match clause: a bar, the pattern, a double arrow, the
    /// result.
    pub open spec fn clause_text(clause: (Pattern, Expr)) -> Seq<char>
        decreases clause, 3nat,
    {
        " | "@ + clause.0.text() + " => "@ + clause.1.enclosed_text()
    }

    /// The text of each clause of a list.
    pub open spec fn clause_texts(cs: Seq<(Pattern, Expr)>) -> Seq<Seq<char>>
        decreases cs, 4nat,
    {
        Seq::new(
            cs.len(),
            |i: int|
                if 0 <= i < cs.len() {
                    Expr::clause_text(cs[i])
                } else {
                    Seq::empty()
                },
        )
    }

    /// Appends the expression's text to `out`.
    pub fn render(&self, out: &mut String)
        ensures
            final(out)@ == old(out)@ + self.text(),
        decreases self, 1nat,
    {
        self.expr.render(out);
        out.append(" /*");
        self.typ.render(out);
        out.append("*/");
        assert(out@ =~= old(out)@ + self.text());
    }

    /// Appends the expression's text to `out`, in parentheses unless it is
    /// atomic.
    pub fn render_enclosed(&self, out: &mut String)
        ensures
            final(out)@ == old(out)@ + self.enclosed_text(),
        decreases self, 2nat,
    {
        if self.expr.is_atomic() {
            self.render(out);
        } else {
            out.append("(");
            self.render(out);
            out.append(")");
            assert(out@ =~= old(out)@ + self.enclosed_text());
        }
    }

    fn render_entries(es: &Vec<Expr>, out: &mut String)
        ensures
            final(out)@ == old(out)@ + join(Expr::enclosed_texts(es@), ", "@),
        decreases es, 3nat,
    {
        let ghost parts = Expr::enclosed_texts(es@);
        let mut i: usize = 0;
        while i < es.len()
            invariant
                i <= es.len(),
                parts == Expr::enclosed_texts(es@),
                out@ == old(out)@ + join(parts.take(i as int), ", "@),
            decreases es.len() - i,
        {
            proof {
                lemma_join_step(parts, ", "@, i as int);
            }
            if i != 0 {
                out.append(", ");
            }
            es[i].render_enclosed(out);
            i += 1;
        }
        proof {
            if es.len() > 0 {
                lemma_join_step(parts, ", "@, 0);
            }
            assert(parts.take(es.len() as int) =~= parts);
        }
    }

    fn render_clauses(cs: &Vec<(Pattern, Expr)>, out: &mut String)
        ensures
            final(out)@ == old(out)@ + join(Expr::clause_texts(cs@), Seq::<char>::empty()),
        decreases cs, 4nat,
    {
        let ghost parts = Expr::clause_texts(cs@);
        let mut i: usize = 0;
        while i < cs.len()
            invariant
                i <= cs.len(),
                parts == Expr::clause_texts(cs@),
                out@ == old(out)@ + join(parts.take(i as int), Seq::<char>::empty()),
            decreases cs.len() - i,
        {
            proof {
                lemma_join_step(parts, Seq::<char>::empty(), i as int);
            }
            let ghost before = out@;
            out.append(" | ");
            cs[i].0.render(out);
            out.append(" => ");
            cs[i].1.render_enclosed(out);
            assert(out@ =~= before + Expr::clause_text(cs@[i as int]));
            assert(before + Seq::<char>::empty() =~= before);
            i += 1;
        }
        proof {
            if cs.len() > 0 {
                lemma_join_step(parts, Seq::<char>::empty(), 0);
            }
            assert(parts.take(cs.len() as int) =~= parts);
        }
    }

    /// The expression as source text.
    pub fn to_string(&self) -> (s: String)
        ensures
            s@ == self.text(),
    {
        let mut s = String::new();
        self.render(&mut s);
        s
    }
}

impl RawExpr {
    /// The expression as source text. Each direct sub-expression stands in
    /// parentheses unless it is atomic.
    pub open spec fn text(self) -> Seq<char>
        decreases self, 0nat,
    {
        match self {
            RawExpr::Con { val } => val.text(),
            RawExpr::Var { id } => id@,
            RawExpr::Let { annot, exp, body } => "let "@ + annot.text() + " = "@
                + exp.enclosed_text() + " in "@ + body.enclosed_text() + " end"@,
            RawExpr::EApp { exp, arg } => exp.enclosed_text() + " "@ + arg.enclosed_text(),
            RawExpr::TApp { exp, arg } => exp.enclosed_text() + "["@ + arg.text() + "]"@,
            RawExpr::Tuple { entries } => "("@ + join(Expr::enclosed_texts(entries@), ", "@)
                + ")"@,
            RawExpr::Match { exp, clauses } => "match "@ + exp.enclosed_text() + " with"@ + join(
                Expr::clause_texts(clauses@),
                Seq::empty(),
            ) + " end"@,
            RawExpr::Binop { lhs, op, rhs } => lhs.enclosed_text() + " "@ + op.symbol() + " "@
                + rhs.enclosed_text(),
            RawExpr::Lambda { args, body } => "lambda "@ + join(Annot::texts(args@), ", "@)
                + ". "@ + body.enclosed_text(),
            RawExpr::Any { args, body } => "any "@ + join(name_texts(args@), ", "@) + ". "@
                + body.enclosed_text(),
            RawExpr::If { cond, t, f } => "if "@ + cond.enclosed_text() + " then "@
                + t.enclosed_text() + " else "@ + f.enclosed_text(),
        }
    }

    /// Appends the expression's text to `out`.
    pub fn render(&self, out: &mut String)
        ensures
            final(out)@ == old(out)@ + self.text(),
        decreases self, 1nat,
    {
        match self {
            RawExpr::Con { val } => val.render(out),
            RawExpr::Var { id } => out.append(id.as_str()),
            RawExpr::Let { .. } => self.render_let(out),
            RawExpr::EApp { .. } => self.render_eapp(out),
            RawExpr::TApp { .. } => self.render_tapp(out),
            RawExpr::Tuple { .. } => self.render_tuple(out),
            RawExpr::Match { .. } => self.render_match(out),
            RawExpr::Binop { .. } => self.render_binop(out),
            RawExpr::Lambda { .. } => self.render_lambda(out),
            RawExpr::Any { .. } => self.render_any(out),
            RawExpr::If { .. } => self.render_if(out),
        }
    }

    fn render_let(&self, out: &mut String)
        requires
            self is Let,
        ensures
            final(out)@ == old(out)@ + self.text(),
        decreases self, 0nat,
    {
        if let RawExpr::Let { annot, exp, body } = self {
            out.append("let ");
            annot.render(out);
            out.append(" = ");
            exp.render_enclosed(out);
            out.append(" in ");
            body.render_enclosed(out);
            out.append(" end");
            assert(out@ =~= old(out)@ + self.text());
        }
    }

    fn render_eapp(&self, out: &mut String)
        requires
            self is EApp,
        ensures
            final(out)@ == old(out)@ + self.text(),
        decreases self, 0nat,
    {
        if let RawExpr::EApp { exp, arg } = self {
            exp.render_enclosed(out);
            out.append(" ");
            arg.render_enclosed(out);
            assert(out@ =~= old(out)@ + self.text());
        }
    }

    fn render_tapp(&self, out: &mut String)
        requires
            self is TApp,
        ensures
            final(out)@ == old(out)@ + self.text(),
        decreases self, 0nat,
    {
        if let RawExpr::TApp { exp, arg } = self {
            exp.render_enclosed(out);
            out.append("[");
            arg.render(out);
            out.append("]");
            assert(out@ =~= old(out)@ + self.text());
        }
    }

    fn render_tuple(&self, out: &mut String)
        requires
            self is Tuple,
        ensures
            final(out)@ == old(out)@ + self.text(),
        decreases self, 0nat,
    {
        if let RawExpr::Tuple { entries } = self {
            out.append("(");
            Expr::render_entries(entries, out);
            out.append(")");
            assert(out@ =~= old(out)@ + self.text());
        }
    }

    fn render_match(&self, out: &mut String)
        requires
            self is Match,
        ensures
            final(out)@ == old(out)@ + self.text(),
        decreases self, 0nat,
    {
        if let RawExpr::Match { exp, clauses } = self {
            out.append("match ");
            exp.render_enclosed(out);
            out.append(" with");
            Expr::render_clauses(clauses, out);
            out.append(" end");
            assert(out@ =~= old(out)@ + self.text());
        }
    }

    fn render_binop(&self, out: &mut String)
        requires
            self is Binop,
        ensures
            final(out)@ == old(out)@ + self.text(),
        decreases self, 0nat,
    {
        if let RawExpr::Binop { lhs, op, rhs } = self {
            lhs.render_enclosed(out);
            out.append(" ");
            out.append(op.as_str());
            out.append(" ");
            rhs.render_enclosed(out);
            assert(out@ =~= old(out)@ + self.text());
        }
    }

    fn render_lambda(&self, out: &mut String)
        requires
            self is Lambda,
        ensures
            final(out)@ == old(out)@ + self.text(),
        decreases self, 0nat,
    {
        if let RawExpr::Lambda { args, body } = self {
            out.append("lambda ");
            render_annots(args, out);
            out.append(". ");
            body.render_enclosed(out);
            assert(out@ =~= old(out)@ + self.text());
        }
    }

    fn render_any(&self, out: &mut String)
        requires
            self is Any,
        ensures
            final(out)@ == old(out)@ + self.text(),
        decreases self, 0nat,
    {
        if let RawExpr::Any { args, body } = self {
            out.append("any ");
            render_names(args, out);
            out.append(". ");
            body.render_enclosed(out);
            assert(out@ =~= old(out)@ + self.text());
        }
    }

    fn render_if(&self, out: &mut String)
        requires
            self is If,
        ensures
            final(out)@ == old(out)@ + self.text(),
        decreases self, 0nat,
    {
        if let RawExpr::If { cond, t, f } = self {
            out.append("if ");
            cond.render_enclosed(out);
            out.append(" then ");
            t.render_enclosed(out);
            out.append(" else ");
            f.render_enclosed(out);
            assert(out@ =~= old(out)@ + self.text());
        }
    }

    /// The expression as source text.
    pub fn to_string(&self) -> (s: String)
        ensures
            s@ == self.text(),
    {
        let mut s = String::new();
        self.render(&mut s);
        s
    }
}

} // verus!
