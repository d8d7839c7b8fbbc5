//! The syntax tree: types, patterns, expressions and declarations.

use vstd::prelude::*;
use crate::ascii::str_eq;

verus! {

/// Names of variables and of type parameters.
pub type Id = String;

/// Types of the language.
#[derive(Debug, PartialEq)]
pub enum Typ {
    /// Stands in an expression's type slot until checking fills it.
    Unknown,
    Int,
    Bool,
    Unit,
    /// A bound type parameter.
    TVar(Id),
    /// A tuple type.
    Prod(Vec<Typ>),
    /// A function type, from domain to codomain.
    Arrow(Box<Typ>, Box<Typ>),
    /// Universal quantification over the named parameters.
    Forall(Vec<Id>, Box<Typ>),
}

/// Literal constants.
#[derive(Debug, PartialEq, Clone)]
pub enum Constant {
    Unit,
    Integer(i64),
    Boolean(bool),
}

/// Binary operators. There is no division.
#[derive(Debug, PartialEq, Clone)]
pub enum Binary {
    Add,
    Sub,
    Mul,
    Eq,
    Lt,
    Gt,
    Ne,
    And,
    Or,
}

/// Patterns of a match clause.
#[derive(Debug, PartialEq)]
pub enum Pattern {
    /// Binds one name.
    Var(Id),
    /// Takes a tuple apart by position.
    Tuple(Vec<Pattern>),
}

/// A name with its declared type.
#[derive(Debug, PartialEq)]
pub struct Annot {
    pub eid: Id,
    pub typ: Typ,
}

/// Expressions without their type slot.
#[derive(Debug, PartialEq)]
#[allow(inconsistent_fields)]
pub enum RawExpr {
    /// A literal constant.
    Con { val: Constant },
    /// A reference to a name.
    Var { id: Id },
    /// One annotated binding, in scope in `body` only.
    Let { annot: Annot, exp: Box<Expr>, body: Box<Expr> },
    /// Application of a term to a term.
    EApp { exp: Box<Expr>, arg: Box<Expr> },
    /// Instantiation of a polymorphic term at a type.
    TApp { exp: Box<Expr>, arg: Typ },
    /// A tuple of two or more entries.
    Tuple { entries: Vec<Expr> },
    /// Pattern matching; the first clause that matches wins.
    Match { exp: Box<Expr>, clauses: Vec<(Pattern, Expr)> },
    /// A binary operation.
    Binop { lhs: Box<Expr>, op: Binary, rhs: Box<Expr> },
    /// A function of one or more annotated parameters.
    Lambda { args: Vec<Annot>, body: Box<Expr> },
    /// Abstraction over type parameters.
    Any { args: Vec<Id>, body: Box<Expr> },
    /// A conditional.
    If { cond: Box<Expr>, t: Box<Expr>, f: Box<Expr> },
}

/// An expression together with its type slot.
#[derive(Debug, PartialEq)]
pub struct Expr {
    pub expr: RawExpr,
    pub typ: Typ,
}

/// A top-level declaration: a name, its signature and its body.
#[derive(Debug, PartialEq)]
pub struct Decl {
    pub id: Id,
    pub sig: Typ,
    pub body: Expr,
}

/// A program is its declarations, in order.
pub type Prog = Vec<Decl>;

impl Expr {
    /// An expression whose type is not known yet.
    pub fn new(expr: RawExpr) -> (e: Expr)
        ensures
            e.expr == expr,
            e.typ == Typ::Unknown,
    {
        Expr { expr, typ: Typ::Unknown }
    }

    /// The expression proper, without the type slot.
    pub fn raw(&self) -> (r: &RawExpr)
        ensures
            *r == self.expr,
    {
        &self.expr
    }

    /// The same expression with `typ` in its type slot.
    pub fn with_typ(self, typ: Typ) -> (e: Expr)
        ensures
            e.expr == self.expr,
            e.typ == typ,
    {
        Expr { expr: self.expr, typ }
    }
}

impl RawExpr {
    /// Atomic expressions never need parentheses around them: constants,
    /// names, and tuples, which bring their own.
    pub open spec fn atomic(self) -> bool {
        self is Con || self is Var || self is Tuple
    }

    pub fn is_atomic(&self) -> (b: bool)
        ensures
            b == self.atomic(),
    {
        match self {
            RawExpr::Con { .. } => true,
            RawExpr::Var { .. } => true,
            RawExpr::Tuple { .. } => true,
            _ => false,
        }
    }
}

/// The two lists hold the same names in the same order.
pub open spec fn same_names(a: Seq<Id>, b: Seq<Id>) -> bool {
    a.len() == b.len() && forall|i: int| 0 <= i < a.len() ==> (#[trigger] a[i])@ == b[i]@
}

fn copy_names(names: &Vec<Id>) -> (copy: Vec<Id>)
    ensures
        same_names(names@, copy@),
{
    let mut copy: Vec<Id> = Vec::new();
    let mut i: usize = 0;
    while i < names.len()
        invariant
            i <= names.len(),
            copy@.len() == i,
            forall|k: int| 0 <= k < i ==> (#[trigger] names@[k])@ == copy@[k]@,
        decreases names.len() - i,
    {
        copy.push(names[i].clone());
        i += 1;
    }
    copy
}

impl Clone for Typ {
    /// A type built like this one from names that read the same.
    fn clone(&self) -> (copy: Typ)
        ensures
            self.alike(copy),
    {
        self.copy()
    }
}

impl Typ {
    /// The two types are built alike, from names that read the same.
    pub open spec fn alike(self, other: Typ) -> bool
        decreases self,
    {
        match self {
            Typ::Unknown => other is Unknown,
            Typ::Int => other is Int,
            Typ::Bool => other is Bool,
            Typ::Unit => other is Unit,
            Typ::TVar(a) => other matches Typ::TVar(b) && a@ == b@,
            Typ::Prod(xs) => other matches Typ::Prod(ys) && xs@.len() == ys@.len() && forall|
                i: int,
            |
                0 <= i < xs@.len() ==> (#[trigger] xs@[i]).alike(ys@[i]),
            Typ::Arrow(a, b) => other matches Typ::Arrow(c, d) && a.alike(*c) && b.alike(*d),
            Typ::Forall(vs, t) => other matches Typ::Forall(ws, u) && same_names(vs@, ws@)
                && t.alike(*u),
        }
    }

    fn copy(&self) -> (copy: Typ)
        ensures
            self.alike(copy),
        decreases self, 0nat,
    {
        match self {
            Typ::Unknown => Typ::Unknown,
            Typ::Int => Typ::Int,
            Typ::Bool => Typ::Bool,
            Typ::Unit => Typ::Unit,
            Typ::TVar(v) => Typ::TVar(v.clone()),
            Typ::Prod(ts) => Typ::Prod(Typ::copy_all(ts)),
            Typ::Arrow(x, y) => Typ::Arrow(Box::new(x.copy()), Box::new(y.copy())),
            Typ::Forall(vs, t) => Typ::Forall(copy_names(vs), Box::new(t.copy())),
        }
    }

    fn copy_all(ts: &Vec<Typ>) -> (copy: Vec<Typ>)
        ensures
            copy@.len() == ts@.len(),
            forall|i: int| 0 <= i < ts@.len() ==> (#[trigger] ts@[i]).alike(copy@[i]),
        decreases ts, 1nat,
    {
        let mut copy: Vec<Typ> = Vec::new();
        let mut i: usize = 0;
        while i < ts.len()
            invariant
                i <= ts.len(),
                copy@.len() == i,
                forall|k: int| 0 <= k < i ==> (#[trigger] ts@[k]).alike(copy@[k]),
            decreases ts.len() - i,
        {
            copy.push(ts[i].copy());
            i += 1;
        }
        copy
    }

    /// Atomic types never need parentheses around them.
    pub open spec fn atomic(self) -> bool {
        self is Int || self is Bool || self is Unit
    }

    pub fn is_atomic(&self) -> (b: bool)
        ensures
            b == self.atomic(),
    {
        match self {
            Typ::Int => true,
            Typ::Bool => true,
            Typ::Unit => true,
            _ => false,
        }
    }
}

impl Binary {
    /// How the operator is written.
    pub open spec fn symbol(self) -> Seq<char> {
        match self {
            Binary::Add => "+"@,
            Binary::Sub => "-"@,
            Binary::Mul => "*"@,
            Binary::Eq => "=="@,
            Binary::Lt => "<"@,
            Binary::Gt => ">"@,
            Binary::Ne => "!="@,
            Binary::And => "&&"@,
            Binary::Or => "||"@,
        }
    }

    /// The operator that `s` spells, if it spells one.
    pub open spec fn parse(s: Seq<char>) -> Option<Binary> {
        if s == "+"@ {
            Some(Binary::Add)
        } else if s == "-"@ {
            Some(Binary::Sub)
        } else if s == "*"@ {
            Some(Binary::Mul)
        } else if s == "<"@ {
            Some(Binary::Lt)
        } else if s == ">"@ {
            Some(Binary::Gt)
        } else if s == "=="@ {
            Some(Binary::Eq)
        } else if s == "!="@ {
            Some(Binary::Ne)
        } else if s == "&&"@ {
            Some(Binary::And)
        } else if s == "||"@ {
            Some(Binary::Or)
        } else {
            None
        }
    }

    /// The operator written as `s`; `None` for any other text.
    pub fn of_str(s: &str) -> (op: Option<Binary>)
        ensures
            op == Binary::parse(s@),
    {
        if str_eq(s, "+") {
            Some(Binary::Add)
        } else if str_eq(s, "-") {
            Some(Binary::Sub)
        } else if str_eq(s, "*") {
            Some(Binary::Mul)
        } else if str_eq(s, "<") {
            Some(Binary::Lt)
        } else if str_eq(s, ">") {
            Some(Binary::Gt)
        } else if str_eq(s, "==") {
            Some(Binary::Eq)
        } else if str_eq(s, "!=") {
            Some(Binary::Ne)
        } else if str_eq(s, "&&") {
            Some(Binary::And)
        } else if str_eq(s, "||") {
            Some(Binary::Or)
        } else {
            None
        }
    }

    /// The operator's spelling.
    pub fn as_str(&self) -> (s: &'static str)
        ensures
            s@ == self.symbol(),
    {
        match self {
            Binary::Add => "+",
            Binary::Sub => "-",
            Binary::Mul => "*",
            Binary::Eq => "==",
            Binary::Lt => "<",
            Binary::Gt => ">",
            Binary::Ne => "!=",
            Binary::And => "&&",
            Binary::Or => "||",
        }
    }
}

/// Reading an operator's spelling gives the operator back.
pub proof fn law_symbol_parses(op: Binary)
    ensures
        Binary::parse(op.symbol()) == Some(op),
{
    reveal_strlit("+");
    reveal_strlit("-");
    reveal_strlit("*");
    reveal_strlit("<");
    reveal_strlit(">");
    reveal_strlit("==");
    reveal_strlit("!=");
    reveal_strlit("&&");
    reveal_strlit("||");
    match op {
        Binary::Add => assert("+"@.len() == 1 && "+"@[0] == '+'),
        Binary::Sub => assert("-"@.len() == 1 && "-"@[0] == '-'),
        Binary::Mul => assert("*"@.len() == 1 && "*"@[0] == '*'),
        Binary::Lt => assert("<"@.len() == 1 && "<"@[0] == '<'),
        Binary::Gt => assert(">"@.len() == 1 && ">"@[0] == '>'),
        Binary::Eq => assert("=="@.len() == 2 && "=="@[0] == '='),
        Binary::Ne => assert("!="@.len() == 2 && "!="@[0] == '!'),
        Binary::And => assert("&&"@.len() == 2 && "&&"@[0] == '&'),
        Binary::Or => assert("||"@.len() == 2 && "||"@[0] == '|'),
    }
}

} // verus!
