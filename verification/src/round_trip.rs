//! Printing and reading back: the text of a well-named node reads as the
//! node's tokens.

use vstd::prelude::*;
use vstd::utf8::is_ascii_chars;
use crate::ascii::{bytes_of, chars_of};
use crate::ast::{Annot, Binary, Constant, Expr, Id, Pattern, RawExpr, Typ};
use crate::grammar::{TokenView, tokens};
use crate::print::{join, lemma_join_step, name_texts};
use crate::reading::{
    breaks_word, lemma_bytes_of_add, lemma_empty_reads, lemma_integer, lemma_padded_mark,
    lemma_slot, lemma_then, lemma_word, pad, plain, reads,
};
use crate::spelling::{
    lit_any, lit_arrow, lit_bar, lit_blank, lit_bool, lit_close, lit_close_bracket, lit_colon,
    lit_comma, lit_dot, lit_double_arrow, lit_else, lit_end, lit_equal, lit_false, lit_forall,
    lit_if, lit_in, lit_int, lit_lambda, lit_let, lit_match, lit_null, lit_open, lit_open_bracket,
    lit_star, lit_then, lit_true, lit_unit, lit_unknown, lit_with,
};
use crate::tokens::{are_type_names, name_tokens};

verus! {

/// Parts that each read as their tokens, with a separator between them that
/// reads as its own, read as the tokens of all.
pub proof fn lemma_join_reads(
    parts: Seq<Seq<char>>,
    toks: Seq<Seq<TokenView>>,
    sep: Seq<char>,
    sep_toks: Seq<TokenView>,
    n: nat,
    rest: Seq<u8>,
)
    requires
        parts.len() == toks.len(),
        n <= parts.len(),
        breaks_word(rest),
        forall|i: int, r: Seq<u8>|
            0 <= i < parts.len() && breaks_word(r) ==> #[trigger] reads(parts[i], toks[i], r),
        forall|r: Seq<u8>| #[trigger] reads(sep, sep_toks, r),
        forall|r: Seq<u8>| #[trigger] breaks_word(bytes_of(sep) + r),
    ensures
        reads(join(parts.take(n as int), sep), join(toks.take(n as int), sep_toks), rest),
        plain(sep) && (forall|i: int| 0 <= i < parts.len() ==> plain(#[trigger] parts[i]))
            ==> plain(join(parts.take(n as int), sep)),
    decreases n,
{
    if n == 0 {
        lemma_empty_reads(rest);
        assert(join(toks.take(0), sep_toks) =~= Seq::<TokenView>::empty());
        assert(join(parts.take(0), sep) =~= Seq::<char>::empty());
    } else {
        lemma_join_step(parts, sep, n - 1);
        lemma_join_step(toks, sep_toks, n - 1);
        let last = parts[n - 1];
        assert(reads(last, toks[n - 1], rest));
        if n > 1 {
            let head = join(parts.take(n - 1), sep);
            let head_toks = join(toks.take(n - 1), sep_toks);
            let r1 = bytes_of(last) + rest;
            let r0 = bytes_of(sep) + r1;
            assert(reads(sep, sep_toks, r1));
            assert(breaks_word(r0));
            lemma_join_reads(parts, toks, sep, sep_toks, (n - 1) as nat, r0);
            lemma_then(head, head_toks, sep, sep_toks, r1);
            lemma_then(head + sep, head_toks + sep_toks, last, toks[n - 1], rest);
        }
    }
}

/// Parts that each read as their tokens, and each begin where a word ends,
/// read one after the other as the tokens of all.
pub proof fn lemma_concat_reads(
    parts: Seq<Seq<char>>,
    toks: Seq<Seq<TokenView>>,
    n: nat,
    rest: Seq<u8>,
)
    requires
        parts.len() == toks.len(),
        n <= parts.len(),
        breaks_word(rest),
        forall|i: int, r: Seq<u8>|
            0 <= i < parts.len() && breaks_word(r) ==> #[trigger] reads(parts[i], toks[i], r)
                && breaks_word(bytes_of(parts[i]) + r),
    ensures
        reads(
            join(parts.take(n as int), Seq::<char>::empty()),
            join(toks.take(n as int), Seq::<TokenView>::empty()),
            rest,
        ),
        breaks_word(bytes_of(join(parts.take(n as int), Seq::<char>::empty())) + rest),
    decreases n,
{
    let none = Seq::<char>::empty();
    let no_toks = Seq::<TokenView>::empty();
    if n == 0 {
        lemma_empty_reads(rest);
        assert(join(toks.take(0), no_toks) =~= no_toks);
        assert(join(parts.take(0), none) =~= none);
        assert(bytes_of(none) + rest =~= rest);
    } else {
        lemma_join_step(parts, none, n - 1);
        lemma_join_step(toks, no_toks, n - 1);
        let last = parts[n - 1];
        assert(reads(last, toks[n - 1], rest));
        if n > 1 {
            let head = join(parts.take(n - 1), none);
            let head_toks = join(toks.take(n - 1), no_toks);
            let r1 = bytes_of(last) + rest;
            lemma_concat_reads(parts, toks, (n - 1) as nat, r1);
            lemma_empty_reads(r1);
            assert(bytes_of(none) + r1 =~= r1);
            lemma_then(head, head_toks, none, no_toks, r1);
            lemma_then(head + none, head_toks + no_toks, last, toks[n - 1], rest);
            lemma_bytes_of_add(head + none, last);
            assert(bytes_of(head + none) =~= bytes_of(head));
            assert(bytes_of(head + none + last) + rest =~= bytes_of(head) + r1);
        }
    }
}

/// An operator reads as its token where a blank follows.
pub proof fn lemma_operator(op: Binary, rest: Seq<u8>)
    requires
        rest.len() > 0,
        rest[0] == 32,
    ensures
        reads(op.symbol(), seq![op.token()], rest),
        breaks_word(bytes_of(op.symbol()) + rest),
{
    reveal_strlit("+");
    reveal_strlit("-");
    reveal_strlit("*");
    reveal_strlit("==");
    reveal_strlit("<");
    reveal_strlit(">");
    reveal_strlit("!=");
    reveal_strlit("&&");
    reveal_strlit("||");
    let lit = op.symbol();
    let core = bytes_of(lit);
    let after = core + (bytes_of(pad(false)) + rest);
    assert(bytes_of(pad(false)) + rest =~= rest);
    assert(core =~= bytes_of(pad(false)) + core + bytes_of(pad(false)));
    assert(after[0] == core[0]);
    if core.len() == 1 {
        assert(after[1] == 32);
        assert(after.take(1) =~= core);
    } else {
        assert(after[1] == core[1]);
        assert(after.take(2) =~= core);
    }
    assert(chars_of(core) =~= lit);
    lemma_padded_mark(lit, false, core, op.token(), false, rest);
}

/// A list of type parameters reads as their tokens, with commas between.
pub proof fn lemma_names(names: Seq<Id>, rest: Seq<u8>)
    requires
        are_type_names(names),
        breaks_word(rest),
    ensures
        reads(
            join(name_texts(names), ", "@),
            join(name_tokens(names), seq![TokenView::Comma]),
            rest,
        ),
        plain(join(name_texts(names), ", "@)),
{
    let parts = name_texts(names);
    let toks = name_tokens(names);
    assert forall|i: int, r: Seq<u8>| 0 <= i < parts.len() && breaks_word(r) implies #[trigger] reads(
        parts[i],
        toks[i],
        r,
    ) by {
        lemma_word(names[i]@, r);
    }
    assert forall|i: int| 0 <= i < parts.len() implies plain(#[trigger] parts[i]) by {
        lemma_word(names[i]@, Seq::empty());
    }
    assert forall|r: Seq<u8>| #[trigger] reads(", "@, seq![TokenView::Comma], r) by {
        lit_comma(r);
    }
    assert forall|r: Seq<u8>| #[trigger] breaks_word(bytes_of(", "@) + r) by {
        lit_comma(r);
    }
    lit_comma(rest);
    lemma_join_reads(parts, toks, ", "@, seq![TokenView::Comma], parts.len(), rest);
    assert(parts.take(parts.len() as int) =~= parts);
    assert(toks.take(toks.len() as int) =~= toks);
}

/// A function type reads as its tokens.
proof fn lemma_arrow(e: Typ, rest: Seq<u8>)
    requires
        e is Arrow,
        e.well_named(),
        breaks_word(rest),
    ensures
        reads(e.text(), e.tokens(), rest),
        plain(e.text()),
    decreases e, 0nat,
{
    if let Typ::Arrow(x, y) = e {
        let w1 = x.enclosed_text();
        let t1: Seq<TokenView> = x.enclosed_tokens();
        let w2 = " -> "@;
        let t2: Seq<TokenView> = seq![TokenView::Arrow];
        let w3 = y.enclosed_text();
        let t3: Seq<TokenView> = y.enclosed_tokens();
        let r3 = rest;
        let r2 = bytes_of(w3) + r3;
        let r1 = bytes_of(w2) + r2;
        lemma_typ_enclosed(*y, r3);
        lit_arrow(r2);
        lemma_typ_enclosed(*x, r1);
        lemma_then(w1, t1, w2, t2, r2);
        lemma_then(w1 + w2, t1 + t2, w3, t3, r3);
    }
}

/// A quantified type reads as its tokens.
proof fn lemma_forall(e: Typ, rest: Seq<u8>)
    requires
        e is Forall,
        e.well_named(),
        breaks_word(rest),
    ensures
        reads(e.text(), e.tokens(), rest),
        plain(e.text()),
    decreases e, 0nat,
{
    if let Typ::Forall(vs, t) = e {
        let w1 = "forall "@;
        let t1: Seq<TokenView> = seq![TokenView::Forall];
        let w2 = join(name_texts(vs@), ", "@);
        let t2: Seq<TokenView> = join(name_tokens(vs@), seq![TokenView::Comma]);
        let w3 = ". "@;
        let t3: Seq<TokenView> = seq![TokenView::Dot];
        let w4 = t.text();
        let t4: Seq<TokenView> = t.tokens();
        let r4 = rest;
        let r3 = bytes_of(w4) + r4;
        let r2 = bytes_of(w3) + r3;
        let r1 = bytes_of(w2) + r2;
        lemma_typ(*t, r4);
        lit_dot(r3);
        lemma_names(vs@, r2);
        lit_forall(r1);
        lemma_then(w1, t1, w2, t2, r2);
        lemma_then(w1 + w2, t1 + t2, w3, t3, r3);
        lemma_then(w1 + w2 + w3, t1 + t2 + t3, w4, t4, r4);
    }
}

/// The text of a well-named type reads as the type's tokens, and holds no
/// slash.
pub proof fn lemma_typ(e: Typ, rest: Seq<u8>)
    requires
        e.well_named(),
        breaks_word(rest),
    ensures
        reads(e.text(), e.tokens(), rest),
        plain(e.text()),
    decreases e, 1nat,
{
    match e {
        Typ::Unknown => lit_unknown(rest),
        Typ::Int => lit_int(rest),
        Typ::Bool => lit_bool(rest),
        Typ::Unit => lit_unit(rest),
        Typ::TVar(v) => lemma_word(v@, rest),
        Typ::Prod(ts) => lemma_typs_enclosed(ts@, rest),
        Typ::Arrow(..) => lemma_arrow(e, rest),
        Typ::Forall(..) => lemma_forall(e, rest),
    }
}

/// The enclosed text of a well-named type reads as its enclosed tokens.
pub proof fn lemma_typ_enclosed(e: Typ, rest: Seq<u8>)
    requires
        e.well_named(),
        breaks_word(rest),
    ensures
        reads(e.enclosed_text(), e.enclosed_tokens(), rest),
        plain(e.enclosed_text()),
    decreases e, 2nat,
{
    if e.atomic() {
        lemma_typ(e, rest);
    } else {
        let w1 = "("@;
        let t1: Seq<TokenView> = seq![TokenView::LParen];
        let w2 = e.text();
        let t2: Seq<TokenView> = e.tokens();
        let w3 = ")"@;
        let t3: Seq<TokenView> = seq![TokenView::RParen];
        let r3 = rest;
        let r2 = bytes_of(w3) + r3;
        let r1 = bytes_of(w2) + r2;
        lit_close(r3);
        lemma_typ(e, r2);
        lit_open(r1);
        lemma_then(w1, t1, w2, t2, r2);
        lemma_then(w1 + w2, t1 + t2, w3, t3, r3);
    }
}

/// The entries of a tuple type read as their tokens, with stars between.
pub proof fn lemma_typs_enclosed(items: Seq<Typ>, rest: Seq<u8>)
    requires
        forall|i: int| 0 <= i < items.len() ==> (#[trigger] items[i]).well_named(),
        breaks_word(rest),
    ensures
        reads(join(Typ::enclosed_texts(items), " * "@), join(Typ::enclosed_token_lists(items), seq![TokenView::Mul]), rest),
        plain(join(Typ::enclosed_texts(items), " * "@)),
    decreases items, 3nat,
{
    let parts = Typ::enclosed_texts(items);
    let toks = Typ::enclosed_token_lists(items);
    assert forall|i: int, r: Seq<u8>| 0 <= i < parts.len() && breaks_word(r) implies #[trigger] reads(
        parts[i],
        toks[i],
        r,
    ) by {
        lemma_typ_enclosed(items[i], r);
    }
    assert forall|i: int| 0 <= i < parts.len() implies plain(#[trigger] parts[i]) by {
        lemma_typ_enclosed(items[i], Seq::empty());
    }
    assert forall|r: Seq<u8>| #[trigger] reads(" * "@, seq![TokenView::Mul], r) by {
        lit_star(r);
    }
    assert forall|r: Seq<u8>| #[trigger] breaks_word(bytes_of(" * "@) + r) by {
        lit_star(r);
    }
    lit_star(rest);
    lemma_join_reads(parts, toks, " * "@, seq![TokenView::Mul], parts.len(), rest);
    assert(parts.take(parts.len() as int) =~= parts);
    assert(toks.take(toks.len() as int) =~= toks);
}

/// The text of a constant reads as the constant's token.
pub proof fn lemma_constant(c: Constant, rest: Seq<u8>)
    requires
        breaks_word(rest),
    ensures
        reads(c.text(), c.tokens(), rest),
{
    match c {
        Constant::Unit => lit_null(rest),
        Constant::Boolean(b) => {
            if b {
                lit_true(rest);
            } else {
                lit_false(rest);
            }
        },
        Constant::Integer(i) => lemma_integer(i, rest),
    }
}

/// The text of a well-named annotation reads as its tokens.
pub proof fn lemma_annot(e: Annot, rest: Seq<u8>)
    requires
        e.well_named(),
        breaks_word(rest),
    ensures
        reads(e.text(), e.tokens(), rest),
{
    let w1 = e.eid@;
    let t1: Seq<TokenView> = seq![TokenView::ExpId(e.eid@)];
    let w2 = " : "@;
    let t2: Seq<TokenView> = seq![TokenView::Colon];
    let w3 = e.typ.text();
    let t3: Seq<TokenView> = e.typ.tokens();
    let r3 = rest;
    let r2 = bytes_of(w3) + r3;
    let r1 = bytes_of(w2) + r2;
    lemma_typ(e.typ, r3);
    lit_colon(r2);
    lemma_word(e.eid@, r1);
    lemma_then(w1, t1, w2, t2, r2);
    lemma_then(w1 + w2, t1 + t2, w3, t3, r3);
}

/// The parameters of a function read as their tokens, with commas between.
pub proof fn lemma_annots(items: Seq<Annot>, rest: Seq<u8>)
    requires
        forall|i: int| 0 <= i < items.len() ==> (#[trigger] items[i]).well_named(),
        breaks_word(rest),
    ensures
        reads(join(Annot::texts(items), ", "@), join(Annot::token_lists(items), seq![TokenView::Comma]), rest),
{
    let parts = Annot::texts(items);
    let toks = Annot::token_lists(items);
    assert forall|i: int, r: Seq<u8>| 0 <= i < parts.len() && breaks_word(r) implies #[trigger] reads(
        parts[i],
        toks[i],
        r,
    ) by {
        lemma_annot(items[i], r);
    }
    assert forall|r: Seq<u8>| #[trigger] reads(", "@, seq![TokenView::Comma], r) by {
        lit_comma(r);
    }
    assert forall|r: Seq<u8>| #[trigger] breaks_word(bytes_of(", "@) + r) by {
        lit_comma(r);
    }
    lit_comma(rest);
    lemma_join_reads(parts, toks, ", "@, seq![TokenView::Comma], parts.len(), rest);
    assert(parts.take(parts.len() as int) =~= parts);
    assert(toks.take(toks.len() as int) =~= toks);
}

/// The text of a well-named pattern reads as its tokens.
pub proof fn lemma_pattern(e: Pattern, rest: Seq<u8>)
    requires
        e.well_named(),
        breaks_word(rest),
    ensures
        reads(e.text(), e.tokens(), rest),
    decreases e, 0nat,
{
    match e {
        Pattern::Var(name) => lemma_word(name@, rest),
        Pattern::Tuple(ps) => {
            let w1 = "("@;
            let t1: Seq<TokenView> = seq![TokenView::LParen];
            let w2 = join(Pattern::texts(ps@), ", "@);
            let t2: Seq<TokenView> = join(Pattern::token_lists(ps@), seq![TokenView::Comma]);
            let w3 = ")"@;
            let t3: Seq<TokenView> = seq![TokenView::RParen];
            let r3 = rest;
            let r2 = bytes_of(w3) + r3;
            let r1 = bytes_of(w2) + r2;
            lit_close(r3);
            lemma_patterns(ps@, r2);
            lit_open(r1);
            lemma_then(w1, t1, w2, t2, r2);
            lemma_then(w1 + w2, t1 + t2, w3, t3, r3);
        },
    }
}

/// The entries of a tuple pattern read as their tokens, with commas between.
pub proof fn lemma_patterns(items: Seq<Pattern>, rest: Seq<u8>)
    requires
        forall|i: int| 0 <= i < items.len() ==> (#[trigger] items[i]).well_named(),
        breaks_word(rest),
    ensures
        reads(join(Pattern::texts(items), ", "@), join(Pattern::token_lists(items), seq![TokenView::Comma]), rest),
    decreases items, 1nat,
{
    let parts = Pattern::texts(items);
    let toks = Pattern::token_lists(items);
    assert forall|i: int, r: Seq<u8>| 0 <= i < parts.len() && breaks_word(r) implies #[trigger] reads(
        parts[i],
        toks[i],
        r,
    ) by {
        lemma_pattern(items[i], r);
    }
    assert forall|r: Seq<u8>| #[trigger] reads(", "@, seq![TokenView::Comma], r) by {
        lit_comma(r);
    }
    assert forall|r: Seq<u8>| #[trigger] breaks_word(bytes_of(", "@) + r) by {
        lit_comma(r);
    }
    lit_comma(rest);
    lemma_join_reads(parts, toks, ", "@, seq![TokenView::Comma], parts.len(), rest);
    assert(parts.take(parts.len() as int) =~= parts);
    assert(toks.take(toks.len() as int) =~= toks);
}

/// A binding reads as its tokens.
proof fn lemma_let(e: RawExpr, rest: Seq<u8>)
    requires
        e is Let,
        e.well_named(),
        breaks_word(rest),
    ensures
        reads(e.text(), e.tokens(), rest),
    decreases e, 0nat,
{
    if let RawExpr::Let { annot, exp, body } = e {
        let w1 = "let "@;
        let t1: Seq<TokenView> = seq![TokenView::Let];
        let w2 = annot.text();
        let t2: Seq<TokenView> = annot.tokens();
        let w3 = " = "@;
        let t3: Seq<TokenView> = seq![TokenView::Equal];
        let w4 = exp.enclosed_text();
        let t4: Seq<TokenView> = exp.enclosed_tokens();
        let w5 = " in "@;
        let t5: Seq<TokenView> = seq![TokenView::In];
        let w6 = body.enclosed_text();
        let t6: Seq<TokenView> = body.enclosed_tokens();
        let w7 = " end"@;
        let t7: Seq<TokenView> = seq![TokenView::End];
        let r7 = rest;
        let r6 = bytes_of(w7) + r7;
        let r5 = bytes_of(w6) + r6;
        let r4 = bytes_of(w5) + r5;
        let r3 = bytes_of(w4) + r4;
        let r2 = bytes_of(w3) + r3;
        let r1 = bytes_of(w2) + r2;
        lit_end(r7);
        lemma_expr_enclosed(*body, r6);
        lit_in(r5);
        lemma_expr_enclosed(*exp, r4);
        lit_equal(r3);
        lemma_annot(annot, r2);
        lit_let(r1);
        lemma_then(w1, t1, w2, t2, r2);
        lemma_then(w1 + w2, t1 + t2, w3, t3, r3);
        lemma_then(w1 + w2 + w3, t1 + t2 + t3, w4, t4, r4);
        lemma_then(w1 + w2 + w3 + w4, t1 + t2 + t3 + t4, w5, t5, r5);
        lemma_then(w1 + w2 + w3 + w4 + w5, t1 + t2 + t3 + t4 + t5, w6, t6, r6);
        lemma_then(w1 + w2 + w3 + w4 + w5 + w6, t1 + t2 + t3 + t4 + t5 + t6, w7, t7, r7);
    }
}

/// An application reads as its tokens.
proof fn lemma_eapp(e: RawExpr, rest: Seq<u8>)
    requires
        e is EApp,
        e.well_named(),
        breaks_word(rest),
    ensures
        reads(e.text(), e.tokens(), rest),
    decreases e, 0nat,
{
    if let RawExpr::EApp { exp, arg } = e {
        let w1 = exp.enclosed_text();
        let t1: Seq<TokenView> = exp.enclosed_tokens();
        let w2 = " "@;
        let t2: Seq<TokenView> = Seq::empty();
        let w3 = arg.enclosed_text();
        let t3: Seq<TokenView> = arg.enclosed_tokens();
        let r3 = rest;
        let r2 = bytes_of(w3) + r3;
        let r1 = bytes_of(w2) + r2;
        lemma_expr_enclosed(*arg, r3);
        lit_blank(r2);
        lemma_expr_enclosed(*exp, r1);
        lemma_then(w1, t1, w2, t2, r2);
        lemma_then(w1 + w2, t1 + t2, w3, t3, r3);
    }
}

/// An instantiation reads as its tokens.
proof fn lemma_tapp(e: RawExpr, rest: Seq<u8>)
    requires
        e is TApp,
        e.well_named(),
        breaks_word(rest),
    ensures
        reads(e.text(), e.tokens(), rest),
    decreases e, 0nat,
{
    if let RawExpr::TApp { exp, arg } = e {
        let w1 = exp.enclosed_text();
        let t1: Seq<TokenView> = exp.enclosed_tokens();
        let w2 = "["@;
        let t2: Seq<TokenView> = seq![TokenView::LBrack];
        let w3 = arg.text();
        let t3: Seq<TokenView> = arg.tokens();
        let w4 = "]"@;
        let t4: Seq<TokenView> = seq![TokenView::RBrack];
        let r4 = rest;
        let r3 = bytes_of(w4) + r4;
        let r2 = bytes_of(w3) + r3;
        let r1 = bytes_of(w2) + r2;
        lit_close_bracket(r4);
        lemma_typ(arg, r3);
        lit_open_bracket(r2);
        lemma_expr_enclosed(*exp, r1);
        lemma_then(w1, t1, w2, t2, r2);
        lemma_then(w1 + w2, t1 + t2, w3, t3, r3);
        lemma_then(w1 + w2 + w3, t1 + t2 + t3, w4, t4, r4);
    }
}

/// A tuple reads as its tokens.
proof fn lemma_tuple(e: RawExpr, rest: Seq<u8>)
    requires
        e is Tuple,
        e.well_named(),
        breaks_word(rest),
    ensures
        reads(e.text(), e.tokens(), rest),
    decreases e, 0nat,
{
    if let RawExpr::Tuple { entries } = e {
        let w1 = "("@;
        let t1: Seq<TokenView> = seq![TokenView::LParen];
        let w2 = join(Expr::enclosed_texts(entries@), ", "@);
        let t2: Seq<TokenView> = join(Expr::enclosed_token_lists(entries@), seq![TokenView::Comma]);
        let w3 = ")"@;
        let t3: Seq<TokenView> = seq![TokenView::RParen];
        let r3 = rest;
        let r2 = bytes_of(w3) + r3;
        let r1 = bytes_of(w2) + r2;
        lit_close(r3);
        lemma_entries(entries@, r2);
        lit_open(r1);
        lemma_then(w1, t1, w2, t2, r2);
        lemma_then(w1 + w2, t1 + t2, w3, t3, r3);
    }
}

/// A match reads as its tokens.
proof fn lemma_match(e: RawExpr, rest: Seq<u8>)
    requires
        e is Match,
        e.well_named(),
        breaks_word(rest),
    ensures
        reads(e.text(), e.tokens(), rest),
    decreases e, 0nat,
{
    if let RawExpr::Match { exp, clauses } = e {
        let w1 = "match "@;
        let t1: Seq<TokenView> = seq![TokenView::Match];
        let w2 = exp.enclosed_text();
        let t2: Seq<TokenView> = exp.enclosed_tokens();
        let w3 = " with"@;
        let t3: Seq<TokenView> = seq![TokenView::With];
        let w4 = join(Expr::clause_texts(clauses@), Seq::<char>::empty());
        let t4: Seq<TokenView> = join(Expr::clause_token_lists(clauses@), Seq::<TokenView>::empty());
        let w5 = " end"@;
        let t5: Seq<TokenView> = seq![TokenView::End];
        let r5 = rest;
        let r4 = bytes_of(w5) + r5;
        let r3 = bytes_of(w4) + r4;
        let r2 = bytes_of(w3) + r3;
        let r1 = bytes_of(w2) + r2;
        lit_end(r5);
        lemma_clauses(clauses@, r4);
        lit_with(r3);
        lemma_expr_enclosed(*exp, r2);
        lit_match(r1);
        lemma_then(w1, t1, w2, t2, r2);
        lemma_then(w1 + w2, t1 + t2, w3, t3, r3);
        lemma_then(w1 + w2 + w3, t1 + t2 + t3, w4, t4, r4);
        lemma_then(w1 + w2 + w3 + w4, t1 + t2 + t3 + t4, w5, t5, r5);
    }
}

/// A binary operation reads as its tokens.
proof fn lemma_binop(e: RawExpr, rest: Seq<u8>)
    requires
        e is Binop,
        e.well_named(),
        breaks_word(rest),
    ensures
        reads(e.text(), e.tokens(), rest),
    decreases e, 0nat,
{
    if let RawExpr::Binop { lhs, op, rhs } = e {
        let w1 = lhs.enclosed_text();
        let t1: Seq<TokenView> = lhs.enclosed_tokens();
        let w2 = " "@;
        let t2: Seq<TokenView> = Seq::empty();
        let w3 = op.symbol();
        let t3: Seq<TokenView> = seq![op.token()];
        let w4 = " "@;
        let t4: Seq<TokenView> = Seq::empty();
        let w5 = rhs.enclosed_text();
        let t5: Seq<TokenView> = rhs.enclosed_tokens();
        let r5 = rest;
        let r4 = bytes_of(w5) + r5;
        let r3 = bytes_of(w4) + r4;
        let r2 = bytes_of(w3) + r3;
        let r1 = bytes_of(w2) + r2;
        lemma_expr_enclosed(*rhs, r5);
        lit_blank(r4);
        lemma_operator(op, r3);
        lit_blank(r2);
        lemma_expr_enclosed(*lhs, r1);
        lemma_then(w1, t1, w2, t2, r2);
        lemma_then(w1 + w2, t1 + t2, w3, t3, r3);
        lemma_then(w1 + w2 + w3, t1 + t2 + t3, w4, t4, r4);
        lemma_then(w1 + w2 + w3 + w4, t1 + t2 + t3 + t4, w5, t5, r5);
    }
}

/// A function reads as its tokens.
proof fn lemma_lambda(e: RawExpr, rest: Seq<u8>)
    requires
        e is Lambda,
        e.well_named(),
        breaks_word(rest),
    ensures
        reads(e.text(), e.tokens(), rest),
    decreases e, 0nat,
{
    if let RawExpr::Lambda { args, body } = e {
        let w1 = "lambda "@;
        let t1: Seq<TokenView> = seq![TokenView::Lambda];
        let w2 = join(Annot::texts(args@), ", "@);
        let t2: Seq<TokenView> = join(Annot::token_lists(args@), seq![TokenView::Comma]);
        let w3 = ". "@;
        let t3: Seq<TokenView> = seq![TokenView::Dot];
        let w4 = body.enclosed_text();
        let t4: Seq<TokenView> = body.enclosed_tokens();
        let r4 = rest;
        let r3 = bytes_of(w4) + r4;
        let r2 = bytes_of(w3) + r3;
        let r1 = bytes_of(w2) + r2;
        lemma_expr_enclosed(*body, r4);
        lit_dot(r3);
        lemma_annots(args@, r2);
        lit_lambda(r1);
        lemma_then(w1, t1, w2, t2, r2);
        lemma_then(w1 + w2, t1 + t2, w3, t3, r3);
        lemma_then(w1 + w2 + w3, t1 + t2 + t3, w4, t4, r4);
    }
}

/// A type abstraction reads as its tokens.
proof fn lemma_any(e: RawExpr, rest: Seq<u8>)
    requires
        e is Any,
        e.well_named(),
        breaks_word(rest),
    ensures
        reads(e.text(), e.tokens(), rest),
    decreases e, 0nat,
{
    if let RawExpr::Any { args, body } = e {
        let w1 = "any "@;
        let t1: Seq<TokenView> = seq![TokenView::Any];
        let w2 = join(name_texts(args@), ", "@);
        let t2: Seq<TokenView> = join(name_tokens(args@), seq![TokenView::Comma]);
        let w3 = ". "@;
        let t3: Seq<TokenView> = seq![TokenView::Dot];
        let w4 = body.enclosed_text();
        let t4: Seq<TokenView> = body.enclosed_tokens();
        let r4 = rest;
        let r3 = bytes_of(w4) + r4;
        let r2 = bytes_of(w3) + r3;
        let r1 = bytes_of(w2) + r2;
        lemma_expr_enclosed(*body, r4);
        lit_dot(r3);
        lemma_names(args@, r2);
        lit_any(r1);
        lemma_then(w1, t1, w2, t2, r2);
        lemma_then(w1 + w2, t1 + t2, w3, t3, r3);
        lemma_then(w1 + w2 + w3, t1 + t2 + t3, w4, t4, r4);
    }
}

/// A conditional reads as its tokens.
proof fn lemma_if(e: RawExpr, rest: Seq<u8>)
    requires
        e is If,
        e.well_named(),
        breaks_word(rest),
    ensures
        reads(e.text(), e.tokens(), rest),
    decreases e, 0nat,
{
    if let RawExpr::If { cond, t, f } = e {
        let w1 = "if "@;
        let t1: Seq<TokenView> = seq![TokenView::If];
        let w2 = cond.enclosed_text();
        let t2: Seq<TokenView> = cond.enclosed_tokens();
        let w3 = " then "@;
        let t3: Seq<TokenView> = seq![TokenView::Then];
        let w4 = t.enclosed_text();
        let t4: Seq<TokenView> = t.enclosed_tokens();
        let w5 = " else "@;
        let t5: Seq<TokenView> = seq![TokenView::Else];
        let w6 = f.enclosed_text();
        let t6: Seq<TokenView> = f.enclosed_tokens();
        let r6 = rest;
        let r5 = bytes_of(w6) + r6;
        let r4 = bytes_of(w5) + r5;
        let r3 = bytes_of(w4) + r4;
        let r2 = bytes_of(w3) + r3;
        let r1 = bytes_of(w2) + r2;
        lemma_expr_enclosed(*f, r6);
        lit_else(r5);
        lemma_expr_enclosed(*t, r4);
        lit_then(r3);
        lemma_expr_enclosed(*cond, r2);
        lit_if(r1);
        lemma_then(w1, t1, w2, t2, r2);
        lemma_then(w1 + w2, t1 + t2, w3, t3, r3);
        lemma_then(w1 + w2 + w3, t1 + t2 + t3, w4, t4, r4);
        lemma_then(w1 + w2 + w3 + w4, t1 + t2 + t3 + t4, w5, t5, r5);
        lemma_then(w1 + w2 + w3 + w4 + w5, t1 + t2 + t3 + t4 + t5, w6, t6, r6);
    }
}

/// The text of a well-named expression, without its type slot, reads as
/// the expression's tokens.
pub proof fn lemma_raw(e: RawExpr, rest: Seq<u8>)
    requires
        e.well_named(),
        breaks_word(rest),
    ensures
        reads(e.text(), e.tokens(), rest),
    decreases e, 1nat,
{
    match e {
        RawExpr::Con { val } => lemma_constant(val, rest),
        RawExpr::Var { id } => lemma_word(id@, rest),
        RawExpr::Let { .. } => lemma_let(e, rest),
        RawExpr::EApp { .. } => lemma_eapp(e, rest),
        RawExpr::TApp { .. } => lemma_tapp(e, rest),
        RawExpr::Tuple { .. } => lemma_tuple(e, rest),
        RawExpr::Match { .. } => lemma_match(e, rest),
        RawExpr::Binop { .. } => lemma_binop(e, rest),
        RawExpr::Lambda { .. } => lemma_lambda(e, rest),
        RawExpr::Any { .. } => lemma_any(e, rest),
        RawExpr::If { .. } => lemma_if(e, rest),
    }
}

/// The text of a well-named expression reads as the expression's tokens:
/// the type slot, a comment, yields none.
pub proof fn lemma_expr(e: Expr, rest: Seq<u8>)
    requires
        e.well_named(),
        breaks_word(rest),
    ensures
        reads(e.text(), e.tokens(), rest),
    decreases e, 2nat,
{
    let slot = " /*"@ + e.typ.text() + "*/"@;
    lemma_typ(e.typ, Seq::empty());
    assert(is_ascii_chars(e.typ.text())) by {
        assert(reads(e.typ.text(), e.typ.tokens(), Seq::empty()));
    }
    lemma_slot(e.typ.text(), rest);
    lemma_raw(e.expr, bytes_of(slot) + rest);
    lemma_then(e.expr.text(), e.expr.tokens(), slot, Seq::empty(), rest);
    assert(e.text() =~= e.expr.text() + slot);
    assert(e.expr.tokens() + Seq::<TokenView>::empty() =~= e.tokens());
}

/// The enclosed text of a well-named expression reads as its enclosed
/// tokens.
pub proof fn lemma_expr_enclosed(e: Expr, rest: Seq<u8>)
    requires
        e.well_named(),
        breaks_word(rest),
    ensures
        reads(e.enclosed_text(), e.enclosed_tokens(), rest),
    decreases e, 3nat,
{
    if e.expr.atomic() {
        lemma_expr(e, rest);
    } else {
        let w1 = "("@;
        let t1: Seq<TokenView> = seq![TokenView::LParen];
        let w2 = e.text();
        let t2: Seq<TokenView> = e.tokens();
        let w3 = ")"@;
        let t3: Seq<TokenView> = seq![TokenView::RParen];
        let r3 = rest;
        let r2 = bytes_of(w3) + r3;
        let r1 = bytes_of(w2) + r2;
        lit_close(r3);
        lemma_expr(e, r2);
        lit_open(r1);
        lemma_then(w1, t1, w2, t2, r2);
        lemma_then(w1 + w2, t1 + t2, w3, t3, r3);
    }
}

/// The entries of a tuple read as their tokens, with commas between.
pub proof fn lemma_entries(items: Seq<Expr>, rest: Seq<u8>)
    requires
        forall|i: int| 0 <= i < items.len() ==> (#[trigger] items[i]).well_named(),
        breaks_word(rest),
    ensures
        reads(join(Expr::enclosed_texts(items), ", "@), join(Expr::enclosed_token_lists(items), seq![TokenView::Comma]), rest),
    decreases items, 4nat,
{
    let parts = Expr::enclosed_texts(items);
    let toks = Expr::enclosed_token_lists(items);
    assert forall|i: int, r: Seq<u8>| 0 <= i < parts.len() && breaks_word(r) implies #[trigger] reads(
        parts[i],
        toks[i],
        r,
    ) by {
        lemma_expr_enclosed(items[i], r);
    }
    assert forall|r: Seq<u8>| #[trigger] reads(", "@, seq![TokenView::Comma], r) by {
        lit_comma(r);
    }
    assert forall|r: Seq<u8>| #[trigger] breaks_word(bytes_of(", "@) + r) by {
        lit_comma(r);
    }
    lit_comma(rest);
    lemma_join_reads(parts, toks, ", "@, seq![TokenView::Comma], parts.len(), rest);
    assert(parts.take(parts.len() as int) =~= parts);
    assert(toks.take(toks.len() as int) =~= toks);
}

/// One clause of a match reads as its tokens, and begins where a word ends.
pub proof fn lemma_clause(c: (Pattern, Expr), rest: Seq<u8>)
    requires
        c.0.well_named(),
        c.1.well_named(),
        breaks_word(rest),
    ensures
        reads(Expr::clause_text(c), Expr::clause_tokens(c), rest),
        breaks_word(bytes_of(Expr::clause_text(c)) + rest),
    decreases c, 4nat,
{
    let w1 = " | "@;
    let t1: Seq<TokenView> = seq![TokenView::Bar];
    let w2 = c.0.text();
    let t2: Seq<TokenView> = c.0.tokens();
    let w3 = " => "@;
    let t3: Seq<TokenView> = seq![TokenView::DoubleArrow];
    let w4 = c.1.enclosed_text();
    let t4: Seq<TokenView> = c.1.enclosed_tokens();
    let r4 = rest;
    let r3 = bytes_of(w4) + r4;
    let r2 = bytes_of(w3) + r3;
    let r1 = bytes_of(w2) + r2;
    lemma_expr_enclosed(c.1, r4);
    lit_double_arrow(r3);
    lemma_pattern(c.0, r2);
    lit_bar(r1);
    lemma_then(w1, t1, w2, t2, r2);
    lemma_then(w1 + w2, t1 + t2, w3, t3, r3);
    lemma_then(w1 + w2 + w3, t1 + t2 + t3, w4, t4, r4);
    let text = Expr::clause_text(c);
    assert(bytes_of(text) + rest =~= bytes_of(w1) + r1);
}

/// The clauses of a match read one after the other as their tokens.
pub proof fn lemma_clauses(items: Seq<(Pattern, Expr)>, rest: Seq<u8>)
    requires
        forall|i: int|
            0 <= i < items.len() ==> (#[trigger] items[i]).0.well_named()
                && items[i].1.well_named(),
        breaks_word(rest),
    ensures
        reads(
            join(Expr::clause_texts(items), Seq::<char>::empty()),
            join(Expr::clause_token_lists(items), Seq::<TokenView>::empty()),
            rest,
        ),
        breaks_word(bytes_of(join(Expr::clause_texts(items), Seq::<char>::empty())) + rest),
    decreases items, 5nat,
{
    let parts = Expr::clause_texts(items);
    let toks = Expr::clause_token_lists(items);
    assert forall|i: int, r: Seq<u8>| 0 <= i < parts.len() && breaks_word(r) implies #[trigger] reads(
        parts[i],
        toks[i],
        r,
    ) && breaks_word(bytes_of(parts[i]) + r) by {
        lemma_clause(items[i], r);
    }
    lemma_concat_reads(parts, toks, parts.len(), rest);
    assert(parts.take(parts.len() as int) =~= parts);
    assert(toks.take(toks.len() as int) =~= toks);
}

} // verus!
