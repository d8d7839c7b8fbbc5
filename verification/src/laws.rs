//! What holds of the printer and the tokenizer together.

use vstd::prelude::*;
use vstd::utf8::encode_utf8;
use crate::ascii::{byte, bytes_of, is_lower, is_space, lemma_encode_ascii};
use crate::ast::{Annot, Constant, Expr, RawExpr, Typ};
use crate::grammar::{Lexeme, TokenView, kinds, lemma_lex_tokens, lex, lexeme, tokens, word_token};
use crate::print::{join, name_texts};
use crate::reading::{
    breaks_word, is_word_text, lemma_blank, lemma_comment, lemma_word, prepend, reads,
};
use crate::round_trip::{lemma_annot, lemma_constant, lemma_expr, lemma_raw, lemma_typ};

verus! {

/// A text that reads as `toks` before nothing is, as a whole source text,
/// read without fault as exactly `toks`.
pub proof fn lemma_reads_whole(text: Seq<char>, toks: Seq<TokenView>)
    requires
        reads(text, toks, Seq::empty()),
    ensures
        lex(encode_utf8(text), 0) matches Ok(spans) && kinds(spans) == toks,
{
    let s = bytes_of(text);
    lemma_encode_ascii(text);
    assert(s + Seq::<u8>::empty() =~= s);
    assert(tokens(Seq::<u8>::empty()) == Some(Seq::<TokenView>::empty()));
    assert(toks + Seq::<TokenView>::empty() =~= toks);
    lemma_lex_tokens(s, 0);
    assert(s.skip(0) =~= s);
}

/// Round trip: the printed text of an expression whose names are names is
/// read back, without fault, as exactly the expression's tokens. The type
/// slots, printed as comments, leave no trace.
pub proof fn law_expr_round_trip(e: Expr)
    requires
        e.well_named(),
    ensures
        lex(encode_utf8(e.text()), 0) matches Ok(spans) && kinds(spans) == e.tokens(),
{
    lemma_expr(e, Seq::empty());
    lemma_reads_whole(e.text(), e.tokens());
}

/// Round trip for an expression printed without its own type slot.
pub proof fn law_raw_expr_round_trip(e: RawExpr)
    requires
        e.well_named(),
    ensures
        lex(encode_utf8(e.text()), 0) matches Ok(spans) && kinds(spans) == e.tokens(),
{
    lemma_raw(e, Seq::empty());
    lemma_reads_whole(e.text(), e.tokens());
}

/// Round trip for types: the printed text of a type whose parameters carry
/// type names is read back as exactly the type's tokens.
pub proof fn law_typ_round_trip(t: Typ)
    requires
        t.well_named(),
    ensures
        lex(encode_utf8(t.text()), 0) matches Ok(spans) && kinds(spans) == t.tokens(),
{
    lemma_typ(t, Seq::empty());
    lemma_reads_whole(t.text(), t.tokens());
}

/// Round trip for annotations.
pub proof fn law_annot_round_trip(a: Annot)
    requires
        a.well_named(),
    ensures
        lex(encode_utf8(a.text()), 0) matches Ok(spans) && kinds(spans) == a.tokens(),
{
    lemma_annot(a, Seq::empty());
    lemma_reads_whole(a.text(), a.tokens());
}

/// Round trip for constants: every constant, the least integer included, is
/// printed as one token that reads back as the same constant.
pub proof fn law_constant_round_trip(c: Constant)
    ensures
        lex(encode_utf8(c.text()), 0) matches Ok(spans) && kinds(spans) == c.tokens(),
{
    lemma_constant(c, Seq::empty());
    lemma_reads_whole(c.text(), c.tokens());
}

/// A type that is not atomic stands in parentheses where it is the domain
/// of a function type, and where it is the codomain.
pub proof fn law_arrow_sides_enclosed(x: Typ, y: Typ)
    ensures
        Typ::Arrow(Box::new(x), Box::new(y)).text() == x.enclosed_text() + " -> "@
            + y.enclosed_text(),
        !x.atomic() ==> x.enclosed_text() == "("@ + x.text() + ")"@,
        !y.atomic() ==> y.enclosed_text() == "("@ + y.text() + ")"@,
        x.atomic() ==> x.enclosed_text() == x.text(),
        y.atomic() ==> y.enclosed_text() == y.text(),
{
    let arrow = Typ::Arrow(Box::new(x), Box::new(y));
    assert(arrow.text() == x.enclosed_text() + " -> "@ + y.enclosed_text());
}

/// The entries of a tuple type are joined by stars, and each entry that is
/// not atomic stands in parentheses.
pub proof fn law_product_entries_enclosed(ts: Vec<Typ>)
    ensures
        Typ::Prod(ts).text() == join(Typ::enclosed_texts(ts@), " * "@),
        forall|i: int|
            0 <= i < ts@.len() ==> #[trigger] Typ::enclosed_texts(ts@)[i] == if ts@[i].atomic() {
                ts@[i].text()
            } else {
                "("@ + ts@[i].text() + ")"@
            },
{
}

/// The entries of a tuple are joined by commas inside parentheses, and each
/// entry that is not atomic stands in parentheses of its own.
pub proof fn law_tuple_entries_enclosed(entries: Vec<Expr>)
    ensures
        (RawExpr::Tuple { entries }).text() == "("@ + join(
            Expr::enclosed_texts(entries@),
            ", "@,
        ) + ")"@,
        forall|i: int|
            0 <= i < entries@.len() ==> #[trigger] Expr::enclosed_texts(entries@)[i]
                == if entries@[i].expr.atomic() {
                entries@[i].text()
            } else {
                "("@ + entries@[i].text() + ")"@
            },
{
}

/// Precedence is told by kind: an additive token is `+` or `-`, a comparison
/// is one of `<`, `>`, `==`, `!=`, and a boolean operator is `&&` or `||`.
/// Multiplication is none of them.
pub proof fn law_operator_kinds(s: Seq<u8>)
    ensures
        match lexeme(s) {
            Lexeme::Token(TokenView::Infix6(text), n) => text == "+"@ || text == "-"@,
            Lexeme::Token(TokenView::Infix4(text), n) => text == "<"@ || text == ">"@ || text
                == "=="@ || text == "!="@,
            Lexeme::Token(TokenView::Infix3(text), n) => text == "&&"@ || text == "||"@,
            _ => true,
        },
{
    reveal_strlit("+");
    reveal_strlit("-");
    reveal_strlit("<");
    reveal_strlit(">");
    reveal_strlit("==");
    reveal_strlit("!=");
    reveal_strlit("&&");
    reveal_strlit("||");
    reveal_strlit("true");
    reveal_strlit("false");
    match lexeme(s) {
        Lexeme::Token(TokenView::Infix6(text), n) => {
            assert(text =~= "+"@ || text =~= "-"@);
        },
        Lexeme::Token(TokenView::Infix4(text), n) => {
            assert(text =~= "<"@ || text =~= ">"@ || text =~= "=="@ || text =~= "!="@);
        },
        Lexeme::Token(TokenView::Infix3(text), n) => {
            assert(text =~= "&&"@ || text =~= "||"@);
        },
        _ => {},
    }
}

/// Case alone tells the two kinds of identifier apart: a word that is no
/// keyword is read as an identifier of terms if it begins in lower case, and
/// as an identifier of types if it begins in upper case.
pub proof fn law_case_decides_identifier(word: Seq<char>, rest: Seq<u8>)
    requires
        is_word_text(word),
        word_token(word) is ExpId || word_token(word) is TypId,
        breaks_word(rest),
    ensures
        tokens(bytes_of(word) + rest) == prepend(
            seq![
                if is_lower(byte(word[0])) {
                    TokenView::ExpId(word)
                } else {
                    TokenView::TypId(word)
                },
            ],
            tokens(rest),
        ),
{
    lemma_word(word, rest);
}

/// A blank before a text leaves no token.
pub proof fn law_blank_yields_nothing(blank: u8, rest: Seq<u8>)
    requires
        is_space(blank),
    ensures
        tokens(seq![blank] + rest) == tokens(rest),
{
    lemma_blank(blank, rest);
}

/// A comment before a text leaves no token, whatever its body holds, as long
/// as the body does not close the comment itself.
pub proof fn law_comment_yields_nothing(body: Seq<u8>, rest: Seq<u8>)
    requires
        forall|i: int|
            0 <= i < body.len() - 1 ==> !(#[trigger] body[i] == byte('*') && body[i + 1] == byte(
                '/',
            )),
    ensures
        tokens(seq![byte('/'), byte('*')] + body + seq![byte('*'), byte('/')] + rest) == tokens(
            rest,
        ),
{
    lemma_comment(body, rest);
}

/// Types that are built alike, as a type and its clone are, print alike.
pub proof fn law_alike_types_print_alike(a: Typ, b: Typ)
    requires
        a.alike(b),
    ensures
        a.atomic() == b.atomic(),
        a.text() == b.text(),
        a.enclosed_text() == b.enclosed_text(),
    decreases a,
{
    match a {
        Typ::Prod(xs) => {
            if let Typ::Prod(ys) = b {
                assert forall|i: int| 0 <= i < xs@.len() implies Typ::enclosed_texts(xs@)[i]
                    == Typ::enclosed_texts(ys@)[i] by {
                    law_alike_types_print_alike(xs@[i], ys@[i]);
                }
                assert(Typ::enclosed_texts(xs@) =~= Typ::enclosed_texts(ys@));
            }
        },
        Typ::Arrow(x, y) => {
            if let Typ::Arrow(u, v) = b {
                law_alike_types_print_alike(*x, *u);
                law_alike_types_print_alike(*y, *v);
            }
        },
        Typ::Forall(vs, t) => {
            if let Typ::Forall(ws, u) = b {
                law_alike_types_print_alike(*t, *u);
                assert(name_texts(vs@) =~= name_texts(ws@));
            }
        },
        _ => {},
    }
}

} // verus!
