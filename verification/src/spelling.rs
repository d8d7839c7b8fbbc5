//! How each fixed piece of printed text is read: the keywords, the
//! punctuation marks and the operators, with the blanks the printer puts
//! around them.

use vstd::prelude::*;
use crate::ascii::bytes_of;
use crate::grammar::{TokenView, word_token};
use crate::reading::{
    breaks_word, is_word_text, lemma_padded_mark, lemma_padded_word, lemma_space, pad, plain, reads,
};

verus! {

/// What tells the words of the grammar apart at a glance: the length and the
/// first two characters.
pub open spec fn mark_of(word: Seq<char>) -> (nat, char, char) {
    (word.len(), word[0], word[1])
}

/// No two words of the grammar have the same length and first two
/// characters.
proof fn lemma_marks()
    ensures
        mark_of("Unknown"@) == (7nat, 'U', 'n'),
        mark_of("Int"@) == (3nat, 'I', 'n'),
        mark_of("Bool"@) == (4nat, 'B', 'o'),
        mark_of("Unit"@) == (4nat, 'U', 'n'),
        mark_of("null"@) == (4nat, 'n', 'u'),
        mark_of("true"@) == (4nat, 't', 'r'),
        mark_of("false"@) == (5nat, 'f', 'a'),
        mark_of("forall"@) == (6nat, 'f', 'o'),
        mark_of("let"@) == (3nat, 'l', 'e'),
        mark_of("in"@) == (2nat, 'i', 'n'),
        mark_of("end"@) == (3nat, 'e', 'n'),
        mark_of("match"@) == (5nat, 'm', 'a'),
        mark_of("with"@) == (4nat, 'w', 'i'),
        mark_of("lambda"@) == (6nat, 'l', 'a'),
        mark_of("any"@) == (3nat, 'a', 'n'),
        mark_of("if"@) == (2nat, 'i', 'f'),
        mark_of("then"@) == (4nat, 't', 'h'),
        mark_of("else"@) == (4nat, 'e', 'l'),
{
    reveal_strlit("Unknown");
    reveal_strlit("Int");
    reveal_strlit("Bool");
    reveal_strlit("Unit");
    reveal_strlit("null");
    reveal_strlit("true");
    reveal_strlit("false");
    reveal_strlit("forall");
    reveal_strlit("let");
    reveal_strlit("in");
    reveal_strlit("end");
    reveal_strlit("match");
    reveal_strlit("with");
    reveal_strlit("lambda");
    reveal_strlit("any");
    reveal_strlit("if");
    reveal_strlit("then");
    reveal_strlit("else");
}

/// Every keyword and literal word is a word, and is read as what it names.
pub proof fn lemma_keywords()
    ensures
        is_word_text("Unknown"@) && word_token("Unknown"@) == TokenView::TypId("Unknown"@),
        is_word_text("Int"@) && word_token("Int"@) == TokenView::TInt,
        is_word_text("Bool"@) && word_token("Bool"@) == TokenView::TBool,
        is_word_text("Unit"@) && word_token("Unit"@) == TokenView::TUnit,
        is_word_text("null"@) && word_token("null"@) == TokenView::UnitLit,
        is_word_text("true"@) && word_token("true"@) == TokenView::BoolLit(true),
        is_word_text("false"@) && word_token("false"@) == TokenView::BoolLit(false),
        is_word_text("forall"@) && word_token("forall"@) == TokenView::Forall,
        is_word_text("let"@) && word_token("let"@) == TokenView::Let,
        is_word_text("in"@) && word_token("in"@) == TokenView::In,
        is_word_text("end"@) && word_token("end"@) == TokenView::End,
        is_word_text("match"@) && word_token("match"@) == TokenView::Match,
        is_word_text("with"@) && word_token("with"@) == TokenView::With,
        is_word_text("lambda"@) && word_token("lambda"@) == TokenView::Lambda,
        is_word_text("any"@) && word_token("any"@) == TokenView::Any,
        is_word_text("if"@) && word_token("if"@) == TokenView::If,
        is_word_text("then"@) && word_token("then"@) == TokenView::Then,
        is_word_text("else"@) && word_token("else"@) == TokenView::Else,
{
    lemma_marks();
    reveal_strlit("Unknown");
    reveal_strlit("Int");
    reveal_strlit("Bool");
    reveal_strlit("Unit");
    reveal_strlit("null");
    reveal_strlit("true");
    reveal_strlit("false");
    reveal_strlit("forall");
    reveal_strlit("let");
    reveal_strlit("in");
    reveal_strlit("end");
    reveal_strlit("match");
    reveal_strlit("with");
    reveal_strlit("lambda");
    reveal_strlit("any");
    reveal_strlit("if");
    reveal_strlit("then");
    reveal_strlit("else");
}

/// `Unknown` as the printer writes it.
pub proof fn lit_unknown(rest: Seq<u8>)
    requires
        breaks_word(rest),
    ensures
        reads("Unknown"@, seq![TokenView::TypId("Unknown"@)], rest),
        plain("Unknown"@),
{
    lemma_keywords();
    reveal_strlit("Unknown");
    reveal_strlit("Unknown");
    assert("Unknown"@ =~= pad(false) + "Unknown"@ + pad(false));
    lemma_padded_word("Unknown"@, false, "Unknown"@, false, rest);
}

/// `Int` as the printer writes it.
pub proof fn lit_int(rest: Seq<u8>)
    requires
        breaks_word(rest),
    ensures
        reads("Int"@, seq![TokenView::TInt], rest),
        plain("Int"@),
{
    lemma_keywords();
    reveal_strlit("Int");
    reveal_strlit("Int");
    assert("Int"@ =~= pad(false) + "Int"@ + pad(false));
    lemma_padded_word("Int"@, false, "Int"@, false, rest);
}

/// `Bool` as the printer writes it.
pub proof fn lit_bool(rest: Seq<u8>)
    requires
        breaks_word(rest),
    ensures
        reads("Bool"@, seq![TokenView::TBool], rest),
        plain("Bool"@),
{
    lemma_keywords();
    reveal_strlit("Bool");
    reveal_strlit("Bool");
    assert("Bool"@ =~= pad(false) + "Bool"@ + pad(false));
    lemma_padded_word("Bool"@, false, "Bool"@, false, rest);
}

/// `Unit` as the printer writes it.
pub proof fn lit_unit(rest: Seq<u8>)
    requires
        breaks_word(rest),
    ensures
        reads("Unit"@, seq![TokenView::TUnit], rest),
        plain("Unit"@),
{
    lemma_keywords();
    reveal_strlit("Unit");
    reveal_strlit("Unit");
    assert("Unit"@ =~= pad(false) + "Unit"@ + pad(false));
    lemma_padded_word("Unit"@, false, "Unit"@, false, rest);
}

/// `null` as the printer writes it.
pub proof fn lit_null(rest: Seq<u8>)
    requires
        breaks_word(rest),
    ensures
        reads("null"@, seq![TokenView::UnitLit], rest),
        plain("null"@),
{
    lemma_keywords();
    reveal_strlit("null");
    reveal_strlit("null");
    assert("null"@ =~= pad(false) + "null"@ + pad(false));
    lemma_padded_word("null"@, false, "null"@, false, rest);
}

/// `true` as the printer writes it.
pub proof fn lit_true(rest: Seq<u8>)
    requires
        breaks_word(rest),
    ensures
        reads("true"@, seq![TokenView::BoolLit(true)], rest),
        plain("true"@),
{
    lemma_keywords();
    reveal_strlit("true");
    reveal_strlit("true");
    assert("true"@ =~= pad(false) + "true"@ + pad(false));
    lemma_padded_word("true"@, false, "true"@, false, rest);
}

/// `false` as the printer writes it.
pub proof fn lit_false(rest: Seq<u8>)
    requires
        breaks_word(rest),
    ensures
        reads("false"@, seq![TokenView::BoolLit(false)], rest),
        plain("false"@),
{
    lemma_keywords();
    reveal_strlit("false");
    reveal_strlit("false");
    assert("false"@ =~= pad(false) + "false"@ + pad(false));
    lemma_padded_word("false"@, false, "false"@, false, rest);
}

/// `forall` as the printer writes it.
pub proof fn lit_forall(rest: Seq<u8>)
    ensures
        reads("forall "@, seq![TokenView::Forall], rest),
        plain("forall "@),
{
    lemma_keywords();
    reveal_strlit("forall ");
    reveal_strlit("forall");
    assert("forall "@ =~= pad(false) + "forall"@ + pad(true));
    lemma_padded_word("forall "@, false, "forall"@, true, rest);
}

/// `let` as the printer writes it.
pub proof fn lit_let(rest: Seq<u8>)
    ensures
        reads("let "@, seq![TokenView::Let], rest),
        plain("let "@),
{
    lemma_keywords();
    reveal_strlit("let ");
    reveal_strlit("let");
    assert("let "@ =~= pad(false) + "let"@ + pad(true));
    lemma_padded_word("let "@, false, "let"@, true, rest);
}

/// `in` as the printer writes it.
pub proof fn lit_in(rest: Seq<u8>)
    ensures
        reads(" in "@, seq![TokenView::In], rest),
        plain(" in "@),
        breaks_word(bytes_of(" in "@) + rest),
{
    lemma_keywords();
    reveal_strlit(" in ");
    reveal_strlit("in");
    assert(" in "@ =~= pad(true) + "in"@ + pad(true));
    lemma_padded_word(" in "@, true, "in"@, true, rest);
}

/// `end` as the printer writes it.
pub proof fn lit_end(rest: Seq<u8>)
    requires
        breaks_word(rest),
    ensures
        reads(" end"@, seq![TokenView::End], rest),
        plain(" end"@),
        breaks_word(bytes_of(" end"@) + rest),
{
    lemma_keywords();
    reveal_strlit(" end");
    reveal_strlit("end");
    assert(" end"@ =~= pad(true) + "end"@ + pad(false));
    lemma_padded_word(" end"@, true, "end"@, false, rest);
}

/// `match` as the printer writes it.
pub proof fn lit_match(rest: Seq<u8>)
    ensures
        reads("match "@, seq![TokenView::Match], rest),
        plain("match "@),
{
    lemma_keywords();
    reveal_strlit("match ");
    reveal_strlit("match");
    assert("match "@ =~= pad(false) + "match"@ + pad(true));
    lemma_padded_word("match "@, false, "match"@, true, rest);
}

/// `with` as the printer writes it.
pub proof fn lit_with(rest: Seq<u8>)
    requires
        breaks_word(rest),
    ensures
        reads(" with"@, seq![TokenView::With], rest),
        plain(" with"@),
        breaks_word(bytes_of(" with"@) + rest),
{
    lemma_keywords();
    reveal_strlit(" with");
    reveal_strlit("with");
    assert(" with"@ =~= pad(true) + "with"@ + pad(false));
    lemma_padded_word(" with"@, true, "with"@, false, rest);
}

/// `lambda` as the printer writes it.
pub proof fn lit_lambda(rest: Seq<u8>)
    ensures
        reads("lambda "@, seq![TokenView::Lambda], rest),
        plain("lambda "@),
{
    lemma_keywords();
    reveal_strlit("lambda ");
    reveal_strlit("lambda");
    assert("lambda "@ =~= pad(false) + "lambda"@ + pad(true));
    lemma_padded_word("lambda "@, false, "lambda"@, true, rest);
}

/// `any` as the printer writes it.
pub proof fn lit_any(rest: Seq<u8>)
    ensures
        reads("any "@, seq![TokenView::Any], rest),
        plain("any "@),
{
    lemma_keywords();
    reveal_strlit("any ");
    reveal_strlit("any");
    assert("any "@ =~= pad(false) + "any"@ + pad(true));
    lemma_padded_word("any "@, false, "any"@, true, rest);
}

/// `if` as the printer writes it.
pub proof fn lit_if(rest: Seq<u8>)
    ensures
        reads("if "@, seq![TokenView::If], rest),
        plain("if "@),
{
    lemma_keywords();
    reveal_strlit("if ");
    reveal_strlit("if");
    assert("if "@ =~= pad(false) + "if"@ + pad(true));
    lemma_padded_word("if "@, false, "if"@, true, rest);
}

/// `then` as the printer writes it.
pub proof fn lit_then(rest: Seq<u8>)
    ensures
        reads(" then "@, seq![TokenView::Then], rest),
        plain(" then "@),
        breaks_word(bytes_of(" then "@) + rest),
{
    lemma_keywords();
    reveal_strlit(" then ");
    reveal_strlit("then");
    assert(" then "@ =~= pad(true) + "then"@ + pad(true));
    lemma_padded_word(" then "@, true, "then"@, true, rest);
}

/// `else` as the printer writes it.
pub proof fn lit_else(rest: Seq<u8>)
    ensures
        reads(" else "@, seq![TokenView::Else], rest),
        plain(" else "@),
        breaks_word(bytes_of(" else "@) + rest),
{
    lemma_keywords();
    reveal_strlit(" else ");
    reveal_strlit("else");
    assert(" else "@ =~= pad(true) + "else"@ + pad(true));
    lemma_padded_word(" else "@, true, "else"@, true, rest);
}

/// `*` as the printer writes it.
pub proof fn lit_star(rest: Seq<u8>)
    ensures
        reads(" * "@, seq![TokenView::Mul], rest),
        plain(" * "@),
        breaks_word(bytes_of(" * "@) + rest),
{
    reveal_strlit(" * ");
    let core = seq![42u8];
    assert(bytes_of(" * "@) =~= bytes_of(pad(true)) + core + bytes_of(pad(true)));
    let after = core + (bytes_of(pad(true)) + rest);
    assert(after[0] == 42);
    assert(after[1] == 32);
    lemma_padded_mark(" * "@, true, core, TokenView::Mul, true, rest);
}

/// `->` as the printer writes it.
pub proof fn lit_arrow(rest: Seq<u8>)
    ensures
        reads(" -> "@, seq![TokenView::Arrow], rest),
        plain(" -> "@),
        breaks_word(bytes_of(" -> "@) + rest),
{
    reveal_strlit(" -> ");
    let core = seq![45u8, 62u8];
    assert(bytes_of(" -> "@) =~= bytes_of(pad(true)) + core + bytes_of(pad(true)));
    let after = core + (bytes_of(pad(true)) + rest);
    assert(after[0] == 45 && after[1] == 62);
    assert(after[2] == 32);
    lemma_padded_mark(" -> "@, true, core, TokenView::Arrow, true, rest);
}

/// `,` as the printer writes it.
pub proof fn lit_comma(rest: Seq<u8>)
    ensures
        reads(", "@, seq![TokenView::Comma], rest),
        plain(", "@),
        breaks_word(bytes_of(", "@) + rest),
{
    reveal_strlit(", ");
    let core = seq![44u8];
    assert(bytes_of(", "@) =~= bytes_of(pad(false)) + core + bytes_of(pad(true)));
    let after = core + (bytes_of(pad(true)) + rest);
    assert(after[0] == 44);
    assert(after[1] == 32);
    lemma_padded_mark(", "@, false, core, TokenView::Comma, true, rest);
}

/// `.` as the printer writes it.
pub proof fn lit_dot(rest: Seq<u8>)
    ensures
        reads(". "@, seq![TokenView::Dot], rest),
        plain(". "@),
        breaks_word(bytes_of(". "@) + rest),
{
    reveal_strlit(". ");
    let core = seq![46u8];
    assert(bytes_of(". "@) =~= bytes_of(pad(false)) + core + bytes_of(pad(true)));
    let after = core + (bytes_of(pad(true)) + rest);
    assert(after[0] == 46);
    assert(after[1] == 32);
    lemma_padded_mark(". "@, false, core, TokenView::Dot, true, rest);
}

/// `(` as the printer writes it.
pub proof fn lit_open(rest: Seq<u8>)
    ensures
        reads("("@, seq![TokenView::LParen], rest),
        plain("("@),
        breaks_word(bytes_of("("@) + rest),
{
    reveal_strlit("(");
    let core = seq![40u8];
    assert(bytes_of("("@) =~= bytes_of(pad(false)) + core + bytes_of(pad(false)));
    let after = core + (bytes_of(pad(false)) + rest);
    assert(after[0] == 40);
    lemma_padded_mark("("@, false, core, TokenView::LParen, false, rest);
}

/// `)` as the printer writes it.
pub proof fn lit_close(rest: Seq<u8>)
    ensures
        reads(")"@, seq![TokenView::RParen], rest),
        plain(")"@),
        breaks_word(bytes_of(")"@) + rest),
{
    reveal_strlit(")");
    let core = seq![41u8];
    assert(bytes_of(")"@) =~= bytes_of(pad(false)) + core + bytes_of(pad(false)));
    let after = core + (bytes_of(pad(false)) + rest);
    assert(after[0] == 41);
    lemma_padded_mark(")"@, false, core, TokenView::RParen, false, rest);
}

/// `:` as the printer writes it.
pub proof fn lit_colon(rest: Seq<u8>)
    ensures
        reads(" : "@, seq![TokenView::Colon], rest),
        plain(" : "@),
        breaks_word(bytes_of(" : "@) + rest),
{
    reveal_strlit(" : ");
    let core = seq![58u8];
    assert(bytes_of(" : "@) =~= bytes_of(pad(true)) + core + bytes_of(pad(true)));
    let after = core + (bytes_of(pad(true)) + rest);
    assert(after[0] == 58);
    assert(after[1] == 32);
    lemma_padded_mark(" : "@, true, core, TokenView::Colon, true, rest);
}

/// `=` as the printer writes it.
pub proof fn lit_equal(rest: Seq<u8>)
    ensures
        reads(" = "@, seq![TokenView::Equal], rest),
        plain(" = "@),
        breaks_word(bytes_of(" = "@) + rest),
{
    reveal_strlit(" = ");
    let core = seq![61u8];
    assert(bytes_of(" = "@) =~= bytes_of(pad(true)) + core + bytes_of(pad(true)));
    let after = core + (bytes_of(pad(true)) + rest);
    assert(after[0] == 61);
    assert(after[1] == 32);
    lemma_padded_mark(" = "@, true, core, TokenView::Equal, true, rest);
}

/// `[` as the printer writes it.
pub proof fn lit_open_bracket(rest: Seq<u8>)
    ensures
        reads("["@, seq![TokenView::LBrack], rest),
        plain("["@),
        breaks_word(bytes_of("["@) + rest),
{
    reveal_strlit("[");
    let core = seq![91u8];
    assert(bytes_of("["@) =~= bytes_of(pad(false)) + core + bytes_of(pad(false)));
    let after = core + (bytes_of(pad(false)) + rest);
    assert(after[0] == 91);
    lemma_padded_mark("["@, false, core, TokenView::LBrack, false, rest);
}

/// `]` as the printer writes it.
pub proof fn lit_close_bracket(rest: Seq<u8>)
    ensures
        reads("]"@, seq![TokenView::RBrack], rest),
        plain("]"@),
        breaks_word(bytes_of("]"@) + rest),
{
    reveal_strlit("]");
    let core = seq![93u8];
    assert(bytes_of("]"@) =~= bytes_of(pad(false)) + core + bytes_of(pad(false)));
    let after = core + (bytes_of(pad(false)) + rest);
    assert(after[0] == 93);
    lemma_padded_mark("]"@, false, core, TokenView::RBrack, false, rest);
}

/// `|` as the printer writes it.
pub proof fn lit_bar(rest: Seq<u8>)
    ensures
        reads(" | "@, seq![TokenView::Bar], rest),
        plain(" | "@),
        breaks_word(bytes_of(" | "@) + rest),
{
    reveal_strlit(" | ");
    let core = seq![124u8];
    assert(bytes_of(" | "@) =~= bytes_of(pad(true)) + core + bytes_of(pad(true)));
    let after = core + (bytes_of(pad(true)) + rest);
    assert(after[0] == 124);
    assert(after[1] == 32);
    lemma_padded_mark(" | "@, true, core, TokenView::Bar, true, rest);
}

/// `=>` as the printer writes it.
pub proof fn lit_double_arrow(rest: Seq<u8>)
    ensures
        reads(" => "@, seq![TokenView::DoubleArrow], rest),
        plain(" => "@),
        breaks_word(bytes_of(" => "@) + rest),
{
    reveal_strlit(" => ");
    let core = seq![61u8, 62u8];
    assert(bytes_of(" => "@) =~= bytes_of(pad(true)) + core + bytes_of(pad(true)));
    let after = core + (bytes_of(pad(true)) + rest);
    assert(after[0] == 61 && after[1] == 62);
    assert(after[2] == 32);
    lemma_padded_mark(" => "@, true, core, TokenView::DoubleArrow, true, rest);
}

/// The blank between two pieces.
pub proof fn lit_blank(rest: Seq<u8>)
    ensures
        reads(" "@, Seq::empty(), rest),
        plain(" "@),
        breaks_word(bytes_of(" "@) + rest),
        bytes_of(" "@) == seq![32u8],
{
    reveal_strlit(" ");
    assert(bytes_of(" "@) =~= seq![32u8]);
    lemma_space(rest);
}

} // verus!
