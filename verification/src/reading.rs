//! How the tokenizer reads a text that is put together from pieces: the
//! lemmas from which the laws of printing and reading back are proved.

use vstd::prelude::*;
use vstd::utf8::is_ascii_chars;
use crate::ascii::{
    byte, bytes_of, is_digit, is_lower, is_space, is_upper, is_word, lemma_encode_ascii,
};
use crate::ast::Constant;
use crate::decimal::{lemma_numeral, numeral};
use crate::grammar::{
    Lexeme, Scan, TokenView, at, comment_len, int_literal, lemma_comment_close_is,
    lemma_digit_len_is, lemma_scan_bounds, lemma_trivia_len, lemma_word_len_is, lexeme, scan,
    symbol, tokens, trivia_len, word_token,
};

verus! {

/// The tokens `front`, then those read after them, if reading went through.
pub open spec fn prepend(front: Seq<TokenView>, read: Option<Seq<TokenView>>) -> Option<
    Seq<TokenView>,
> {
    match read {
        Some(rest) => Some(front + rest),
        None => None,
    }
}

/// Whatever stands before `rest`, a word ends there: `rest` is empty or
/// begins with a byte that no word holds.
pub open spec fn breaks_word(rest: Seq<u8>) -> bool {
    rest.len() == 0 || !is_word(rest[0])
}

/// Before `rest`, the bytes `piece` read as the tokens `toks` and nothing
/// else.
pub open spec fn reads_bytes(piece: Seq<u8>, toks: Seq<TokenView>, rest: Seq<u8>) -> bool {
    tokens(piece + rest) == prepend(toks, tokens(rest))
}

/// Before `rest`, the ASCII text `piece` reads as the tokens `toks` and
/// nothing else.
pub open spec fn reads(piece: Seq<char>, toks: Seq<TokenView>, rest: Seq<u8>) -> bool {
    is_ascii_chars(piece) && reads_bytes(bytes_of(piece), toks, rest)
}

/// The text holds no slash, so it can stand in a comment.
pub open spec fn plain(text: Seq<char>) -> bool {
    forall|i: int| 0 <= i < text.len() ==> #[trigger] text[i] != '/'
}

/// A word as the grammar has it: a letter, then letters, digits and
/// underscores, all of them ASCII.
pub open spec fn is_word_text(w: Seq<char>) -> bool {
    &&& w.len() > 0
    &&& is_ascii_chars(w)
    &&& is_lower(byte(w[0])) || is_upper(byte(w[0]))
    &&& forall|i: int| 0 <= i < w.len() ==> is_word(byte(#[trigger] w[i]))
}

/// The bytes of a text made of two parts are the bytes of the parts.
pub proof fn lemma_bytes_of_add(a: Seq<char>, b: Seq<char>)
    ensures
        bytes_of(a + b) == bytes_of(a) + bytes_of(b),
{
    assert(bytes_of(a + b) =~= bytes_of(a) + bytes_of(b));
}

/// Two pieces that read one after the other read as one piece.
pub proof fn lemma_then(
    a: Seq<char>,
    ta: Seq<TokenView>,
    b: Seq<char>,
    tb: Seq<TokenView>,
    rest: Seq<u8>,
)
    requires
        reads(b, tb, rest),
        reads(a, ta, bytes_of(b) + rest),
    ensures
        reads(a + b, ta + tb, rest),
        plain(a) && plain(b) ==> plain(a + b),
{
    assert(bytes_of(a + b) + rest =~= bytes_of(a) + (bytes_of(b) + rest));
    assert forall|i: int| 0 <= i < (a + b).len() implies '\0' <= #[trigger] (a + b)[i]
        <= '\u{7f}' by {
        if i < a.len() {
            assert((a + b)[i] == a[i]);
        } else {
            assert((a + b)[i] == b[i - a.len()]);
        }
    }
    if plain(a) && plain(b) {
        assert forall|i: int| 0 <= i < (a + b).len() implies #[trigger] (a + b)[i] != '/' by {
            if i < a.len() {
                assert((a + b)[i] == a[i]);
            } else {
                assert((a + b)[i] == b[i - a.len()]);
            }
        }
    }
    match tokens(rest) {
        Some(r) => assert(ta + (tb + r) =~= (ta + tb) + r),
        None => {},
    }
}

/// A piece that yields no token and is followed by a piece that reads.
pub proof fn lemma_empty_reads(rest: Seq<u8>)
    ensures
        reads(Seq::<char>::empty(), Seq::<TokenView>::empty(), rest),
        plain(Seq::<char>::empty()),
{
    assert(bytes_of(Seq::<char>::empty()) + rest =~= rest);
    match tokens(rest) {
        Some(r) => assert(Seq::<TokenView>::empty() + r =~= r),
        None => {},
    }
}

/// Blanks and comments before a text do not change what is read.
pub proof fn lemma_trivia_front(w: Seq<u8>, rest: Seq<u8>)
    requires
        trivia_len(w + rest) == w.len() + trivia_len(rest),
    ensures
        tokens(w + rest) == tokens(rest),
{
    let s = w + rest;
    let k = w.len();
    let t = trivia_len(rest);
    lemma_trivia_len(rest);
    lemma_scan_bounds(rest);
    lemma_scan_bounds(s);
    if t < rest.len() {
        assert(s.skip((k + t) as int) =~= rest.skip(t as int));
        match scan(rest) {
            Scan::Token { token, start, end } => {
                assert(s.skip((k + end) as int) =~= rest.skip(end as int));
            },
            _ => {},
        }
    }
}

/// A blank of any kind before a text does not change what is read.
pub proof fn lemma_blank(blank: u8, rest: Seq<u8>)
    requires
        is_space(blank),
    ensures
        tokens(seq![blank] + rest) == tokens(rest),
{
    let s = seq![blank] + rest;
    assert(s.skip(1) =~= rest);
    lemma_trivia_front(seq![blank], rest);
}

/// A space before a text does not change what is read.
pub proof fn lemma_space(rest: Seq<u8>)
    ensures
        tokens(seq![32u8] + rest) == tokens(rest),
        reads_bytes(seq![32u8], Seq::empty(), rest),
        breaks_word(seq![32u8] + rest),
{
    lemma_blank(32, rest);
    match tokens(rest) {
        Some(r) => assert(Seq::<TokenView>::empty() + r =~= r),
        None => {},
    }
}

/// A comment before a text does not change what is read. Its body is any
/// text in which no star stands right before a slash.
pub proof fn lemma_comment(body: Seq<u8>, rest: Seq<u8>)
    requires
        forall|i: int|
            0 <= i < body.len() - 1 ==> !(#[trigger] body[i] == byte('*') && body[i + 1] == byte(
                '/',
            )),
    ensures
        tokens(seq![byte('/'), byte('*')] + body + seq![byte('*'), byte('/')] + rest) == tokens(
            rest,
        ),
{
    let w = seq![47u8, 42u8] + body + seq![42u8, 47u8];
    let s = w + rest;
    let j: int = body.len() as int + 2;
    assert(s[0] == 47 && s[1] == 42);
    assert(s[j] == 42 && s[j + 1] == 47);
    assert forall|k: int| 2 <= k < j implies !(at(s, k, '*') && at(s, k + 1, '/')) by {
        assert(s[k] == body[k - 2]);
        if k + 1 < j {
            assert(s[k + 1] == body[k - 1]);
        }
    }
    lemma_comment_close_is(s, 2, j);
    assert(comment_len(s) == w.len());
    assert(s.skip(w.len() as int) =~= rest);
    lemma_trivia_front(w, rest);
}

/// A text that begins with a token reads as that token and then the rest.
pub proof fn lemma_front(s: Seq<u8>, token: TokenView, n: nat)
    requires
        s.len() > 0,
        !is_space(s[0]),
        s[0] != 47,
        lexeme(s) == Lexeme::Token(token, n),
    ensures
        tokens(s) == prepend(seq![token], tokens(s.skip(n as int))),
{
    assert(s.skip(0) =~= s);
    assert(trivia_len(s) == 0);
}

/// A word reads as its token wherever a word cannot go on.
pub proof fn lemma_word(w: Seq<char>, rest: Seq<u8>)
    requires
        is_word_text(w),
        breaks_word(rest),
    ensures
        reads(w, seq![word_token(w)], rest),
        plain(w),
{
    let b = bytes_of(w);
    let s = b + rest;
    let n = w.len();
    lemma_encode_ascii(w);
    assert forall|i: int| 0 <= i < n implies is_word(#[trigger] s[i]) by {
        assert(s[i] == byte(w[i]));
    }
    lemma_word_len_is(s, n);
    assert(s.take(n as int) =~= b);
    assert(s[0] == byte(w[0]));
    lemma_front(s, word_token(w), n);
    assert(s.skip(n as int) =~= rest);
    assert forall|i: int| 0 <= i < n implies #[trigger] w[i] != '/' by {
        assert(is_word(byte(w[i])));
    }
}

/// One blank, or nothing.
pub open spec fn pad(blank: bool) -> Seq<char> {
    if blank {
        seq![' ']
    } else {
        Seq::empty()
    }
}

/// A word with a blank before it, after it, both or neither reads as the
/// word's token.
pub proof fn lemma_padded_word(lit: Seq<char>, lead: bool, w: Seq<char>, trail: bool, rest: Seq<u8>)
    requires
        lit == pad(lead) + w + pad(trail),
        is_word_text(w),
        trail || breaks_word(rest),
    ensures
        reads(lit, seq![word_token(w)], rest),
        plain(lit),
        lead ==> breaks_word(bytes_of(lit) + rest),
{
    assert forall|i: int| 0 <= i < lit.len() implies '\0' <= #[trigger] lit[i] <= '\u{7f}'
        && lit[i] != '/' by {
        let k = i - pad(lead).len();
        if 0 <= k < w.len() {
            assert(lit[i] == w[k]);
            assert(is_word(byte(w[k])));
        }
    }
    assert(bytes_of(lit) =~= bytes_of(pad(lead)) + bytes_of(w) + bytes_of(pad(trail)));
    let after = bytes_of(pad(trail)) + rest;
    if trail {
        assert(after =~= seq![32u8] + rest);
        lemma_space(rest);
    } else {
        assert(after =~= rest);
    }
    lemma_word(w, after);
    let mid = bytes_of(w) + after;
    if lead {
        assert(bytes_of(pad(lead)) =~= seq![32u8]);
        assert(bytes_of(lit) + rest =~= seq![32u8] + mid);
        lemma_space(mid);
    } else {
        assert(bytes_of(pad(lead)) =~= Seq::<u8>::empty());
        assert(bytes_of(lit) + rest =~= mid);
    }
}

/// A punctuation mark or operator with a blank before it, after it, both or
/// neither reads as its token.
pub proof fn lemma_padded_mark(
    lit: Seq<char>,
    lead: bool,
    core: Seq<u8>,
    token: TokenView,
    trail: bool,
    rest: Seq<u8>,
)
    requires
        is_ascii_chars(lit),
        bytes_of(lit) == bytes_of(pad(lead)) + core + bytes_of(pad(trail)),
        core.len() > 0,
        !is_space(core[0]) && !is_word(core[0]) && core[0] != 47 && core[0] != 126,
        symbol(core + (bytes_of(pad(trail)) + rest)) == Lexeme::Token(token, core.len()),
    ensures
        reads(lit, seq![token], rest),
        breaks_word(bytes_of(lit) + rest),
{
    let after = bytes_of(pad(trail)) + rest;
    if trail {
        assert(after =~= seq![32u8] + rest);
        lemma_space(rest);
    } else {
        assert(after =~= rest);
    }
    let mid = core + after;
    assert(mid[0] == core[0]);
    lemma_front(mid, token, core.len());
    assert(mid.skip(core.len() as int) =~= after);
    if lead {
        assert(bytes_of(pad(lead)) =~= seq![32u8]);
        assert(bytes_of(lit) + rest =~= seq![32u8] + mid);
        lemma_space(mid);
    } else {
        assert(bytes_of(pad(lead)) =~= Seq::<u8>::empty());
        assert(bytes_of(lit) + rest =~= mid);
    }
}

/// An integer constant reads as its literal wherever a word cannot go on.
pub proof fn lemma_integer(i: i64, rest: Seq<u8>)
    requires
        breaks_word(rest),
    ensures
        reads(Constant::Integer(i).text(), seq![TokenView::IntLit(i)], rest),
{
    let text = Constant::Integer(i).text();
    let s = bytes_of(text) + rest;
    if i < 0 {
        reveal_strlit("~");
        let m = (-i) as nat;
        let d = bytes_of(numeral(m));
        lemma_numeral(m);
        assert(bytes_of(text) =~= seq![126u8] + d);
        assert(s[0] == 126);
        assert(s[1] == d[0]);
        let t = s.skip(1);
        assert(t =~= d + rest);
        assert forall|k: int| 0 <= k < d.len() implies is_digit(#[trigger] t[k]) by {
            assert(t[k] == d[k]);
        }
        lemma_digit_len_is(t, d.len());
        let n = 1 + d.len();
        assert(s.take(n as int).skip(1) =~= d);
        assert(int_literal(s.take(n as int)) == Some(i));
        lemma_front(s, TokenView::IntLit(i), n);
        assert(s.skip(n as int) =~= rest);
        assert forall|k: int| 0 <= k < text.len() implies '\0' <= #[trigger] text[k] <= '\u{7f}' by {
            if k > 0 {
                assert(text[k] == numeral(m)[k - 1]);
            }
        }
    } else {
        let d = bytes_of(text);
        lemma_numeral(i as nat);
        assert(s.skip(0) =~= s);
        assert forall|k: int| 0 <= k < d.len() implies is_digit(#[trigger] s[k]) by {
            assert(s[k] == d[k]);
        }
        lemma_digit_len_is(s, d.len());
        assert(s[0] == d[0]);
        assert(s.take(d.len() as int) =~= d);
        assert(int_literal(d) == Some(i));
        lemma_front(s, TokenView::IntLit(i), d.len());
        assert(s.skip(d.len() as int) =~= rest);
    }
}

/// The type slot of an expression, a blank and a comment, yields no token.
pub proof fn lemma_slot(typ: Seq<char>, rest: Seq<u8>)
    requires
        is_ascii_chars(typ),
        plain(typ),
    ensures
        reads(" /*"@ + typ + "*/"@, Seq::empty(), rest),
        breaks_word(bytes_of(" /*"@ + typ + "*/"@) + rest),
{
    reveal_strlit(" /*");
    reveal_strlit("*/");
    let text = " /*"@ + typ + "*/"@;
    let body = bytes_of(typ);
    let comment = seq![47u8, 42u8] + body + seq![42u8, 47u8];
    assert(bytes_of(text) + rest =~= seq![32u8] + (comment + rest));
    assert forall|i: int| 0 <= i < body.len() implies #[trigger] body[i] != 47 by {
        let c = typ[i];
        assert('\0' <= c <= '\u{7f}' && c != '/');
    }
    lemma_comment(body, rest);
    lemma_space(comment + rest);
    assert forall|i: int| 0 <= i < text.len() implies '\0' <= #[trigger] text[i] <= '\u{7f}' by {
        if 3 <= i < 3 + typ.len() {
            assert(text[i] == typ[i - 3]);
        }
    }
    match tokens(rest) {
        Some(r) => assert(Seq::<TokenView>::empty() + r =~= r),
        None => {},
    }
}

} // verus!
