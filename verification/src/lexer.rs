//! The tokenizer: text to a flat sequence of tokens.

use crate::types::string_push;
use vstd::prelude::*;

verus! {

/// What the tokenizer knows after a prefix of the text: the tokens that are
/// complete, the token being collected, and whether it stands inside a quoted
/// string or a comment.
pub struct LexState {
    pub tokens: Seq<Seq<char>>,
    pub pending: Seq<char>,
    pub in_quote: bool,
    pub in_comment: bool,
}

pub open spec fn is_separator(c: char) -> bool {
    c == ' ' || c == '\n'
}

pub open spec fn is_comment_marker(c: char) -> bool {
    c == ';' || c == '#'
}

pub open spec fn is_paren(c: char) -> bool {
    c == '(' || c == ')'
}

/// `tokens` with `pending` added as one more token, unless it is empty.
pub open spec fn flushed(tokens: Seq<Seq<char>>, pending: Seq<char>) -> Seq<Seq<char>> {
    if pending.len() > 0 {
        tokens.push(pending)
    } else {
        tokens
    }
}

/// One character's effect. A comment runs to the next newline and leaves the
/// pending token as it is. A quote opens or closes a string, whose token keeps
/// both quotes. A parenthesis is a token of its own, a separator ends the
/// pending token, and any other character is added to it.
pub open spec fn lex_step(st: LexState, c: char) -> LexState {
    if st.in_comment {
        LexState { tokens: st.tokens, pending: st.pending, in_quote: st.in_quote, in_comment: c != '\n' }
    } else if is_comment_marker(c) && !st.in_quote {
        LexState { tokens: st.tokens, pending: st.pending, in_quote: false, in_comment: true }
    } else if c == '"' && st.in_quote {
        LexState {
            tokens: st.tokens.push(st.pending.push('"')),
            pending: Seq::empty(),
            in_quote: false,
            in_comment: false,
        }
    } else if c == '"' {
        LexState {
            tokens: flushed(st.tokens, st.pending),
            pending: seq!['"'],
            in_quote: true,
            in_comment: false,
        }
    } else if st.in_quote {
        LexState { tokens: st.tokens, pending: st.pending.push(c), in_quote: true, in_comment: false }
    } else if is_paren(c) {
        LexState {
            tokens: flushed(st.tokens, st.pending).push(seq![c]),
            pending: Seq::empty(),
            in_quote: false,
            in_comment: false,
        }
    } else if is_separator(c) {
        LexState {
            tokens: flushed(st.tokens, st.pending),
            pending: Seq::empty(),
            in_quote: false,
            in_comment: false,
        }
    } else {
        LexState { tokens: st.tokens, pending: st.pending.push(c), in_quote: false, in_comment: false }
    }
}

pub open spec fn lex_start() -> LexState {
    LexState { tokens: Seq::empty(), pending: Seq::empty(), in_quote: false, in_comment: false }
}

/// The state after all of `text`.
pub open spec fn lex(text: Seq<char>) -> LexState
    decreases text.len(),
{
    if text.len() == 0 {
        lex_start()
    } else {
        lex_step(lex(text.drop_last()), text.last())
    }
}

/// The tokens of `text`: what was completed, and what was still pending at
/// the end.
pub open spec fn tokenize_spec(text: Seq<char>) -> Seq<Seq<char>> {
    flushed(lex(text).tokens, lex(text).pending)
}

/// The texts of `v`, in order.
pub open spec fn texts(v: Seq<String>) -> Seq<Seq<char>> {
    Seq::new(v.len(), |i: int| v[i]@)
}

/// Text in which every character is a separator, a comment marker, or part
/// of a comment.
pub open spec fn is_blank(text: Seq<char>) -> bool {
    forall|i: int|
        0 <= i < text.len() ==> (#[trigger] lex(text.take(i))).in_comment || is_separator(text[i])
            || is_comment_marker(text[i])
}

proof fn lemma_blank_prefix(text: Seq<char>, n: int)
    requires
        is_blank(text),
        0 <= n <= text.len(),
    ensures
        lex(text.take(n)).tokens.len() == 0,
        lex(text.take(n)).pending.len() == 0,
        !lex(text.take(n)).in_quote,
    decreases n,
{
    if n > 0 {
        lemma_blank_prefix(text, n - 1);
        assert(text.take(n).drop_last() =~= text.take(n - 1));
        assert(text.take(n).last() == text[n - 1]);
        assert(lex(text.take(n - 1)).in_comment || is_separator(text[n - 1]) || is_comment_marker(
            text[n - 1],
        ));
    }
}

/// Blank text has no tokens.
pub proof fn lemma_blank_has_no_tokens(text: Seq<char>)
    requires
        is_blank(text),
    ensures
        tokenize_spec(text).len() == 0,
{
    lemma_blank_prefix(text, text.len() as int);
    assert(text.take(text.len() as int) =~= text);
}

/// A character that only ever stands inside a word.
pub open spec fn is_plain(c: char) -> bool {
    !is_separator(c) && !is_paren(c) && !is_comment_marker(c) && c != '"'
}

pub open spec fn is_word(t: Seq<char>) -> bool {
    forall|i: int| 0 <= i < t.len() ==> is_plain(#[trigger] t[i])
}

/// What a token can be: a string, which begins with a quote; a parenthesis
/// alone; or a word of plain characters.
pub open spec fn is_token(t: Seq<char>) -> bool {
    t.len() > 0 && (t[0] == '"' || t == seq!['('] || t == seq![')'] || is_word(t))
}

proof fn lemma_lex_shapes(text: Seq<char>)
    ensures
        forall|i: int| 0 <= i < lex(text).tokens.len() ==> is_token(#[trigger] lex(text).tokens[i]),
        lex(text).in_quote ==> lex(text).pending.len() > 0 && lex(text).pending[0] == '"'
            && !lex(text).in_comment,
        !lex(text).in_quote ==> is_word(lex(text).pending),
    decreases text.len(),
{
    if text.len() > 0 {
        let before = lex(text.drop_last());
        let c = text.last();
        lemma_lex_shapes(text.drop_last());
        let after = lex_step(before, c);
        assert(after == lex(text));
        assert forall|i: int| 0 <= i < after.tokens.len() implies is_token(
            #[trigger] after.tokens[i],
        ) by {
            if i < before.tokens.len() {
                assert(after.tokens[i] == before.tokens[i]);
            }
        }
    }
}

/// Every token is a string, a parenthesis alone, or a word: a parenthesis
/// that is not in a string is never part of a longer token, and a word holds
/// no separator, quote or comment marker.
pub proof fn lemma_tokens_are_shaped(text: Seq<char>)
    ensures
        forall|i: int| 0 <= i < tokenize_spec(text).len() ==> is_token(#[trigger] tokenize_spec(text)[i]),
{
    lemma_lex_shapes(text);
}

fn flush(tokens: &mut Vec<String>, pending: String)
    ensures
        texts(final(tokens)@) == flushed(texts(old(tokens)@), pending@),
{
    if !pending.as_str().is_empty() {
        tokens.push(pending);
        assert(texts(tokens@) =~= texts(old(tokens)@).push(pending@));
    }
}

/// Splits `expr` into tokens. Never fails: a string that is not closed is a
/// token without its closing quote.
pub fn tokenize(expr: String) -> (tokens: Vec<String>)
    ensures
        texts(tokens@) == tokenize_spec(expr@),
{
    let mut tokens: Vec<String> = Vec::new();
    let mut pending = String::new();
    let mut in_quote = false;
    let mut in_comment = false;
    assert(texts(tokens@) =~= Seq::<Seq<char>>::empty());
    assert(expr@.take(0) =~= Seq::<char>::empty());
    for c in it: expr.as_str().chars()
        invariant
            it.seq() == expr@,
            texts(tokens@) == lex(expr@.take(it.index() as int)).tokens,
            pending@ == lex(expr@.take(it.index() as int)).pending,
            in_quote == lex(expr@.take(it.index() as int)).in_quote,
            in_comment == lex(expr@.take(it.index() as int)).in_comment,
    {
        proof {
            let n = it.index() as int;
            assert(expr@.take(n + 1).drop_last() =~= expr@.take(n));
            assert(expr@.take(n + 1).last() == c);
        }
        if in_comment {
            in_comment = c != '\n';
        } else if (c == ';' || c == '#') && !in_quote {
            in_comment = true;
        } else if c == '"' && in_quote {
            string_push(&mut pending, '"');
            let ghost before = texts(tokens@);
            tokens.push(pending);
            assert(texts(tokens@) =~= before.push(pending@));
            in_quote = false;
            pending = String::new();
        } else if c == '"' {
            in_quote = true;
            flush(&mut tokens, pending);
            pending = String::new();
            string_push(&mut pending, '"');
            assert(pending@ =~= seq!['"']);
        } else if in_quote {
            string_push(&mut pending, c);
        } else if c == '(' || c == ')' {
            flush(&mut tokens, pending);
            pending = String::new();
            let mut paren = String::new();
            string_push(&mut paren, c);
            let ghost before = texts(tokens@);
            tokens.push(paren);
            assert(paren@ =~= seq![c]);
            assert(texts(tokens@) =~= before.push(paren@));
        } else if c == ' ' || c == '\n' {
            flush(&mut tokens, pending);
            pending = String::new();
        } else {
            string_push(&mut pending, c);
        }
    }
    assert(expr@.take(expr@.len() as int) =~= expr@);
    flush(&mut tokens, pending);
    tokens
}

} // verus!
