//! The single entry point: a line of text to its value.

use crate::env::{EnvView, RispEnv};
use crate::eval::{eval, evaluates, Outcome};
use crate::host::Host;
use crate::numeral::is_numeral;
use crate::lexer::{is_blank, lemma_blank_has_no_tokens, texts, tokenize, tokenize_spec};
use crate::parser::{
    lemma_single_form_parses, nesting, paren_step, parse_at, parse_spec, read_numbers, spans_form,
    token_views, TokenView,
};
use crate::types::{result_view, Exp, RispErr, RispExp};
use vstd::prelude::*;

verus! {

/// A depth for a front end that has no reason for another.
pub const DEFAULT_DEPTH: usize = 2048;

/// The tokens have the texts `words`, in order, and those that are numerals
/// have a value with them.
pub open spec fn read_as(tokens: Seq<TokenView>, words: Seq<Seq<char>>) -> bool {
    &&& tokens.len() == words.len()
    &&& forall|i: int| 0 <= i < tokens.len() ==> (#[trigger] tokens[i]).text == words[i]
    &&& forall|i: int|
        0 <= i < tokens.len() ==> ((#[trigger] tokens[i]).number is Some <==> is_numeral(words[i]))
}

/// What a line gives. A line without tokens gives nothing and changes
/// nothing. Otherwise the first form of the line is read, with the host
/// saying which numbers the numerals are, and evaluated in the root scope: the
/// outcome is the parser's error or what the evaluation gives.
pub open spec fn parse_eval_post<H: Host>(
    text: Seq<char>,
    pre: EnvView,
    depth: nat,
    out: Option<Outcome>,
    post: EnvView,
) -> bool {
    if tokenize_spec(text).len() == 0 {
        out is None && post == pre
    } else {
        exists|tokens: Seq<TokenView>| #[trigger]
            read_as(tokens, tokenize_spec(text)) && match parse_spec(tokens, 0) {
                Err(why) => post == pre && out == Some(Err::<Exp, Seq<char>>(why)),
                Ok((e, _)) => match out {
                    Some(o) => evaluates::<H>(e, 0, pre, depth, o, post),
                    None => false,
                },
            }
    }
}

/// The tokens with the texts `words`, none of them read as a number.
pub open spec fn plain_tokens(words: Seq<Seq<char>>) -> Seq<TokenView> {
    Seq::new(words.len(), |i: int| TokenView { text: words[i], number: None })
}

/// The words are one balanced form, from the first to the last.
pub open spec fn is_one_form(words: Seq<Seq<char>>) -> bool {
    spans_form(plain_tokens(words), 0, words.len())
}

proof fn lemma_nesting_goes_by_the_texts(tokens: Seq<TokenView>, words: Seq<Seq<char>>, n: nat)
    requires
        read_as(tokens, words),
    ensures
        nesting(tokens, n) == nesting(plain_tokens(words), n),
    decreases n,
{
    if 0 < n <= tokens.len() {
        lemma_nesting_goes_by_the_texts(tokens, words, (n - 1) as nat);
        assert(paren_step(tokens[n - 1]) == paren_step(plain_tokens(words)[n - 1]));
    }
}

/// Text that is one balanced form is read whole, whichever of its tokens
/// the host takes for numbers: the parser succeeds and leaves no token.
pub proof fn lemma_balanced_text_parses(text: Seq<char>, tokens: Seq<TokenView>)
    requires
        read_as(tokens, tokenize_spec(text)),
        is_one_form(tokenize_spec(text)),
    ensures
        parse_spec(tokens, 0) matches Ok((_, next)) && next == tokens.len(),
{
    let words = tokenize_spec(text);
    lemma_nesting_goes_by_the_texts(tokens, words, 0);
    lemma_nesting_goes_by_the_texts(tokens, words, tokens.len());
    assert forall|n: nat| 0 < n < tokens.len() implies #[trigger] nesting(tokens, n) > nesting(
        tokens,
        0,
    ) by {
        lemma_nesting_goes_by_the_texts(tokens, words, n);
        assert(nesting(plain_tokens(words), n) > nesting(plain_tokens(words), 0));
    }
    lemma_single_form_parses(tokens);
}

/// A line of nothing but separators and comments gives nothing and changes
/// nothing.
pub proof fn lemma_blank_line_gives_nothing<H: Host>(
    text: Seq<char>,
    pre: EnvView,
    depth: nat,
    out: Option<Outcome>,
    post: EnvView,
)
    requires
        is_blank(text),
        parse_eval_post::<H>(text, pre, depth, out, post),
    ensures
        out is None,
        post == pre,
{
    lemma_blank_has_no_tokens(text);
}

pub open spec fn answer_view(r: Option<Result<RispExp, RispErr>>) -> Option<Outcome> {
    match r {
        Some(res) => Some(result_view(res)),
        None => None,
    }
}

/// Reads the first form of `expr` and evaluates it in the root scope, at
/// most `depth` levels deep. Returns `None` for a line without tokens.
pub fn parse_eval<H: Host>(expr: String, env: &mut RispEnv, host: &mut H, depth: usize) -> (r:
    Option<Result<RispExp, RispErr>>)
    requires
        old(env).wf(),
    ensures
        final(env).wf(),
        parse_eval_post::<H>(expr@, old(env)@, depth as nat, answer_view(r), final(env)@),
{
    let words = tokenize(expr);
    if words.len() < 1 {
        return None;
    }
    let tokens = read_numbers(words, host);
    proof {
        assert(read_as(token_views(tokens@), tokenize_spec(expr@))) by {
            assert forall|i: int| 0 <= i < tokens@.len() implies (#[trigger] token_views(
                tokens@,
            )[i]).text == tokenize_spec(expr@)[i] by {
                assert(tokens@[i].text@ == words@[i]@);
                assert(texts(words@)[i] == words@[i]@);
            }
            assert forall|i: int| 0 <= i < tokens@.len() implies ((#[trigger] token_views(
                tokens@,
            )[i]).number is Some <==> is_numeral(tokenize_spec(expr@)[i])) by {
                assert(tokens@[i].number is Some <==> is_numeral(words@[i]@));
                assert(texts(words@)[i] == words@[i]@);
            }
        }
    }
    match parse_at(tokens.as_slice(), 0) {
        Err(e) => Some(Err(e)),
        Ok((parsed_exp, _)) => Some(eval(&parsed_exp, env, 0, host, depth)),
    }
}

} // verus!
