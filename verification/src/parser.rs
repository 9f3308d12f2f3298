//! The parser: a token sequence to one expression tree per form.

use crate::host::Host;
use crate::numeral::{is_numeral, is_numeral_text};
use crate::text::{reason, same_text};
use crate::types::{lemma_list_view, lemma_views_push, string_push, views, Exp, RispErr, RispExp};
use vstd::prelude::*;
use vstd::slice::slice_subrange;

verus! {

/// A token and, for a numeral, the number it denotes.
#[derive(Debug, PartialEq)]
pub struct Token {
    pub text: String,
    pub number: Option<u64>,
}

pub struct TokenView {
    pub text: Seq<char>,
    pub number: Option<u64>,
}

impl View for Token {
    type V = TokenView;

    open spec fn view(&self) -> TokenView {
        TokenView { text: self.text@, number: self.number }
    }
}

pub open spec fn token_views(tokens: Seq<Token>) -> Seq<TokenView> {
    Seq::new(tokens.len(), |i: int| tokens[i]@)
}

pub open spec fn is_open(t: TokenView) -> bool {
    t.text == seq!['(']
}

pub open spec fn is_close(t: TokenView) -> bool {
    t.text == seq![')']
}

/// `text` without its first and its last character: a string token without
/// its quotes.
pub open spec fn unquoted(text: Seq<char>) -> Seq<char> {
    if text.len() >= 2 {
        text.subrange(1, text.len() - 1)
    } else {
        Seq::empty()
    }
}

/// What a token that is no parenthesis stands for: a boolean, a string if it
/// begins with a quote, a number if it is a numeral and has its value with
/// it, and a symbol otherwise.
pub open spec fn atom_spec(t: TokenView) -> Exp {
    if t.text == "true"@ {
        Exp::Bool(true)
    } else if t.text == "false"@ {
        Exp::Bool(false)
    } else if t.text.len() > 0 && t.text[0] == '"' {
        Exp::Str(unquoted(t.text))
    } else if is_numeral(t.text) && t.number is Some {
        Exp::Number(t.number->Some_0)
    } else {
        Exp::Symbol(t.text)
    }
}

/// The form that begins at `pos`, with the position after it; or the reason
/// why there is none.
pub open spec fn parse_spec(tokens: Seq<TokenView>, pos: nat) -> Result<(Exp, nat), Seq<char>>
    decreases tokens.len() - pos, 0nat,
{
    if pos >= tokens.len() {
        Err("could not get token"@)
    } else if is_open(tokens[pos as int]) {
        read_seq_spec(tokens, pos + 1, Seq::empty())
    } else if is_close(tokens[pos as int]) {
        Err("unexpected closing parenthesis"@)
    } else {
        Ok((atom_spec(tokens[pos as int]), pos + 1))
    }
}

/// The list whose first items are `items` and whose other items are the forms
/// from `pos` to the closing parenthesis, with the position after it.
///
/// A form ends after where it began (`lemma_parse_advances`), so the last
/// branch is never taken: it is there for the definition to be well founded.
pub open spec fn read_seq_spec(tokens: Seq<TokenView>, pos: nat, items: Seq<Exp>) -> Result<
    (Exp, nat),
    Seq<char>,
>
    decreases tokens.len() - pos, 1nat,
{
    if pos >= tokens.len() {
        Err("no closing parenthesis"@)
    } else if is_close(tokens[pos as int]) {
        Ok((Exp::List(items), pos + 1))
    } else {
        match parse_spec(tokens, pos) {
            Err(e) => Err(e),
            Ok((item, next)) => if pos < next <= tokens.len() {
                read_seq_spec(tokens, next, items.push(item))
            } else {
                Err(Seq::empty())
            },
        }
    }
}

/// A form that is read ends after where it began and within the tokens.
pub proof fn lemma_parse_advances(tokens: Seq<TokenView>, pos: nat)
    ensures
        parse_spec(tokens, pos) matches Ok((_, next)) ==> pos < next <= tokens.len(),
    decreases tokens.len() - pos, 0nat,
{
    if pos < tokens.len() && is_open(tokens[pos as int]) {
        lemma_read_seq_advances(tokens, pos + 1, Seq::empty());
    }
}

pub proof fn lemma_read_seq_advances(tokens: Seq<TokenView>, pos: nat, items: Seq<Exp>)
    ensures
        read_seq_spec(tokens, pos, items) matches Ok((_, next)) ==> pos < next <= tokens.len(),
    decreases tokens.len() - pos, 1nat,
{
    if pos < tokens.len() && !is_close(tokens[pos as int]) {
        lemma_parse_advances(tokens, pos);
        match parse_spec(tokens, pos) {
            Ok((item, next)) => {
                lemma_read_seq_advances(tokens, next, items.push(item));
            },
            Err(_) => {},
        }
    }
}

/// What a token adds to the nesting depth.
pub open spec fn paren_step(t: TokenView) -> int {
    if is_open(t) {
        1
    } else if is_close(t) {
        -1
    } else {
        0
    }
}

/// The nesting depth after the first `n` tokens.
pub open spec fn nesting(tokens: Seq<TokenView>, n: nat) -> int
    decreases n,
{
    if n == 0 || n > tokens.len() {
        0
    } else {
        nesting(tokens, (n - 1) as nat) + paren_step(tokens[n - 1])
    }
}

/// The tokens from `pos` up to `end` are one balanced form: the depth is
/// back where it was at `end`, and nowhere before.
pub open spec fn spans_form(tokens: Seq<TokenView>, pos: nat, end: nat) -> bool {
    &&& pos < end <= tokens.len()
    &&& nesting(tokens, end) == nesting(tokens, pos)
    &&& forall|n: nat| pos < n < end ==> #[trigger] nesting(tokens, n) > nesting(tokens, pos)
}

/// The first position from `n` on, and `end` at the latest, where the depth
/// is no more than it was at `pos`.
spec fn first_return(tokens: Seq<TokenView>, pos: nat, n: nat, end: nat) -> nat
    decreases end - n,
{
    if n >= end {
        end
    } else if nesting(tokens, n) <= nesting(tokens, pos) {
        n
    } else {
        first_return(tokens, pos, n + 1, end)
    }
}

proof fn lemma_first_return(tokens: Seq<TokenView>, pos: nat, n: nat, end: nat)
    requires
        n <= end,
        nesting(tokens, end) <= nesting(tokens, pos),
    ensures
        n <= first_return(tokens, pos, n, end) <= end,
        nesting(tokens, first_return(tokens, pos, n, end)) <= nesting(tokens, pos),
        forall|m: nat|
            n <= m < first_return(tokens, pos, n, end) ==> #[trigger] nesting(tokens, m) > nesting(
                tokens,
                pos,
            ),
    decreases end - n,
{
    if n < end && nesting(tokens, n) > nesting(tokens, pos) {
        lemma_first_return(tokens, pos, n + 1, end);
    }
}

/// A balanced form is read whole: the parser succeeds and stops at its end.
pub proof fn lemma_balanced_form_parses(tokens: Seq<TokenView>, pos: nat, end: nat)
    requires
        spans_form(tokens, pos, end),
    ensures
        parse_spec(tokens, pos) matches Ok((_, next)) && next == end,
    decreases end - pos, 0nat,
{
    let t = tokens[pos as int];
    assert(nesting(tokens, pos + 1) == nesting(tokens, pos) + paren_step(t));
    if is_open(t) {
        lemma_balanced_rest_parses(tokens, pos, pos + 1, end, Seq::empty());
    } else {
        if pos + 1 < end {
            assert(nesting(tokens, pos + 1) > nesting(tokens, pos));
        }
    }
}

proof fn lemma_balanced_rest_parses(
    tokens: Seq<TokenView>,
    open: nat,
    p: nat,
    end: nat,
    items: Seq<Exp>,
)
    requires
        open < p < end <= tokens.len(),
        nesting(tokens, p) == nesting(tokens, open) + 1,
        nesting(tokens, end) == nesting(tokens, open),
        forall|n: nat| open < n < end ==> #[trigger] nesting(tokens, n) > nesting(tokens, open),
    ensures
        read_seq_spec(tokens, p, items) matches Ok((_, next)) && next == end,
    decreases end - p, 1nat,
{
    let t = tokens[p as int];
    assert(nesting(tokens, p + 1) == nesting(tokens, p) + paren_step(t));
    if is_close(t) {
        if p + 1 < end {
            assert(nesting(tokens, p + 1) > nesting(tokens, open));
        }
    } else {
        let q = first_return(tokens, p, p + 1, end);
        lemma_first_return(tokens, p, p + 1, end);
        assert(nesting(tokens, q) == nesting(tokens, p)) by {
            if q == p + 1 {
            } else {
                let m = (q - 1) as nat;
                assert(nesting(tokens, m) > nesting(tokens, p));
                assert(nesting(tokens, q) == nesting(tokens, m) + paren_step(tokens[q - 1]));
            }
        }
        assert(spans_form(tokens, p, q));
        lemma_balanced_form_parses(tokens, p, q);
        match parse_spec(tokens, p) {
            Ok((item, next)) => {
                lemma_balanced_rest_parses(tokens, open, q, end, items.push(item));
            },
            Err(_) => {},
        }
    }
}

/// One balanced form and nothing after it: the parser reads all the tokens.
pub proof fn lemma_single_form_parses(tokens: Seq<TokenView>)
    requires
        spans_form(tokens, 0, tokens.len()),
    ensures
        parse_spec(tokens, 0) matches Ok((_, next)) && next == tokens.len(),
{
    lemma_balanced_form_parses(tokens, 0, tokens.len());
}

/// Copies `text` without its first and its last character.
fn strip_quotes(text: &str) -> (r: String)
    ensures
        r@ == unquoted(text@),
{
    let n = text.unicode_len();
    let mut r = String::new();
    let mut i: usize = 0;
    for c in it: text.chars()
        invariant
            it.seq() == text@,
            n == text@.len(),
            i == it.index(),
            n < 2 ==> r@.len() == 0,
            n >= 2 && 1 <= i <= n - 1 ==> r@ == text@.subrange(1, i as int),
            n >= 2 && i == 0 ==> r@.len() == 0,
            n >= 2 && i == n ==> r@ == text@.subrange(1, n - 1),
    {
        if n >= 2 && 1 <= i && i < n - 1 {
            string_push(&mut r, c);
            assert(text@.subrange(1, i + 1) =~= text@.subrange(1, i as int).push(c));
        }
        if n >= 2 && i == 0 {
            assert(text@.subrange(1, 1) =~= Seq::<char>::empty());
        }
        i += 1;
    }
    r
}

/// Reads one token that is no parenthesis.
pub fn parse_atom(token: &Token) -> (r: RispExp)
    ensures
        r@ == atom_spec(token@),
{
    let text = token.text.as_str();
    if same_text(text, "true") {
        RispExp::Bool(true)
    } else if same_text(text, "false") {
        RispExp::Bool(false)
    } else if !text.is_empty() && text.get_char(0) == '"' {
        RispExp::Str(strip_quotes(text))
    } else {
        match token.number {
            Some(bits) => if is_numeral_text(text) {
                RispExp::Number(bits)
            } else {
                RispExp::Symbol(token.text.clone())
            },
            None => RispExp::Symbol(token.text.clone()),
        }
    }
}

fn is_open_paren(token: &Token) -> (r: bool)
    ensures
        r == is_open(token@),
{
    proof {
        reveal_strlit("(");
    }
    let r = same_text(token.text.as_str(), "(");
    assert(r ==> token.text@ =~= seq!['(']);
    assert("("@ =~= seq!['(']);
    r
}

fn is_close_paren(token: &Token) -> (r: bool)
    ensures
        r == is_close(token@),
{
    proof {
        reveal_strlit(")");
    }
    let r = same_text(token.text.as_str(), ")");
    assert(")"@ =~= seq![')']);
    r
}

pub open spec fn parse_result_is(
    r: Result<(RispExp, usize), RispErr>,
    expected: Result<(Exp, nat), Seq<char>>,
) -> bool {
    match expected {
        Ok((e, next)) => r matches Ok((x, n)) && x@ == e && n == next,
        Err(why) => r matches Err(err) && err@ == why,
    }
}

/// Reads the form that begins at `pos`.
pub fn parse_at(tokens: &[Token], pos: usize) -> (r: Result<(RispExp, usize), RispErr>)
    ensures
        parse_result_is(r, parse_spec(token_views(tokens@), pos as nat)),
    decreases tokens@.len() - pos, 0nat,
{
    if pos >= tokens.len() {
        return Err(reason("could not get token"));
    }
    let token = &tokens[pos];
    assert(token_views(tokens@)[pos as int] == token@);
    if is_open_paren(token) {
        read_seq(tokens, pos + 1)
    } else if is_close_paren(token) {
        Err(reason("unexpected closing parenthesis"))
    } else {
        Ok((parse_atom(token), pos + 1))
    }
}

/// Reads forms from `pos` up to the closing parenthesis, into a list.
pub fn read_seq(tokens: &[Token], pos: usize) -> (r: Result<(RispExp, usize), RispErr>)
    ensures
        parse_result_is(r, read_seq_spec(token_views(tokens@), pos as nat, Seq::empty())),
    decreases tokens@.len() - pos, 1nat,
{
    let ghost all = token_views(tokens@);
    let mut items: Vec<RispExp> = Vec::new();
    let mut at: usize = pos;
    assert(views(items@) =~= Seq::<Exp>::empty());
    loop
        invariant
            all == token_views(tokens@),
            pos <= at,
            read_seq_spec(all, pos as nat, Seq::empty()) == read_seq_spec(all, at as nat, views(items@)),
        decreases tokens@.len() - at,
    {
        if at >= tokens.len() {
            return Err(reason("no closing parenthesis"));
        }
        assert(all[at as int] == tokens@[at as int]@);
        if is_close_paren(&tokens[at]) {
            proof {
                lemma_list_view(items);
            }
            return Ok((RispExp::List(items), at + 1));
        }
        proof {
            lemma_parse_advances(all, at as nat);
        }
        match parse_at(tokens, at) {
            Err(e) => {
                return Err(e);
            },
            Ok((item, next)) => {
                proof {
                    lemma_views_push(items@, item);
                }
                items.push(item);
                at = next;
            },
        }
    }
}

/// Reads the first form of `tokens` and returns it with the tokens that
/// follow it.
pub fn parse<'a>(tokens: &'a [Token]) -> (r: Result<(RispExp, &'a [Token]), RispErr>)
    ensures
        match parse_spec(token_views(tokens@), 0) {
            Ok((e, next)) => r matches Ok((x, rest)) && x@ == e && rest@ == tokens@.skip(next as int),
            Err(why) => r matches Err(err) && err@ == why,
        },
{
    proof {
        lemma_parse_advances(token_views(tokens@), 0);
    }
    match parse_at(tokens, 0) {
        Err(e) => Err(e),
        Ok((exp, next)) => {
            let rest = slice_subrange(tokens, next, tokens.len());
            assert(rest@ =~= tokens@.skip(next as int));
            Ok((exp, rest))
        },
    }
}

/// Gives each token that is a numeral its value, as the host reads it.
pub fn read_numbers<H: Host>(tokens: Vec<String>, host: &H) -> (r: Vec<Token>)
    ensures
        r@.len() == tokens@.len(),
        forall|i: int| 0 <= i < r@.len() ==> (#[trigger] r@[i]).text@ == tokens@[i]@,
        forall|i: int| 0 <= i < r@.len() ==> ((#[trigger] r@[i]).number is Some <==> is_numeral(tokens@[i]@)),
{
    let mut out: Vec<Token> = Vec::new();
    let mut i: usize = 0;
    while i < tokens.len()
        invariant
            i <= tokens.len(),
            out@.len() == i,
            forall|j: int| 0 <= j < i ==> (#[trigger] out@[j]).text@ == tokens@[j]@,
            forall|j: int| 0 <= j < i ==> ((#[trigger] out@[j]).number is Some <==> is_numeral(tokens@[j]@)),
        decreases tokens.len() - i,
    {
        let number = if is_numeral_text(tokens[i].as_str()) {
            Some(host.parse_number(tokens[i].as_str()))
        } else {
            None
        };
        out.push(Token { text: tokens[i].clone(), number });
        i += 1;
    }
    out
}

} // verus!
