//! Which tokens are numbers: the grammar of a numeral.

use vstd::prelude::*;

verus! {

pub open spec fn is_digit(c: char) -> bool {
    '0' <= c <= '9'
}

pub open spec fn is_sign(c: char) -> bool {
    c == '+' || c == '-'
}

pub open spec fn is_exponent_mark(c: char) -> bool {
    c == 'e' || c == 'E'
}

/// Where the run of digits that begins at `from` ends.
pub open spec fn digits_end(s: Seq<char>, from: nat) -> nat
    decreases s.len() - from,
{
    if from < s.len() && is_digit(s[from as int]) {
        digits_end(s, from + 1)
    } else {
        from
    }
}

/// The place after an optional sign at `from`.
pub open spec fn after_sign(s: Seq<char>, from: nat) -> nat {
    if from < s.len() && is_sign(s[from as int]) {
        from + 1
    } else {
        from
    }
}

/// A numeral: an optional sign, digits with an optional point among them,
/// before them or after them, and an optional exponent, which is `e` or `E`,
/// an optional sign and digits. There is at least one digit beside the
/// point, and the exponent has at least one.
pub open spec fn is_numeral(s: Seq<char>) -> bool {
    let start = after_sign(s, 0);
    let whole_end = digits_end(s, start);
    let has_point = whole_end < s.len() && s[whole_end as int] == '.';
    let fraction_start = if has_point {
        whole_end + 1
    } else {
        whole_end
    };
    let mantissa_end = digits_end(s, fraction_start);
    let digits = (whole_end - start) + (mantissa_end - fraction_start);
    if digits == 0 {
        false
    } else if mantissa_end < s.len() && is_exponent_mark(s[mantissa_end as int]) {
        let exponent_start = after_sign(s, mantissa_end + 1);
        let end = digits_end(s, exponent_start);
        exponent_start < end && end == s.len()
    } else {
        mantissa_end == s.len()
    }
}

proof fn lemma_digits_end_is_first_other(s: Seq<char>, from: nat, end: nat)
    requires
        from <= end <= s.len(),
        forall|i: int| from <= i < end ==> is_digit(#[trigger] s[i]),
        end < s.len() ==> !is_digit(s[end as int]),
    ensures
        digits_end(s, from) == end,
    decreases end - from,
{
    if from < end {
        lemma_digits_end_is_first_other(s, from + 1, end);
    }
}

fn digit(c: char) -> (r: bool)
    ensures
        r == is_digit(c),
{
    '0' <= c && c <= '9'
}

/// Finds the end of the run of digits that begins at `from`.
fn skip_digits(s: &Vec<char>, from: usize) -> (end: usize)
    requires
        from <= s@.len(),
    ensures
        end == digits_end(s@, from as nat),
        from <= end <= s@.len(),
{
    let mut at: usize = from;
    while at < s.len() && digit(s[at])
        invariant
            from <= at <= s@.len(),
            forall|i: int| from <= i < at ==> is_digit(#[trigger] s@[i]),
        decreases s@.len() - at,
    {
        at += 1;
    }
    proof {
        lemma_digits_end_is_first_other(s@, from as nat, at as nat);
    }
    at
}

fn skip_sign(s: &Vec<char>, from: usize) -> (next: usize)
    requires
        from <= s@.len(),
    ensures
        next == after_sign(s@, from as nat),
        from <= next <= s@.len(),
{
    if from < s.len() && (s[from] == '+' || s[from] == '-') {
        from + 1
    } else {
        from
    }
}

/// The characters of `text`.
pub fn chars_of(text: &str) -> (v: Vec<char>)
    ensures
        v@ == text@,
{
    let mut v: Vec<char> = Vec::new();
    for c in it: text.chars()
        invariant
            it.seq() == text@,
            v@ == text@.take(it.index() as int),
    {
        v.push(c);
        assert(text@.take(it.index() + 1) =~= text@.take(it.index() as int).push(c));
    }
    assert(text@.take(text@.len() as int) =~= text@);
    v
}

/// Decides whether `text` is a numeral.
pub fn is_numeral_text(text: &str) -> (r: bool)
    ensures
        r == is_numeral(text@),
{
    let s = chars_of(text);
    let start = skip_sign(&s, 0);
    let whole_end = skip_digits(&s, start);
    let has_point = whole_end < s.len() && s[whole_end] == '.';
    let fraction_start = if has_point {
        whole_end + 1
    } else {
        whole_end
    };
    let mantissa_end = skip_digits(&s, fraction_start);
    let digits = (whole_end - start) + (mantissa_end - fraction_start);
    if digits == 0 {
        false
    } else if mantissa_end < s.len() && (s[mantissa_end] == 'e' || s[mantissa_end] == 'E') {
        let exponent_start = skip_sign(&s, mantissa_end + 1);
        let end = skip_digits(&s, exponent_start);
        exponent_start < end && end == s.len()
    } else {
        mantissa_end == s.len()
    }
}

} // verus!
