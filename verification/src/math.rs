//! The native procedures on numbers: arithmetic, which the host computes
//! step by step, and the comparisons, which are decided here on the bit
//! patterns.

use crate::host::Host;
use crate::text::reason;
use crate::types::{result_view, views, Exp, FuncView, RispErr, RispExp, RispFunc, Relation};
use vstd::prelude::*;

verus! {

pub open spec fn all_numbers(args: Seq<Exp>) -> bool {
    forall|i: int| 0 <= i < args.len() ==> #[trigger] args[i] is Number
}

/// The bit patterns of a sequence of numbers.
pub open spec fn bits_of(args: Seq<Exp>) -> Seq<u64> {
    Seq::new(args.len(), |i: int| args[i]->Number_0)
}

/// The number that `e` is, or the reason why it is none.
pub open spec fn single_float_spec(e: Exp) -> Result<u64, Seq<char>> {
    match e {
        Exp::Number(bits) => Ok(bits),
        _ => Err("expected a number"@),
    }
}

/// The numbers that `args` are, or the reason why one of them is none.
pub open spec fn list_of_floats_spec(args: Seq<Exp>) -> Result<Seq<u64>, Seq<char>> {
    if all_numbers(args) {
        Ok(bits_of(args))
    } else {
        Err("expected a number"@)
    }
}

pub const SIGN_BIT: u64 = 0x8000_0000_0000_0000;

pub const INFINITY_BITS: u64 = 0x7ff0_0000_0000_0000;

/// The bit pattern without its sign.
pub open spec fn magnitude(bits: u64) -> int {
    if bits >= SIGN_BIT {
        bits - SIGN_BIT
    } else {
        bits as int
    }
}

/// Not a number: the exponent is all ones and the fraction is not zero.
pub open spec fn is_nan(bits: u64) -> bool {
    magnitude(bits) > INFINITY_BITS
}

/// An integer that orders the bit patterns as their numbers are ordered.
/// Both zeros have the key 0.
pub open spec fn order_key(bits: u64) -> int {
    if bits >= SIGN_BIT {
        -magnitude(bits)
    } else {
        magnitude(bits)
    }
}

/// Whether `rel` holds between two numbers. Nothing holds of what is not a
/// number.
pub open spec fn holds(rel: Relation, a: u64, b: u64) -> bool {
    !is_nan(a) && !is_nan(b) && match rel {
        Relation::Equal => order_key(a) == order_key(b),
        Relation::Greater => order_key(a) > order_key(b),
        Relation::GreaterEqual => order_key(a) >= order_key(b),
        Relation::Less => order_key(a) < order_key(b),
        Relation::LessEqual => order_key(a) <= order_key(b),
    }
}

/// Whether `rel` holds between every number and the next.
pub open spec fn chain_holds(rel: Relation, xs: Seq<u64>) -> bool {
    forall|i: int| 0 <= i < xs.len() - 1 ==> holds(rel, xs[i], #[trigger] xs[i + 1])
}

/// A comparison: an error unless every argument is a number and there is at
/// least one, else whether the relation holds all along.
pub open spec fn compare_spec(rel: Relation, args: Seq<Exp>) -> Result<Exp, Seq<char>> {
    if !all_numbers(args) {
        Err("expected a number"@)
    } else if args.len() == 0 {
        Err("expected at least one number"@)
    } else {
        Ok(Exp::Bool(chain_holds(rel, bits_of(args))))
    }
}

/// `xs` added to `start` one after the other, as the host adds.
pub open spec fn sum_from<H: Host>(start: u64, xs: Seq<u64>) -> u64
    decreases xs.len(),
{
    if xs.len() == 0 {
        start
    } else {
        H::sum_of(sum_from::<H>(start, xs.drop_last()), xs.last())
    }
}

/// `start` multiplied by `xs` one after the other, as the host multiplies.
pub open spec fn product_from<H: Host>(start: u64, xs: Seq<u64>) -> u64
    decreases xs.len(),
{
    if xs.len() == 0 {
        start
    } else {
        H::product_of(product_from::<H>(start, xs.drop_last()), xs.last())
    }
}

/// `+`: the sum of the arguments, from zero.
pub open spec fn plus_spec<H: Host>(args: Seq<Exp>) -> Result<Exp, Seq<char>> {
    if !all_numbers(args) {
        Err("expected a number"@)
    } else {
        Ok(Exp::Number(sum_from::<H>(0, bits_of(args))))
    }
}

/// `*`: the product of the arguments, from the first.
pub open spec fn mult_spec<H: Host>(args: Seq<Exp>) -> Result<Exp, Seq<char>> {
    if !all_numbers(args) {
        Err("expected a number"@)
    } else if args.len() == 0 {
        Err("expected at least one number"@)
    } else {
        Ok(Exp::Number(product_from::<H>(bits_of(args)[0], bits_of(args).skip(1))))
    }
}

/// `-`: the first argument less the sum, from zero, of the others.
pub open spec fn minus_spec<H: Host>(args: Seq<Exp>) -> Result<Exp, Seq<char>> {
    if !all_numbers(args) {
        Err("expected a number"@)
    } else if args.len() == 0 {
        Err("expected at least one number"@)
    } else {
        Ok(
            Exp::Number(
                H::difference_of(bits_of(args)[0], sum_from::<H>(0, bits_of(args).skip(1))),
            ),
        )
    }
}

/// A chain of no number or of one holds, whatever the relation.
pub proof fn lemma_short_chain_holds(rel: Relation, xs: Seq<u64>)
    requires
        xs.len() <= 1,
    ensures
        chain_holds(rel, xs),
{
}

/// Of two numbers exactly one of less, equal and greater holds; and of what
/// is not a number none of them does.
pub proof fn lemma_relations_part(a: u64, b: u64)
    ensures
        !is_nan(a) && !is_nan(b) ==> (holds(Relation::Less, a, b) || holds(Relation::Equal, a, b)
            || holds(Relation::Greater, a, b)),
        !(holds(Relation::Less, a, b) && holds(Relation::Equal, a, b)),
        !(holds(Relation::Less, a, b) && holds(Relation::Greater, a, b)),
        !(holds(Relation::Equal, a, b) && holds(Relation::Greater, a, b)),
        holds(Relation::LessEqual, a, b) <==> holds(Relation::Less, a, b) || holds(
            Relation::Equal,
            a,
            b,
        ),
        holds(Relation::GreaterEqual, a, b) <==> holds(Relation::Greater, a, b) || holds(
            Relation::Equal,
            a,
            b,
        ),
        holds(Relation::Greater, a, b) <==> holds(Relation::Less, b, a),
        is_nan(a) || is_nan(b) ==> forall|rel: Relation| !holds(rel, a, b),
{
}

/// In a chain that holds, the relation holds between every number and every
/// later one: each of the relations is transitive.
pub proof fn lemma_chain_holds_throughout(rel: Relation, xs: Seq<u64>, i: int, j: int)
    requires
        chain_holds(rel, xs),
        0 <= i < j < xs.len(),
    ensures
        holds(rel, xs[i], xs[j]),
    decreases j - i,
{
    if i + 1 < j {
        lemma_chain_holds_throughout(rel, xs, i, j - 1);
        assert(holds(rel, xs[j - 1], xs[(j - 1) + 1]));
    } else {
        assert(holds(rel, xs[i], xs[i + 1]));
    }
}

pub fn parse_single_float(exp: &RispExp) -> (r: Result<u64, RispErr>)
    ensures
        match single_float_spec(exp@) {
            Ok(bits) => r matches Ok(x) && x == bits,
            Err(why) => r matches Err(e) && e@ == why,
        },
{
    match exp {
        RispExp::Number(bits) => Ok(*bits),
        _ => Err(reason("expected a number")),
    }
}

pub fn parse_list_of_floats(args: &[RispExp]) -> (r: Result<Vec<u64>, RispErr>)
    ensures
        match list_of_floats_spec(views(args@)) {
            Ok(xs) => r matches Ok(v) && v@ == xs,
            Err(why) => r matches Err(e) && e@ == why,
        },
{
    let mut out: Vec<u64> = Vec::new();
    let mut i: usize = 0;
    while i < args.len()
        invariant
            i <= args@.len(),
            out@.len() == i,
            forall|j: int| 0 <= j < i ==> #[trigger] views(args@)[j] is Number,
            forall|j: int| 0 <= j < i ==> #[trigger] out@[j] == views(args@)[j]->Number_0,
        decreases args@.len() - i,
    {
        assert(views(args@)[i as int] == args@[i as int]@);
        match parse_single_float(&args[i]) {
            Ok(bits) => {
                out.push(bits);
            },
            Err(e) => {
                return Err(e);
            },
        }
        i += 1;
    }
    assert(out@ =~= bits_of(views(args@)));
    Ok(out)
}

fn magnitude_of(bits: u64) -> (m: u64)
    ensures
        m == magnitude(bits),
{
    if bits >= SIGN_BIT {
        bits - SIGN_BIT
    } else {
        bits
    }
}

/// Decides `rel` between two numbers.
pub fn relation_holds(rel: Relation, a: u64, b: u64) -> (r: bool)
    ensures
        r == holds(rel, a, b),
{
    let ma = magnitude_of(a);
    let mb = magnitude_of(b);
    if ma > INFINITY_BITS || mb > INFINITY_BITS {
        return false;
    }
    let a_negative = a >= SIGN_BIT;
    let b_negative = b >= SIGN_BIT;
    // key(a) < key(b), and key(a) == key(b), without leaving the unsigned integers
    let less = if a_negative {
        if b_negative {
            ma > mb
        } else {
            ma > 0 || mb > 0
        }
    } else {
        !b_negative && ma < mb
    };
    let equal = if a_negative == b_negative {
        ma == mb
    } else {
        ma == 0 && mb == 0
    };
    match rel {
        Relation::Equal => equal,
        Relation::Greater => !less && !equal,
        Relation::GreaterEqual => !less,
        Relation::Less => less,
        Relation::LessEqual => less || equal,
    }
}

/// Decides whether `rel` holds between every number and the next.
pub fn is_chain(rel: Relation, xs: &Vec<u64>) -> (r: bool)
    ensures
        r == chain_holds(rel, xs@),
{
    let mut i: usize = 1;
    while i < xs.len()
        invariant
            1 <= i,
            forall|j: int| 0 <= j < i - 1 && j < xs@.len() - 1 ==> holds(rel, xs@[j], #[trigger] xs@[j + 1]),
        decreases xs@.len() - i,
    {
        if !relation_holds(rel, xs[i - 1], xs[i]) {
            assert(!holds(rel, xs@[i - 1], xs@[(i - 1) + 1]));
            return false;
        }
        i += 1;
    }
    true
}

/// Runs a comparison procedure.
pub fn compare_apply(rel: Relation, args: &[RispExp]) -> (r: Result<RispExp, RispErr>)
    ensures
        result_view(r) == compare_spec(rel, views(args@)),
{
    let floats = match parse_list_of_floats(args) {
        Ok(v) => v,
        Err(e) => {
            return Err(e);
        },
    };
    if floats.len() == 0 {
        return Err(reason("expected at least one number"));
    }
    Ok(RispExp::Bool(is_chain(rel, &floats)))
}

/// Runs `+`.
pub fn plus_apply<H: Host>(args: &[RispExp], host: &H) -> (r: Result<RispExp, RispErr>)
    ensures
        result_view(r) == plus_spec::<H>(views(args@)),
{
    let floats = match parse_list_of_floats(args) {
        Ok(v) => v,
        Err(e) => {
            return Err(e);
        },
    };
    let mut sum: u64 = 0;
    let mut i: usize = 0;
    while i < floats.len()
        invariant
            i <= floats.len(),
            sum == sum_from::<H>(0, floats@.take(i as int)),
        decreases floats.len() - i,
    {
        assert(floats@.take(i + 1).drop_last() =~= floats@.take(i as int));
        sum = host.add(sum, floats[i]);
        i += 1;
    }
    assert(floats@.take(floats@.len() as int) =~= floats@);
    Ok(RispExp::Number(sum))
}

/// Runs `*`.
pub fn mult_apply<H: Host>(args: &[RispExp], host: &H) -> (r: Result<RispExp, RispErr>)
    ensures
        result_view(r) == mult_spec::<H>(views(args@)),
{
    let floats = match parse_list_of_floats(args) {
        Ok(v) => v,
        Err(e) => {
            return Err(e);
        },
    };
    if floats.len() == 0 {
        return Err(reason("expected at least one number"));
    }
    let ghost rest = floats@.skip(1);
    let mut product: u64 = floats[0];
    let mut i: usize = 1;
    while i < floats.len()
        invariant
            1 <= i <= floats.len(),
            rest == floats@.skip(1),
            product == product_from::<H>(floats@[0], rest.take(i - 1)),
        decreases floats.len() - i,
    {
        assert(rest.take(i as int).drop_last() =~= rest.take(i - 1));
        assert(rest.take(i as int).last() == floats@[i as int]);
        product = host.multiply(product, floats[i]);
        i += 1;
    }
    assert(rest.take(rest.len() as int) =~= rest);
    Ok(RispExp::Number(product))
}

/// Runs `-`.
pub fn minus_apply<H: Host>(args: &[RispExp], host: &H) -> (r: Result<RispExp, RispErr>)
    ensures
        result_view(r) == minus_spec::<H>(views(args@)),
{
    let floats = match parse_list_of_floats(args) {
        Ok(v) => v,
        Err(e) => {
            return Err(e);
        },
    };
    if floats.len() == 0 {
        return Err(reason("expected at least one number"));
    }
    let ghost rest = floats@.skip(1);
    let mut sum_of_rest: u64 = 0;
    let mut i: usize = 1;
    while i < floats.len()
        invariant
            1 <= i <= floats.len(),
            rest == floats@.skip(1),
            sum_of_rest == sum_from::<H>(0, rest.take(i - 1)),
        decreases floats.len() - i,
    {
        assert(rest.take(i as int).drop_last() =~= rest.take(i - 1));
        assert(rest.take(i as int).last() == floats@[i as int]);
        sum_of_rest = host.add(sum_of_rest, floats[i]);
        i += 1;
    }
    assert(rest.take(rest.len() as int) =~= rest);
    Ok(RispExp::Number(host.subtract(floats[0], sum_of_rest)))
}

pub fn plus_func() -> (r: RispExp)
    ensures
        r@ == Exp::Func(FuncView::Plus),
{
    RispExp::Func(RispFunc::Plus)
}

pub fn mult_func() -> (r: RispExp)
    ensures
        r@ == Exp::Func(FuncView::Mult),
{
    RispExp::Func(RispFunc::Mult)
}

pub fn minus_func() -> (r: RispExp)
    ensures
        r@ == Exp::Func(FuncView::Minus),
{
    RispExp::Func(RispFunc::Minus)
}

/// The comparison procedure for `rel`.
pub fn comparison(rel: Relation) -> (r: RispExp)
    ensures
        r@ == Exp::Func(FuncView::Compare(rel)),
{
    RispExp::Func(RispFunc::Compare(rel))
}

} // verus!
