//! The native procedures on lists.

use crate::host::Host;
use crate::text::reason;
use crate::types::{
    copy_items, lemma_list_view, result_view, views, Exp, FuncView, RispErr, RispExp, RispFunc,
};
use vstd::prelude::*;

verus! {

/// `list`: the arguments as a list.
pub open spec fn list_spec(args: Seq<Exp>) -> Result<Exp, Seq<char>> {
    Ok(Exp::List(args))
}

/// `car`: the first item of the list that is the first argument.
pub open spec fn car_spec(args: Seq<Exp>) -> Result<Exp, Seq<char>> {
    if args.len() < 1 {
        Err("pass a list"@)
    } else {
        match args[0] {
            Exp::List(items) => if items.len() < 1 {
                Err("empty list"@)
            } else {
                Ok(items[0])
            },
            _ => Err("arg is not a list"@),
        }
    }
}

/// `cdr`: the list that is the first argument, without its first item.
pub open spec fn cdr_spec(args: Seq<Exp>) -> Result<Exp, Seq<char>> {
    if args.len() < 1 {
        Err("pass a list"@)
    } else {
        match args[0] {
            Exp::List(items) => if items.len() < 1 {
                Err("empty list"@)
            } else {
                Ok(Exp::List(items.skip(1)))
            },
            _ => Err("arg is not a list"@),
        }
    }
}

/// The integers from `start` up to, and without, `end`.
pub open spec fn integers(start: int, end: int) -> Seq<int> {
    Seq::new(
        if start < end {
            (end - start) as nat
        } else {
            0
        },
        |i: int| start + i,
    )
}

/// The numbers of the integers from `start` up to, and without, `end`, each
/// as the host makes it.
pub open spec fn numbers_of<H: Host>(start: i64, end: i64) -> Seq<Exp> {
    Seq::new(
        integers(start as int, end as int).len(),
        |i: int| Exp::Number(H::number_of((start + i) as i64)),
    )
}

/// `num`: the numbers from the second argument, or from zero, up to and
/// without the first, each argument taken without its fraction.
pub open spec fn number_sequence_spec<H: Host>(args: Seq<Exp>) -> Result<Exp, Seq<char>> {
    if args.len() < 1 {
        Err("pass a max value"@)
    } else if !(args[0] is Number) {
        Err("arg is not a number"@)
    } else if args.len() >= 2 && !(args[1] is Number) {
        Err("arg is not a number"@)
    } else {
        let max = H::integer_of(args[0]->Number_0);
        let start = if args.len() < 2 {
            0i64
        } else {
            H::integer_of(args[1]->Number_0)
        };
        Ok(Exp::List(numbers_of::<H>(start, max)))
    }
}

pub fn list() -> (r: RispExp)
    ensures
        r@ == Exp::Func(FuncView::List),
{
    RispExp::Func(RispFunc::List)
}

pub fn car() -> (r: RispExp)
    ensures
        r@ == Exp::Func(FuncView::Car),
{
    RispExp::Func(RispFunc::Car)
}

pub fn cdr() -> (r: RispExp)
    ensures
        r@ == Exp::Func(FuncView::Cdr),
{
    RispExp::Func(RispFunc::Cdr)
}

pub fn number_sequence() -> (r: RispExp)
    ensures
        r@ == Exp::Func(FuncView::NumberSequence),
{
    RispExp::Func(RispFunc::NumberSequence)
}

/// Runs `list`.
pub fn list_apply(args: &[RispExp]) -> (r: Result<RispExp, RispErr>)
    ensures
        result_view(r) == list_spec(views(args@)),
{
    let items = copy_items(args, 0);
    proof {
        lemma_list_view(items);
        assert(views(args@).skip(0) =~= views(args@));
    }
    Ok(RispExp::List(items))
}

/// Runs `car`.
pub fn car_apply(args: &[RispExp]) -> (r: Result<RispExp, RispErr>)
    ensures
        result_view(r) == car_spec(views(args@)),
{
    if args.len() < 1 {
        return Err(reason("pass a list"));
    }
    assert(views(args@)[0] == args@[0]@);
    match &args[0] {
        RispExp::List(items) => {
            proof {
                lemma_list_view(*items);
            }
            if items.len() < 1 {
                return Err(reason("empty list"));
            }
            assert(views(items@)[0] == items@[0]@);
            Ok(items[0].duplicate())
        },
        _ => Err(reason("arg is not a list")),
    }
}

/// Runs `cdr`.
pub fn cdr_apply(args: &[RispExp]) -> (r: Result<RispExp, RispErr>)
    ensures
        result_view(r) == cdr_spec(views(args@)),
{
    if args.len() < 1 {
        return Err(reason("pass a list"));
    }
    assert(views(args@)[0] == args@[0]@);
    match &args[0] {
        RispExp::List(items) => {
            proof {
                lemma_list_view(*items);
            }
            if items.len() < 1 {
                return Err(reason("empty list"));
            }
            let rest = copy_items(items.as_slice(), 1);
            proof {
                lemma_list_view(rest);
            }
            Ok(RispExp::List(rest))
        },
        _ => Err(reason("arg is not a list")),
    }
}

/// Makes the numbers of the integers from `start` up to, and without,
/// `end`.
pub fn numbers_between<H: Host>(start: i64, end: i64, host: &H) -> (r: Vec<RispExp>)
    ensures
        views(r@) == numbers_of::<H>(start, end),
{
    let mut items: Vec<RispExp> = Vec::new();
    let mut m: i64 = start;
    while m < end
        invariant
            start >= end ==> m == start && items@.len() == 0,
            start < end ==> start <= m <= end && items@.len() == m - start,
            forall|i: int|
                0 <= i < items@.len() ==> (#[trigger] items@[i])@ == Exp::Number(
                    H::number_of((start + i) as i64),
                ),
        decreases end - m,
    {
        items.push(RispExp::Number(host.from_integer(m)));
        m += 1;
    }
    assert(views(items@) =~= numbers_of::<H>(start, end));
    items
}

/// Runs `num`.
pub fn number_sequence_apply<H: Host>(args: &[RispExp], host: &H) -> (r: Result<RispExp, RispErr>)
    ensures
        result_view(r) == number_sequence_spec::<H>(views(args@)),
{
    if args.len() < 1 {
        return Err(reason("pass a max value"));
    }
    assert(views(args@)[0] == args@[0]@);
    let max = match args[0] {
        RispExp::Number(bits) => host.to_integer(bits),
        _ => {
            return Err(reason("arg is not a number"));
        },
    };
    let start = if args.len() < 2 {
        0
    } else {
        assert(views(args@)[1] == args@[1]@);
        match args[1] {
            RispExp::Number(bits) => host.to_integer(bits),
            _ => {
                return Err(reason("arg is not a number"));
            },
        }
    };
    let items = numbers_between(start, max, host);
    proof {
        lemma_list_view(items);
    }
    Ok(RispExp::List(items))
}

} // verus!
