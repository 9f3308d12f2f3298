//! What holds of every evaluation that the relation `evaluates` admits.

use crate::env::{
    is_keyword, lemma_bound_names, lemma_call_scope_falls_back, lemma_define_then_lookup, lookup,
    symbol_names, EnvView,
};
use crate::eval::{
    applies, calls, evaluates, evaluates_all, evaluates_def, evaluates_form, evaluates_if,
    evaluates_repeat, lambda_scope, maps, one_parameter_error, reached, reached_all,
    special_form_of, Outcome, Outcomes, SpecialForm,
};
use crate::host::Host;
use crate::types::{Exp, LambdaView};
use vstd::prelude::*;

verus! {

/// From `pre` to `post` the environment stays well formed, no scope that was
/// there is discarded, and what was kept stays kept.
pub open spec fn carries_on(pre: EnvView, post: EnvView) -> bool {
    &&& post.wf()
    &&& pre.scopes.len() <= post.scopes.len()
    &&& pre.kept <= post.kept
}

/// Evaluation carries a well-formed environment on, whatever the host
/// answers.
pub proof fn lemma_evaluates_carries_on<H: Host>(
    e: Exp,
    scope: nat,
    pre: EnvView,
    depth: nat,
    out: Outcome,
    post: EnvView,
)
    requires
        pre.wf(),
        scope < pre.scopes.len(),
        evaluates::<H>(e, scope, pre, depth, out, post),
    ensures
        carries_on(pre, post),
    decreases depth, 0nat, 0nat,
{
    if depth > 0 {
        match e {
            Exp::List(forms) => {
                if forms.len() > 0 {
                    match special_form_of(forms[0]) {
                        Some(form) => lemma_form_carries_on::<H>(
                            form,
                            forms.skip(1),
                            scope,
                            pre,
                            (depth - 1) as nat,
                            out,
                            post,
                        ),
                        None => lemma_applies_carries_on::<H>(
                            forms[0],
                            forms.skip(1),
                            scope,
                            pre,
                            (depth - 1) as nat,
                            out,
                            post,
                        ),
                    }
                }
            },
            _ => {},
        }
    }
}

proof fn lemma_form_carries_on<H: Host>(
    form: SpecialForm,
    args: Seq<Exp>,
    scope: nat,
    pre: EnvView,
    depth: nat,
    out: Outcome,
    post: EnvView,
)
    requires
        pre.wf(),
        scope < pre.scopes.len(),
        evaluates_form::<H>(form, args, scope, pre, depth, out, post),
    ensures
        carries_on(pre, post),
    decreases depth, 4nat, 0nat,
{
    match form {
        SpecialForm::If => lemma_if_carries_on::<H>(args, scope, pre, depth, out, post),
        SpecialForm::Def => lemma_def_carries_on::<H>(args, scope, pre, depth, out, post),
        SpecialForm::Fn => {},
        SpecialForm::Repeat => lemma_repeat_carries_on::<H>(args, scope, pre, depth, out, post),
    }
}

proof fn lemma_if_carries_on<H: Host>(
    args: Seq<Exp>,
    scope: nat,
    pre: EnvView,
    depth: nat,
    out: Outcome,
    post: EnvView,
)
    requires
        pre.wf(),
        scope < pre.scopes.len(),
        evaluates_if::<H>(args, scope, pre, depth, out, post),
    ensures
        carries_on(pre, post),
    decreases depth, 3nat, 0nat,
{
    if args.len() > 0 {
        let (test, mid) = choose|test: Outcome, mid: EnvView|
            {
                &&& #[trigger] reached(test, mid)
                &&& evaluates::<H>(args[0], scope, pre, depth, test, mid)
                &&& match test {
                    Err(why) => post == mid && out == Err::<Exp, Seq<char>>(why),
                    Ok(Exp::Bool(b)) => {
                        let index: nat = if b {
                            1
                        } else {
                            2
                        };
                        if index >= args.len() {
                            post == mid && out == Err::<Exp, Seq<char>>(
                                crate::eval::missing_branch_reason(index),
                            )
                        } else {
                            evaluates::<H>(args[index as int], scope, mid, depth, out, post)
                        }
                    },
                    Ok(_) => post == mid && exists|shown: Seq<char>| #[trigger]
                        crate::display::displays_as(args[0], shown) && out == Err::<Exp, Seq<char>>(
                            crate::eval::test_form_reason(shown),
                        ),
                }
            };
        lemma_evaluates_carries_on::<H>(args[0], scope, pre, depth, test, mid);
        match test {
            Ok(Exp::Bool(b)) => {
                let index: nat = if b {
                    1
                } else {
                    2
                };
                if index < args.len() {
                    lemma_evaluates_carries_on::<H>(args[index as int], scope, mid, depth, out, post);
                }
            },
            _ => {},
        }
    }
}

proof fn lemma_def_carries_on<H: Host>(
    args: Seq<Exp>,
    scope: nat,
    pre: EnvView,
    depth: nat,
    out: Outcome,
    post: EnvView,
)
    requires
        pre.wf(),
        scope < pre.scopes.len(),
        evaluates_def::<H>(args, scope, pre, depth, out, post),
    ensures
        carries_on(pre, post),
    decreases depth, 3nat, 0nat,
{
    if args.len() == 2 && args[0] is Symbol {
        let (value, mid) = choose|value: Outcome, mid: EnvView|
            {
                &&& #[trigger] reached(value, mid)
                &&& evaluates::<H>(args[1], scope, pre, depth, value, mid)
                &&& match value {
                    Err(why) => post == mid && out == Err::<Exp, Seq<char>>(why),
                    Ok(v) => post == mid.defined(scope, args[0]->Symbol_0, v) && out == Ok::<
                        Exp,
                        Seq<char>,
                    >(args[0]),
                }
            };
        lemma_evaluates_carries_on::<H>(args[1], scope, pre, depth, value, mid);
    }
}

proof fn lemma_repeat_carries_on<H: Host>(
    args: Seq<Exp>,
    scope: nat,
    pre: EnvView,
    depth: nat,
    out: Outcome,
    post: EnvView,
)
    requires
        pre.wf(),
        scope < pre.scopes.len(),
        evaluates_repeat::<H>(args, scope, pre, depth, out, post),
    ensures
        carries_on(pre, post),
    decreases depth, 3nat, 0nat,
{
    if args.len() > 0 {
        let (f, mid) = choose|f: Outcome, mid: EnvView|
            {
                &&& #[trigger] reached(f, mid)
                &&& evaluates::<H>(args[0], scope, pre, depth, f, mid)
                &&& match f {
                    Err(why) => post == mid && out == Err::<Exp, Seq<char>>(why),
                    Ok(Exp::Lambda(lambda)) => if one_parameter_error(*lambda.params) is Some {
                        post == mid && out == Err::<Exp, Seq<char>>(
                            one_parameter_error(*lambda.params)->Some_0,
                        )
                    } else if args.len() < 2 {
                        post == mid && out == Err::<Exp, Seq<char>>("expected list"@)
                    } else {
                        exists|list: Outcome, mid2: EnvView|
                            {
                                &&& #[trigger] reached(list, mid2)
                                &&& evaluates::<H>(args[1], scope, mid, depth, list, mid2)
                                &&& match list {
                                    Err(why) => post == mid2 && out == Err::<Exp, Seq<char>>(why),
                                    Ok(Exp::List(items)) => maps::<H>(
                                        lambda,
                                        items,
                                        0,
                                        Seq::empty(),
                                        mid2,
                                        depth,
                                        out,
                                        post,
                                    ),
                                    Ok(_) => post == mid2 && out == Err::<Exp, Seq<char>>(
                                        "not a list"@,
                                    ),
                                }
                            }
                    },
                    Ok(_) => post == mid && out == Err::<Exp, Seq<char>>("not a function"@),
                }
            };
        lemma_evaluates_carries_on::<H>(args[0], scope, pre, depth, f, mid);
        match f {
            Ok(Exp::Lambda(lambda)) => {
                if one_parameter_error(*lambda.params) is None && args.len() >= 2 {
                    let (list, mid2) = choose|list: Outcome, mid2: EnvView|
                        {
                            &&& #[trigger] reached(list, mid2)
                            &&& evaluates::<H>(args[1], scope, mid, depth, list, mid2)
                            &&& match list {
                                Err(why) => post == mid2 && out == Err::<Exp, Seq<char>>(why),
                                Ok(Exp::List(items)) => maps::<H>(
                                    lambda,
                                    items,
                                    0,
                                    Seq::empty(),
                                    mid2,
                                    depth,
                                    out,
                                    post,
                                ),
                                Ok(_) => post == mid2 && out == Err::<Exp, Seq<char>>("not a list"@),
                            }
                        };
                    lemma_evaluates_carries_on::<H>(args[1], scope, mid, depth, list, mid2);
                    match list {
                        Ok(Exp::List(items)) => {
                            lemma_maps_carries_on::<H>(lambda, items, 0, Seq::empty(), mid2, depth, out, post);
                        },
                        _ => {},
                    }
                }
            },
            _ => {},
        }
    }
}

proof fn lemma_maps_carries_on<H: Host>(
    lambda: LambdaView,
    items: Seq<Exp>,
    from: nat,
    done: Seq<Exp>,
    pre: EnvView,
    depth: nat,
    out: Outcome,
    post: EnvView,
)
    requires
        pre.wf(),
        maps::<H>(lambda, items, from, done, pre, depth, out, post),
    ensures
        carries_on(pre, post),
    decreases depth, 2nat, items.len() - from,
{
    if from < items.len() {
        let (value, mid) = choose|value: Outcome, mid: EnvView|
            {
                &&& #[trigger] reached(value, mid)
                &&& calls::<H>(Exp::Lambda(lambda), seq![items[from as int]], pre, depth, value, mid)
                &&& match value {
                    Err(why) => post == mid && out == Err::<Exp, Seq<char>>(why),
                    Ok(v) => maps::<H>(lambda, items, from + 1, done.push(v), mid, depth, out, post),
                }
            };
        lemma_calls_carries_on::<H>(Exp::Lambda(lambda), seq![items[from as int]], pre, depth, value, mid);
        match value {
            Ok(v) => {
                lemma_maps_carries_on::<H>(lambda, items, from + 1, done.push(v), mid, depth, out, post);
            },
            Err(_) => {},
        }
    }
}

proof fn lemma_all_carries_on<H: Host>(
    forms: Seq<Exp>,
    from: nat,
    done: Seq<Exp>,
    scope: nat,
    pre: EnvView,
    depth: nat,
    out: Outcomes,
    post: EnvView,
)
    requires
        pre.wf(),
        scope < pre.scopes.len(),
        evaluates_all::<H>(forms, from, done, scope, pre, depth, out, post),
    ensures
        carries_on(pre, post),
    decreases depth, 2nat, forms.len() - from,
{
    if from < forms.len() {
        let (value, mid) = choose|value: Outcome, mid: EnvView|
            {
                &&& #[trigger] reached(value, mid)
                &&& evaluates::<H>(forms[from as int], scope, pre, depth, value, mid)
                &&& match value {
                    Err(why) => post == mid && out == Err::<Seq<Exp>, Seq<char>>(why),
                    Ok(v) => evaluates_all::<H>(forms, from + 1, done.push(v), scope, mid, depth, out, post),
                }
            };
        lemma_evaluates_carries_on::<H>(forms[from as int], scope, pre, depth, value, mid);
        match value {
            Ok(v) => {
                lemma_all_carries_on::<H>(forms, from + 1, done.push(v), scope, mid, depth, out, post);
            },
            Err(_) => {},
        }
    }
}

proof fn lemma_applies_carries_on<H: Host>(
    head: Exp,
    args: Seq<Exp>,
    scope: nat,
    pre: EnvView,
    depth: nat,
    out: Outcome,
    post: EnvView,
)
    requires
        pre.wf(),
        scope < pre.scopes.len(),
        applies::<H>(head, args, scope, pre, depth, out, post),
    ensures
        carries_on(pre, post),
    decreases depth, 3nat, 0nat,
{
    let (callee, mid) = choose|callee: Outcome, mid: EnvView|
        {
            &&& #[trigger] reached(callee, mid)
            &&& evaluates::<H>(head, scope, pre, depth, callee, mid)
            &&& match callee {
                Err(why) => post == mid && out == Err::<Exp, Seq<char>>(why),
                Ok(f) => exists|values: Outcomes, mid2: EnvView|
                    {
                        &&& #[trigger] reached_all(values, mid2)
                        &&& evaluates_all::<H>(args, 0, Seq::empty(), scope, mid, depth, values, mid2)
                        &&& match values {
                            Err(why) => post == mid2 && out == Err::<Exp, Seq<char>>(why),
                            Ok(vs) => calls::<H>(f, vs, mid2, depth, out, post),
                        }
                    },
            }
        };
    lemma_evaluates_carries_on::<H>(head, scope, pre, depth, callee, mid);
    match callee {
        Ok(f) => {
            let (values, mid2) = choose|values: Outcomes, mid2: EnvView|
                {
                    &&& #[trigger] reached_all(values, mid2)
                    &&& evaluates_all::<H>(args, 0, Seq::empty(), scope, mid, depth, values, mid2)
                    &&& match values {
                        Err(why) => post == mid2 && out == Err::<Exp, Seq<char>>(why),
                        Ok(vs) => calls::<H>(f, vs, mid2, depth, out, post),
                    }
                };
            lemma_all_carries_on::<H>(args, 0, Seq::empty(), scope, mid, depth, values, mid2);
            match values {
                Ok(vs) => {
                    lemma_calls_carries_on::<H>(f, vs, mid2, depth, out, post);
                },
                Err(_) => {},
            }
        },
        Err(_) => {},
    }
}

/// A call carries a well-formed environment on: the scope it makes is gone
/// or kept when it returns, and every scope that was there is still there.
pub proof fn lemma_calls_carries_on<H: Host>(
    f: Exp,
    values: Seq<Exp>,
    pre: EnvView,
    depth: nat,
    out: Outcome,
    post: EnvView,
)
    requires
        pre.wf(),
        calls::<H>(f, values, pre, depth, out, post),
    ensures
        carries_on(pre, post),
    decreases depth, 1nat, 0nat,
{
    match f {
        Exp::Lambda(lambda) => {
            let (made, entered) = lambda_scope(pre, *lambda.params, values, lambda.scope);
            match made {
                Ok(id) => {
                    let after = choose|after: EnvView|
                        {
                            &&& #[trigger] reached(out, after)
                            &&& evaluates::<H>(*lambda.body, id, entered, depth, out, after)
                            &&& post == after.released(id)
                        };
                    assert(entered.wf());
                    lemma_evaluates_carries_on::<H>(*lambda.body, id, entered, depth, out, after);
                    assert(after.released(id).wf()) by {
                        let r = after.released(id);
                        assert forall|i: int| 0 <= i < r.scopes.len() implies ((
                        #[trigger] r.scopes[i]).outer matches Some(p) ==> p < i) by {
                            assert(r.scopes[i] == after.scopes[i]);
                        }
                    }
                },
                Err(_) => {},
            }
        },
        _ => {},
    }
}

/// Once `(def name form)` has succeeded in a scope, the name evaluates
/// there, at any depth, to the value that the form gave: the lemma's result.
pub proof fn lemma_def_then_symbol<H: Host>(
    name: Seq<char>,
    form: Exp,
    scope: nat,
    pre: EnvView,
    depth: nat,
    out: Outcome,
    post: EnvView,
) -> (v: Exp)
    requires
        pre.wf(),
        scope < pre.scopes.len(),
        !is_keyword(name),
        out is Ok,
        evaluates_def::<H>(seq![Exp::Symbol(name), form], scope, pre, depth, out, post),
    ensures
        out == Ok::<Exp, Seq<char>>(Exp::Symbol(name)),
        exists|mid: EnvView| #[trigger] reached(Ok(v), mid) && evaluates::<H>(form, scope, pre, depth, Ok(v), mid),
        forall|deep: nat|
            deep > 0 ==> #[trigger] evaluates::<H>(Exp::Symbol(name), scope, post, deep, Ok(v), post),
{
    let args = seq![Exp::Symbol(name), form];
    let (value, mid) = choose|value: Outcome, mid: EnvView|
        {
            &&& #[trigger] reached(value, mid)
            &&& evaluates::<H>(args[1], scope, pre, depth, value, mid)
            &&& match value {
                Err(why) => post == mid && out == Err::<Exp, Seq<char>>(why),
                Ok(v) => post == mid.defined(scope, args[0]->Symbol_0, v) && out == Ok::<Exp, Seq<char>>(
                    args[0],
                ),
            }
        };
    lemma_evaluates_carries_on::<H>(form, scope, pre, depth, value, mid);
    let v = value->Ok_0;
    lemma_define_then_lookup(mid.scopes, scope, name, v);
    assert(reached(Ok(v), mid));
    v
}

/// In the call of a closure a name that is no parameter means what it
/// means, when the call is made, in the scope the closure was made in. So a
/// definition made there after the closure is seen by the call, and the
/// scope of the caller plays no part.
pub proof fn lemma_closure_looks_up_where_it_was_made(
    pre: EnvView,
    params: Exp,
    values: Seq<Exp>,
    made_in: nat,
    name: Seq<char>,
)
    requires
        pre.wf(),
        lambda_scope(pre, params, values, made_in).0 is Ok,
        !symbol_names(params)->Ok_0.contains(name),
    ensures
        lookup(
            lambda_scope(pre, params, values, made_in).1.scopes,
            lambda_scope(pre, params, values, made_in).0->Ok_0,
            name,
        ) == lookup(pre.scopes, made_in, name),
{
    let names = symbol_names(params)->Ok_0;
    lemma_bound_names(names, values, name);
    lemma_call_scope_falls_back(pre.scopes, made_in, names, values, name);
}

} // verus!
