//! The evaluator: an expression and a scope to a value or an error.
//!
//! What evaluation is, is said by the relation `evaluates` and those beside
//! it. It is a relation and no function because the host decides what its
//! native procedures return and how a number is written: of those answers
//! the relation admits every one.

use crate::display::displays_as;
use crate::env::{
    arity_error, arity_reason, lookup, parse_list_of_symbol_strings, symbol_names, EnvView, RispEnv,
};
use crate::host::Host;
use crate::jsontypes::{get_apply, get_spec};
use crate::lists::{
    car_apply, car_spec, cdr_apply, cdr_spec, list_apply, list_spec, number_sequence_apply,
    number_sequence_spec,
};
use crate::math::{
    compare_apply, compare_spec, minus_apply, minus_spec, mult_apply, mult_spec, plus_apply,
    plus_spec,
};
use crate::text::{append, decimal, decimal_string, reason, same_text};
use crate::types::{
    lemma_list_view, lemma_views_push, lemma_views_skip, result_view, views, Exp, FuncView, LambdaView,
    RispErr, RispExp, RispFunc, RispLambda,
};
use std::rc::Rc;
use vstd::prelude::*;
use vstd::slice::slice_subrange;

verus! {

/// A value or the reason of a failure.
pub type Outcome = Result<Exp, Seq<char>>;

/// Values or the reason of a failure.
pub type Outcomes = Result<Seq<Exp>, Seq<char>>;

/// The forms that the evaluator handles itself. They are known by the head
/// symbol of a list, before any lookup: a definition cannot shadow them.
pub enum SpecialForm {
    If,
    Def,
    Fn,
    Repeat,
}

pub open spec fn special_form_of(head: Exp) -> Option<SpecialForm> {
    match head {
        Exp::Symbol(name) => if name == "if"@ {
            Some(SpecialForm::If)
        } else if name == "def"@ {
            Some(SpecialForm::Def)
        } else if name == "fn"@ {
            Some(SpecialForm::Fn)
        } else if name == "repeat"@ {
            Some(SpecialForm::Repeat)
        } else {
            None
        },
        _ => None,
    }
}

/// Names an outcome on the way with the scopes as they are then. It holds
/// of every outcome: a proof states it to say which one it means.
pub open spec fn reached(out: Outcome, scopes: EnvView) -> bool {
    true
}

/// The same for the outcome of a sequence of forms.
pub open spec fn reached_all(out: Outcomes, scopes: EnvView) -> bool {
    true
}

pub open spec fn too_deep() -> Seq<char> {
    "evaluation is nested too deeply"@
}

pub open spec fn unbound_reason(name: Seq<char>) -> Seq<char> {
    "unexpected symbol k='"@ + name + "'"@
}

pub open spec fn missing_branch_reason(index: nat) -> Seq<char> {
    "expected form idx="@ + decimal(index)
}

pub open spec fn test_form_reason(shown: Seq<char>) -> Seq<char> {
    "unexpected test form='"@ + shown + "'"@
}

pub open spec fn no_scope_reason() -> Seq<char> {
    "closure belongs to another environment"@
}

/// What a native procedure may return on `args`. For the host's own
/// procedures that is anything.
pub open spec fn native_post<H: Host>(f: FuncView, args: Seq<Exp>, out: Outcome) -> bool {
    match f {
        FuncView::List => out == list_spec(args),
        FuncView::Car => out == car_spec(args),
        FuncView::Cdr => out == cdr_spec(args),
        FuncView::NumberSequence => out == number_sequence_spec::<H>(args),
        FuncView::Plus => out == plus_spec::<H>(args),
        FuncView::Mult => out == mult_spec::<H>(args),
        FuncView::Minus => out == minus_spec::<H>(args),
        FuncView::Compare(rel) => out == compare_spec(rel, args),
        FuncView::JsonGet => out == get_spec::<H>(args),
        FuncView::Host(_) => true,
    }
}

/// `fn`: a closure of the parameter list, which must be a list of symbols,
/// and the body as they are written, and of the scope in which the form is
/// evaluated.
pub open spec fn lambda_spec(args: Seq<Exp>, scope: nat) -> Outcome {
    if args.len() == 0 {
        Err("expected args form"@)
    } else if symbol_names(args[0]) is Err {
        Err(symbol_names(args[0])->Err_0)
    } else if args.len() < 2 {
        Err("expected second form"@)
    } else if args.len() > 2 {
        Err("fn definition can only have two forms "@)
    } else {
        Ok(Exp::Lambda(LambdaView { params: Box::new(args[0]), body: Box::new(args[1]), scope }))
    }
}

/// The scope of a call of a closure with parameter list `params`, made in
/// `parent`: an error if `params` is no list of symbols, if `parent` is no
/// scope of this environment, or if the counts differ.
pub open spec fn lambda_scope(
    pre: EnvView,
    params: Exp,
    values: Seq<Exp>,
    parent: nat,
) -> (Result<nat, Seq<char>>, EnvView) {
    match symbol_names(params) {
        Err(why) => (Err(why), pre),
        Ok(names) => if parent >= pre.scopes.len() {
            (Err(no_scope_reason()), pre)
        } else {
            pre.entered(parent, names, values)
        },
    }
}

/// Evaluating `e` in `scope`, with the scopes as in `pre` and `depth` levels
/// of nesting allowed, may give `out` and leave the scopes as in `post`.
///
/// A boolean, a number, a string and a document are their own values. A
/// symbol is looked up along the chain of scopes. A list is a special form
/// if its head is the symbol of one, and a call otherwise. A procedure is no
/// form. The first error ends the evaluation and is its outcome.
pub open spec fn evaluates<H: Host>(
    e: Exp,
    scope: nat,
    pre: EnvView,
    depth: nat,
    out: Outcome,
    post: EnvView,
) -> bool
    decreases depth, 0nat, 0nat,
{
    if depth == 0 {
        post == pre && out == Err::<Exp, Seq<char>>(too_deep())
    } else {
        match e {
            Exp::Symbol(name) => post == pre && out == match lookup(pre.scopes, scope, name) {
                Some(v) => Ok::<Exp, Seq<char>>(v),
                None => Err(unbound_reason(name)),
            },
            Exp::Bool(_) => post == pre && out == Ok::<Exp, Seq<char>>(e),
            Exp::Number(_) => post == pre && out == Ok::<Exp, Seq<char>>(e),
            Exp::Str(_) => post == pre && out == Ok::<Exp, Seq<char>>(e),
            Exp::Json(_) => post == pre && out == Ok::<Exp, Seq<char>>(e),
            Exp::Func(_) => post == pre && out == Err::<Exp, Seq<char>>("unexpected form"@),
            Exp::Lambda(_) => post == pre && out == Err::<Exp, Seq<char>>("unexpected form"@),
            Exp::List(forms) => if forms.len() == 0 {
                post == pre && out == Err::<Exp, Seq<char>>("empty form cannot be evaluated"@)
            } else {
                match special_form_of(forms[0]) {
                    Some(form) => evaluates_form::<H>(
                        form,
                        forms.skip(1),
                        scope,
                        pre,
                        (depth - 1) as nat,
                        out,
                        post,
                    ),
                    None => applies::<H>(forms[0], forms.skip(1), scope, pre, (depth - 1) as nat, out, post),
                }
            },
        }
    }
}

pub open spec fn evaluates_form<H: Host>(
    form: SpecialForm,
    args: Seq<Exp>,
    scope: nat,
    pre: EnvView,
    depth: nat,
    out: Outcome,
    post: EnvView,
) -> bool
    decreases depth, 4nat, 0nat,
{
    match form {
        SpecialForm::If => evaluates_if::<H>(args, scope, pre, depth, out, post),
        SpecialForm::Def => evaluates_def::<H>(args, scope, pre, depth, out, post),
        SpecialForm::Fn => out == lambda_spec(args, scope) && post == if out is Ok {
            pre.pinned(scope)
        } else {
            pre
        },
        SpecialForm::Repeat => evaluates_repeat::<H>(args, scope, pre, depth, out, post),
    }
}

/// `if`: the test is evaluated and must give a boolean; then the form at
/// place 1 is evaluated if it is true, and the form at place 2 if not.
pub open spec fn evaluates_if<H: Host>(
    args: Seq<Exp>,
    scope: nat,
    pre: EnvView,
    depth: nat,
    out: Outcome,
    post: EnvView,
) -> bool
    decreases depth, 3nat, 0nat,
{
    if args.len() == 0 {
        post == pre && out == Err::<Exp, Seq<char>>("expected test form"@)
    } else {
        exists|test: Outcome, mid: EnvView|
            {
                &&& #[trigger] reached(test, mid)
                &&& evaluates::<H>(args[0], scope, pre, depth, test, mid)
                &&& match test {
                    Err(why) => post == mid && out == Err::<Exp, Seq<char>>(why),
                    Ok(Exp::Bool(b)) => {
                        let index: nat = if b {
                            1
                        } else {
                            2
                        };
                        if index >= args.len() {
                            post == mid && out == Err::<Exp, Seq<char>>(missing_branch_reason(index))
                        } else {
                            evaluates::<H>(args[index as int], scope, mid, depth, out, post)
                        }
                    },
                    Ok(_) => post == mid && exists|shown: Seq<char>| #[trigger]
                        displays_as(args[0], shown) && out == Err::<Exp, Seq<char>>(
                            test_form_reason(shown),
                        ),
                }
            }
    }
}

/// `def`: the second form is evaluated and its value bound to the name that
/// is the first, in the scope of the evaluation and in no other. The value
/// of the form is the name.
pub open spec fn evaluates_def<H: Host>(
    args: Seq<Exp>,
    scope: nat,
    pre: EnvView,
    depth: nat,
    out: Outcome,
    post: EnvView,
) -> bool
    decreases depth, 3nat, 0nat,
{
    if args.len() == 0 {
        post == pre && out == Err::<Exp, Seq<char>>("expected first form"@)
    } else if !(args[0] is Symbol) {
        post == pre && out == Err::<Exp, Seq<char>>("expected first form to be a symbol"@)
    } else if args.len() < 2 {
        post == pre && out == Err::<Exp, Seq<char>>("expected second form"@)
    } else if args.len() > 2 {
        post == pre && out == Err::<Exp, Seq<char>>("def can only have two forms "@)
    } else {
        exists|value: Outcome, mid: EnvView|
            {
                &&& #[trigger] reached(value, mid)
                &&& evaluates::<H>(args[1], scope, pre, depth, value, mid)
                &&& match value {
                    Err(why) => post == mid && out == Err::<Exp, Seq<char>>(why),
                    Ok(v) => post == mid.defined(scope, args[0]->Symbol_0, v) && out == Ok::<
                        Exp,
                        Seq<char>,
                    >(args[0]),
                }
            }
    }
}

/// Why a closure with the parameter list `params` cannot stand in `repeat`,
/// if it cannot: it must take exactly one argument.
pub open spec fn one_parameter_error(params: Exp) -> Option<Seq<char>> {
    match symbol_names(params) {
        Err(why) => Some(why),
        Ok(names) => if names.len() != 1 {
            Some(arity_reason(names.len(), 1))
        } else {
            None
        },
    }
}

/// `repeat`: the first form must give a closure of one parameter and the
/// second a list; the closure is called on each item in order, and the
/// values are the items of the result.
pub open spec fn evaluates_repeat<H: Host>(
    args: Seq<Exp>,
    scope: nat,
    pre: EnvView,
    depth: nat,
    out: Outcome,
    post: EnvView,
) -> bool
    decreases depth, 3nat, 0nat,
{
    if args.len() == 0 {
        post == pre && out == Err::<Exp, Seq<char>>("expected function form"@)
    } else {
        exists|f: Outcome, mid: EnvView|
            {
                &&& #[trigger] reached(f, mid)
                &&& evaluates::<H>(args[0], scope, pre, depth, f, mid)
                &&& match f {
                    Err(why) => post == mid && out == Err::<Exp, Seq<char>>(why),
                    Ok(Exp::Lambda(lambda)) => if one_parameter_error(*lambda.params) is Some {
                        post == mid && out == Err::<Exp, Seq<char>>(
                            one_parameter_error(*lambda.params)->Some_0,
                        )
                    } else if args.len() < 2 {
                        post == mid && out == Err::<Exp, Seq<char>>("expected list"@)
                    } else {
                        exists|list: Outcome, mid2: EnvView|
                            {
                                &&& #[trigger] reached(list, mid2)
                                &&& evaluates::<H>(args[1], scope, mid, depth, list, mid2)
                                &&& match list {
                                    Err(why) => post == mid2 && out == Err::<Exp, Seq<char>>(why),
                                    Ok(Exp::List(items)) => maps::<H>(
                                        lambda,
                                        items,
                                        0,
                                        Seq::empty(),
                                        mid2,
                                        depth,
                                        out,
                                        post,
                                    ),
                                    Ok(_) => post == mid2 && out == Err::<Exp, Seq<char>>(
                                        "not a list"@,
                                    ),
                                }
                            }
                    },
                    Ok(_) => post == mid && out == Err::<Exp, Seq<char>>("not a function"@),
                }
            }
    }
}

/// The closure is called on the items from place `from` on, one after the
/// other; the outcome is the list of `done` and the values of those calls.
pub open spec fn maps<H: Host>(
    lambda: LambdaView,
    items: Seq<Exp>,
    from: nat,
    done: Seq<Exp>,
    pre: EnvView,
    depth: nat,
    out: Outcome,
    post: EnvView,
) -> bool
    decreases depth, 2nat, items.len() - from,
{
    if from >= items.len() {
        post == pre && out == Ok::<Exp, Seq<char>>(Exp::List(done))
    } else {
        exists|value: Outcome, mid: EnvView|
            {
                &&& #[trigger] reached(value, mid)
                &&& calls::<H>(
                    Exp::Lambda(lambda),
                    seq![items[from as int]],
                    pre,
                    depth,
                    value,
                    mid,
                )
                &&& match value {
                    Err(why) => post == mid && out == Err::<Exp, Seq<char>>(why),
                    Ok(v) => maps::<H>(lambda, items, from + 1, done.push(v), mid, depth, out, post),
                }
            }
    }
}

/// The forms from place `from` on are evaluated from left to right; the
/// outcome is `done` and their values.
pub open spec fn evaluates_all<H: Host>(
    forms: Seq<Exp>,
    from: nat,
    done: Seq<Exp>,
    scope: nat,
    pre: EnvView,
    depth: nat,
    out: Outcomes,
    post: EnvView,
) -> bool
    decreases depth, 2nat, forms.len() - from,
{
    if from >= forms.len() {
        post == pre && out == Ok::<Seq<Exp>, Seq<char>>(done)
    } else {
        exists|value: Outcome, mid: EnvView|
            {
                &&& #[trigger] reached(value, mid)
                &&& evaluates::<H>(forms[from as int], scope, pre, depth, value, mid)
                &&& match value {
                    Err(why) => post == mid && out == Err::<Seq<Exp>, Seq<char>>(why),
                    Ok(v) => evaluates_all::<H>(forms, from + 1, done.push(v), scope, mid, depth, out, post),
                }
            }
    }
}

/// A call: the head is evaluated, then the arguments from left to right,
/// then the head's value is called on the arguments' values.
pub open spec fn applies<H: Host>(
    head: Exp,
    args: Seq<Exp>,
    scope: nat,
    pre: EnvView,
    depth: nat,
    out: Outcome,
    post: EnvView,
) -> bool
    decreases depth, 3nat, 0nat,
{
    exists|callee: Outcome, mid: EnvView|
        {
            &&& #[trigger] reached(callee, mid)
            &&& evaluates::<H>(head, scope, pre, depth, callee, mid)
            &&& match callee {
                Err(why) => post == mid && out == Err::<Exp, Seq<char>>(why),
                Ok(f) => exists|values: Outcomes, mid2: EnvView|
                    {
                        &&& #[trigger] reached_all(values, mid2)
                        &&& evaluates_all::<H>(
                            args,
                            0,
                            Seq::empty(),
                            scope,
                            mid,
                            depth,
                            values,
                            mid2,
                        )
                        &&& match values {
                            Err(why) => post == mid2 && out == Err::<Exp, Seq<char>>(why),
                            Ok(vs) => calls::<H>(f, vs, mid2, depth, out, post),
                        }
                    },
            }
        }
}

/// Calling the value `f` on `values`. A native procedure is run on them. A
/// closure's body is evaluated in a new scope that binds the parameters to
/// the values and lies inside the scope the closure was made in: not inside
/// the caller's. When the call returns its scope is discarded, unless a
/// closure was made in the meantime. Nothing else can be called.
pub open spec fn calls<H: Host>(
    f: Exp,
    values: Seq<Exp>,
    pre: EnvView,
    depth: nat,
    out: Outcome,
    post: EnvView,
) -> bool
    decreases depth, 1nat, 0nat,
{
    match f {
        Exp::Func(native) => post == pre && native_post::<H>(native, values, out),
        Exp::Lambda(lambda) => match lambda_scope(pre, *lambda.params, values, lambda.scope) {
            (Err(why), _) => post == pre && out == Err::<Exp, Seq<char>>(why),
            (Ok(id), entered) => exists|after: EnvView|
                {
                    &&& #[trigger] reached(out, after)
                    &&& evaluates::<H>(*lambda.body, id, entered, depth, out, after)
                    &&& post == after.released(id)
                },
        },
        _ => post == pre && out == Err::<Exp, Seq<char>>("not callable"@),
    }
}

/// Runs a native procedure on evaluated arguments.
pub fn apply_native<H: Host>(f: &RispFunc, args: &[RispExp], host: &mut H) -> (r: Result<
    RispExp,
    RispErr,
>)
    ensures
        native_post::<H>(f@, views(args@), result_view(r)),
{
    match f {
        RispFunc::List => list_apply(args),
        RispFunc::Car => car_apply(args),
        RispFunc::Cdr => cdr_apply(args),
        RispFunc::NumberSequence => number_sequence_apply(args, host),
        RispFunc::Plus => plus_apply(args, host),
        RispFunc::Mult => mult_apply(args, host),
        RispFunc::Minus => minus_apply(args, host),
        RispFunc::Compare(rel) => compare_apply(*rel, args),
        RispFunc::JsonGet => get_apply(args, host),
        RispFunc::Host(name) => host.call(name.as_str(), args),
    }
}

/// Evaluates a `fn` form with the arguments `arg_forms`: makes a closure of
/// the scope `scope`, which is kept from then on.
pub fn eval_lambda_args(arg_forms: &[RispExp], scope: usize, env: &mut RispEnv) -> (r: Result<
    RispExp,
    RispErr,
>)
    requires
        old(env).wf(),
        scope < old(env)@.scopes.len(),
    ensures
        final(env).wf(),
        result_view(r) == lambda_spec(views(arg_forms@), scope as nat),
        final(env)@ == if r is Ok {
            old(env)@.pinned(scope as nat)
        } else {
            old(env)@
        },
{
    if arg_forms.len() == 0 {
        return Err(reason("expected args form"));
    }
    assert(views(arg_forms@)[0] == arg_forms@[0]@);
    match parse_list_of_symbol_strings(&arg_forms[0]) {
        Ok(_) => {},
        Err(e) => {
            return Err(e);
        },
    }
    if arg_forms.len() < 2 {
        return Err(reason("expected second form"));
    }
    if arg_forms.len() > 2 {
        return Err(reason("fn definition can only have two forms "));
    }
    assert(views(arg_forms@)[1] == arg_forms@[1]@);
    env.pin(scope);
    Ok(
        RispExp::Lambda(
            RispLambda {
                params_exp: Rc::new(arg_forms[0].duplicate()),
                body_exp: Rc::new(arg_forms[1].duplicate()),
                scope,
            },
        ),
    )
}

/// Makes the scope of a call of a closure that has `params` as its
/// parameter list and was made in `parent`.
pub fn env_for_lambda(params: &RispExp, values: Vec<RispExp>, parent: usize, env: &mut RispEnv) -> (r:
    Result<usize, RispErr>)
    requires
        old(env).wf(),
    ensures
        final(env).wf(),
        old(env)@.scopes.len() <= final(env)@.scopes.len(),
        final(env)@ == lambda_scope(old(env)@, params@, views(values@), parent as nat).1,
        match lambda_scope(old(env)@, params@, views(values@), parent as nat).0 {
            Ok(id) => r matches Ok(x) && x == id && id < final(env)@.scopes.len(),
            Err(why) => r matches Err(e) && e@ == why,
        },
{
    let names = match parse_list_of_symbol_strings(params) {
        Ok(names) => names,
        Err(e) => {
            return Err(e);
        },
    };
    if parent >= env.len() {
        return Err(reason("closure belongs to another environment"));
    }
    env.child_for_call(names, values, parent)
}

/// Whatever evaluating the forms from `from` on gives, with `done` before
/// them and the scopes as in `now`, evaluating all the forms gives from `pre`.
spec fn all_leads_on<H: Host>(
    forms: Seq<Exp>,
    from: nat,
    done: Seq<Exp>,
    scope: nat,
    now: EnvView,
    depth: nat,
    pre: EnvView,
) -> bool {
    forall|out: Outcomes, post: EnvView| #[trigger]
        evaluates_all::<H>(forms, from, done, scope, now, depth, out, post) ==> evaluates_all::<H>(
            forms,
            0,
            Seq::empty(),
            scope,
            pre,
            depth,
            out,
            post,
        )
}

proof fn lemma_all_step<H: Host>(
    forms: Seq<Exp>,
    from: nat,
    done: Seq<Exp>,
    scope: nat,
    now: EnvView,
    depth: nat,
    pre: EnvView,
    v: Exp,
    mid: EnvView,
)
    requires
        all_leads_on::<H>(forms, from, done, scope, now, depth, pre),
        from < forms.len(),
        evaluates::<H>(forms[from as int], scope, now, depth, Ok(v), mid),
    ensures
        all_leads_on::<H>(forms, from + 1, done.push(v), scope, mid, depth, pre),
{
    assert forall|out: Outcomes, post: EnvView| #[trigger]
        evaluates_all::<H>(forms, from + 1, done.push(v), scope, mid, depth, out, post) implies evaluates_all::<H>(
        forms,
        0,
        Seq::empty(),
        scope,
        pre,
        depth,
        out,
        post,
    ) by {
        assert(reached(Ok(v), mid));
        assert(evaluates_all::<H>(forms, from, done, scope, now, depth, out, post));
    }
}

proof fn lemma_all_stop<H: Host>(
    forms: Seq<Exp>,
    from: nat,
    done: Seq<Exp>,
    scope: nat,
    now: EnvView,
    depth: nat,
    pre: EnvView,
    why: Seq<char>,
    mid: EnvView,
)
    requires
        all_leads_on::<H>(forms, from, done, scope, now, depth, pre),
        from < forms.len(),
        evaluates::<H>(forms[from as int], scope, now, depth, Err(why), mid),
    ensures
        evaluates_all::<H>(forms, 0, Seq::empty(), scope, pre, depth, Err(why), mid),
{
    assert(reached(Err(why), mid));
    assert(evaluates_all::<H>(forms, from, done, scope, now, depth, Err(why), mid));
}

proof fn lemma_all_end<H: Host>(
    forms: Seq<Exp>,
    from: nat,
    done: Seq<Exp>,
    scope: nat,
    now: EnvView,
    depth: nat,
    pre: EnvView,
)
    requires
        all_leads_on::<H>(forms, from, done, scope, now, depth, pre),
        from >= forms.len(),
    ensures
        evaluates_all::<H>(forms, 0, Seq::empty(), scope, pre, depth, Ok(done), now),
{
    assert(evaluates_all::<H>(forms, from, done, scope, now, depth, Ok(done), now));
}

/// The same for the calls of a closure on the items of a list.
spec fn maps_leads_on<H: Host>(
    lambda: LambdaView,
    items: Seq<Exp>,
    from: nat,
    done: Seq<Exp>,
    now: EnvView,
    depth: nat,
    pre: EnvView,
) -> bool {
    forall|out: Outcome, post: EnvView| #[trigger]
        maps::<H>(lambda, items, from, done, now, depth, out, post) ==> maps::<H>(
            lambda,
            items,
            0,
            Seq::empty(),
            pre,
            depth,
            out,
            post,
        )
}

proof fn lemma_maps_step<H: Host>(
    lambda: LambdaView,
    items: Seq<Exp>,
    from: nat,
    done: Seq<Exp>,
    now: EnvView,
    depth: nat,
    pre: EnvView,
    v: Exp,
    mid: EnvView,
)
    requires
        maps_leads_on::<H>(lambda, items, from, done, now, depth, pre),
        from < items.len(),
        calls::<H>(Exp::Lambda(lambda), seq![items[from as int]], now, depth, Ok(v), mid),
    ensures
        maps_leads_on::<H>(lambda, items, from + 1, done.push(v), mid, depth, pre),
{
    assert forall|out: Outcome, post: EnvView| #[trigger]
        maps::<H>(lambda, items, from + 1, done.push(v), mid, depth, out, post) implies maps::<H>(
        lambda,
        items,
        0,
        Seq::empty(),
        pre,
        depth,
        out,
        post,
    ) by {
        assert(reached(Ok(v), mid));
        assert(maps::<H>(lambda, items, from, done, now, depth, out, post));
    }
}

proof fn lemma_maps_stop<H: Host>(
    lambda: LambdaView,
    items: Seq<Exp>,
    from: nat,
    done: Seq<Exp>,
    now: EnvView,
    depth: nat,
    pre: EnvView,
    why: Seq<char>,
    mid: EnvView,
)
    requires
        maps_leads_on::<H>(lambda, items, from, done, now, depth, pre),
        from < items.len(),
        calls::<H>(Exp::Lambda(lambda), seq![items[from as int]], now, depth, Err(why), mid),
    ensures
        maps::<H>(lambda, items, 0, Seq::empty(), pre, depth, Err(why), mid),
{
    assert(reached(Err(why), mid));
    assert(maps::<H>(lambda, items, from, done, now, depth, Err(why), mid));
}

proof fn lemma_maps_end<H: Host>(
    lambda: LambdaView,
    items: Seq<Exp>,
    from: nat,
    done: Seq<Exp>,
    now: EnvView,
    depth: nat,
    pre: EnvView,
)
    requires
        maps_leads_on::<H>(lambda, items, from, done, now, depth, pre),
        from >= items.len(),
    ensures
        maps::<H>(lambda, items, 0, Seq::empty(), pre, depth, Ok(Exp::List(done)), now),
{
    assert(maps::<H>(lambda, items, from, done, now, depth, Ok(Exp::List(done)), now));
}

pub open spec fn outcomes_view(r: Result<Vec<RispExp>, RispErr>) -> Outcomes {
    match r {
        Ok(v) => Ok(views(v@)),
        Err(e) => Err(e@),
    }
}

/// Evaluates `exp` in `scope`, at most `depth` levels deep.
///
/// The scopes only grow in number: a scope that was there stays, and a
/// closure made before the call still finds its own.
pub fn eval<H: Host>(
    exp: &RispExp,
    env: &mut RispEnv,
    scope: usize,
    host: &mut H,
    depth: usize,
) -> (r: Result<RispExp, RispErr>)
    requires
        old(env).wf(),
        scope < old(env)@.scopes.len(),
    ensures
        final(env).wf(),
        old(env)@.scopes.len() <= final(env)@.scopes.len(),
        evaluates::<H>(exp@, scope as nat, old(env)@, depth as nat, result_view(r), final(env)@),
    decreases depth, 0nat, 0nat,
{
    if depth == 0 {
        return Err(reason("evaluation is nested too deeply"));
    }
    match exp {
        RispExp::Symbol(k) => match env.env_get(k.as_str(), scope) {
            Some(v) => Ok(v),
            None => Err(
                RispErr::Reason(append(append("unexpected symbol k='", k.as_str()).as_str(), "'")),
            ),
        },
        RispExp::Str(_) => Ok(exp.duplicate()),
        RispExp::Bool(_) => Ok(exp.duplicate()),
        RispExp::Number(_) => Ok(exp.duplicate()),
        RispExp::List(list) => {
            proof {
                lemma_list_view(*list);
            }
            if list.len() == 0 {
                return Err(reason("empty form cannot be evaluated"));
            }
            let first_form = &list[0];
            let arg_forms = slice_subrange(list.as_slice(), 1, list.len());
            proof {
                lemma_views_skip(list@, 1);
                assert(arg_forms@ =~= list@.skip(1));
                assert(views(list@)[0] == first_form@);
            }
            match eval_built_in_form(first_form, arg_forms, env, scope, host, depth - 1) {
                Some(res) => res,
                None => eval_application(first_form, arg_forms, env, scope, host, depth - 1),
            }
        },
        RispExp::Func(_) => Err(reason("unexpected form")),
        RispExp::Lambda(_) => Err(reason("unexpected form")),
        RispExp::Json(_) => Ok(exp.duplicate()),
    }
}

/// Evaluates the list with head `exp` and arguments `arg_forms` if it is a
/// special form, and returns `None` if it is none.
pub fn eval_built_in_form<H: Host>(
    exp: &RispExp,
    arg_forms: &[RispExp],
    env: &mut RispEnv,
    scope: usize,
    host: &mut H,
    depth: usize,
) -> (r: Option<Result<RispExp, RispErr>>)
    requires
        old(env).wf(),
        scope < old(env)@.scopes.len(),
    ensures
        final(env).wf(),
        old(env)@.scopes.len() <= final(env)@.scopes.len(),
        match special_form_of(exp@) {
            Some(form) => r matches Some(res) && evaluates_form::<H>(
                form,
                views(arg_forms@),
                scope as nat,
                old(env)@,
                depth as nat,
                result_view(res),
                final(env)@,
            ),
            None => r is None && final(env)@ == old(env)@,
        },
    decreases depth, 4nat, 0nat,
{
    match exp {
        RispExp::Symbol(s) => {
            if same_text(s.as_str(), "if") {
                Some(eval_if_args(arg_forms, env, scope, host, depth))
            } else if same_text(s.as_str(), "def") {
                Some(eval_def_args(arg_forms, env, scope, host, depth))
            } else if same_text(s.as_str(), "fn") {
                Some(eval_lambda_args(arg_forms, scope, env))
            } else if same_text(s.as_str(), "repeat") {
                Some(eval_repeat_args(arg_forms, env, scope, host, depth))
            } else {
                None
            }
        },
        _ => None,
    }
}

/// Evaluates an `if` form with the arguments `arg_forms`.
pub fn eval_if_args<H: Host>(
    arg_forms: &[RispExp],
    env: &mut RispEnv,
    scope: usize,
    host: &mut H,
    depth: usize,
) -> (r: Result<RispExp, RispErr>)
    requires
        old(env).wf(),
        scope < old(env)@.scopes.len(),
    ensures
        final(env).wf(),
        old(env)@.scopes.len() <= final(env)@.scopes.len(),
        evaluates_if::<H>(
            views(arg_forms@),
            scope as nat,
            old(env)@,
            depth as nat,
            result_view(r),
            final(env)@,
        ),
    decreases depth, 3nat, 0nat,
{
    if arg_forms.len() == 0 {
        return Err(reason("expected test form"));
    }
    let ghost args = views(arg_forms@);
    let test_form = &arg_forms[0];
    assert(args[0] == test_form@);
    let test_eval = eval(test_form, env, scope, host, depth);
    let ghost test = result_view(test_eval);
    let ghost mid = env@;
    assert(reached(test, mid));
    match test_eval {
        Err(e) => Err(e),
        Ok(RispExp::Bool(b)) => {
            let form_idx: usize = if b {
                1
            } else {
                2
            };
            if form_idx >= arg_forms.len() {
                return Err(
                    RispErr::Reason(
                        append("expected form idx=", decimal_string(form_idx).as_str()),
                    ),
                );
            }
            assert(args[form_idx as int] == arg_forms@[form_idx as int]@);
            eval(&arg_forms[form_idx], env, scope, host, depth)
        },
        Ok(_) => {
            let shown = test_form.to_string(host);
            assert(displays_as(args[0], shown@));
            Err(
                RispErr::Reason(
                    append(append("unexpected test form='", shown.as_str()).as_str(), "'"),
                ),
            )
        },
    }
}

/// Evaluates a `def` form with the arguments `arg_forms`.
pub fn eval_def_args<H: Host>(
    arg_forms: &[RispExp],
    env: &mut RispEnv,
    scope: usize,
    host: &mut H,
    depth: usize,
) -> (r: Result<RispExp, RispErr>)
    requires
        old(env).wf(),
        scope < old(env)@.scopes.len(),
    ensures
        final(env).wf(),
        old(env)@.scopes.len() <= final(env)@.scopes.len(),
        evaluates_def::<H>(
            views(arg_forms@),
            scope as nat,
            old(env)@,
            depth as nat,
            result_view(r),
            final(env)@,
        ),
    decreases depth, 3nat, 0nat,
{
    if arg_forms.len() == 0 {
        return Err(reason("expected first form"));
    }
    let ghost args = views(arg_forms@);
    let first_form = &arg_forms[0];
    assert(args[0] == first_form@);
    let first_str = match first_form {
        RispExp::Symbol(s) => s.clone(),
        _ => {
            return Err(reason("expected first form to be a symbol"));
        },
    };
    if arg_forms.len() < 2 {
        return Err(reason("expected second form"));
    }
    if arg_forms.len() > 2 {
        return Err(reason("def can only have two forms "));
    }
    assert(args[1] == arg_forms@[1]@);
    let second_eval = eval(&arg_forms[1], env, scope, host, depth);
    let ghost value = result_view(second_eval);
    let ghost mid = env@;
    assert(reached(value, mid));
    match second_eval {
        Err(e) => Err(e),
        Ok(v) => {
            env.define(scope, first_str, v);
            Ok(first_form.duplicate())
        },
    }
}

/// Evaluates a `repeat` form with the arguments `arg_forms`.
pub fn eval_repeat_args<H: Host>(
    arg_forms: &[RispExp],
    env: &mut RispEnv,
    scope: usize,
    host: &mut H,
    depth: usize,
) -> (r: Result<RispExp, RispErr>)
    requires
        old(env).wf(),
        scope < old(env)@.scopes.len(),
    ensures
        final(env).wf(),
        old(env)@.scopes.len() <= final(env)@.scopes.len(),
        evaluates_repeat::<H>(
            views(arg_forms@),
            scope as nat,
            old(env)@,
            depth as nat,
            result_view(r),
            final(env)@,
        ),
    decreases depth, 3nat, 0nat,
{
    if arg_forms.len() == 0 {
        return Err(reason("expected function form"));
    }
    let ghost args = views(arg_forms@);
    assert(args[0] == arg_forms@[0]@);
    let func_eval = eval(&arg_forms[0], env, scope, host, depth);
    let ghost f = result_view(func_eval);
    let ghost mid = env@;
    assert(reached(f, mid));
    let callee = match func_eval {
        Err(e) => {
            return Err(e);
        },
        Ok(RispExp::Lambda(lambda)) => {
            match parse_list_of_symbol_strings(&*lambda.params_exp) {
                Err(e) => {
                    return Err(e);
                },
                Ok(names) => {
                    if names.len() != 1 {
                        return Err(arity_error(names.len(), 1));
                    }
                },
            }
            RispExp::Lambda(lambda)
        },
        Ok(_) => {
            return Err(reason("not a function"));
        },
    };
    if arg_forms.len() < 2 {
        return Err(reason("expected list"));
    }
    assert(args[1] == arg_forms@[1]@);
    let list_eval = eval(&arg_forms[1], env, scope, host, depth);
    let ghost list = result_view(list_eval);
    let ghost mid2 = env@;
    assert(reached(list, mid2));
    match list_eval {
        Err(e) => Err(e),
        Ok(RispExp::List(items)) => {
            proof {
                lemma_list_view(items);
            }
            map_closure(&callee, &items, env, host, depth)
        },
        Ok(_) => Err(reason("not a list")),
    }
}

/// Calls the closure `callee` on each of `items` in order and collects the
/// values in a list.
pub fn map_closure<H: Host>(
    callee: &RispExp,
    items: &Vec<RispExp>,
    env: &mut RispEnv,
    host: &mut H,
    depth: usize,
) -> (r: Result<RispExp, RispErr>)
    requires
        old(env).wf(),
        callee@ is Lambda,
    ensures
        final(env).wf(),
        old(env)@.scopes.len() <= final(env)@.scopes.len(),
        maps::<H>(
            callee@->Lambda_0,
            views(items@),
            0,
            Seq::empty(),
            old(env)@,
            depth as nat,
            result_view(r),
            final(env)@,
        ),
    decreases depth, 2nat, 0nat,
{
    let ghost lambda = callee@->Lambda_0;
    let ghost all = views(items@);
    let ghost pre = env@;
    let mut done: Vec<RispExp> = Vec::new();
    let mut i: usize = 0;
    assert(views(done@) =~= Seq::<Exp>::empty());
    while i < items.len()
        invariant
            i <= items.len(),
            env.wf(),
            pre.scopes.len() <= env@.scopes.len(),
            pre == old(env)@,
            callee@ == Exp::Lambda(lambda),
            all == views(items@),
            maps_leads_on::<H>(lambda, all, i as nat, views(done@), env@, depth as nat, pre),
        decreases items.len() - i,
    {
        let ghost now = env@;
        let ghost before = views(done@);
        let mut one: Vec<RispExp> = Vec::new();
        one.push(items[i].duplicate());
        assert(views(one@) =~= seq![all[i as int]]);
        let r = apply(callee, one, env, host, depth);
        match r {
            Err(e) => {
                proof {
                    lemma_maps_stop::<H>(lambda, all, i as nat, before, now, depth as nat, pre, e@, env@);
                }
                return Err(e);
            },
            Ok(v) => {
                proof {
                    lemma_views_push(done@, v);
                    lemma_maps_step::<H>(lambda, all, i as nat, before, now, depth as nat, pre, v@, env@);
                }
                done.push(v);
                i += 1;
            },
        }
    }
    proof {
        lemma_list_view(done);
        lemma_maps_end::<H>(lambda, all, i as nat, views(done@), env@, depth as nat, pre);
    }
    Ok(RispExp::List(done))
}

/// Evaluates `arg_forms` from left to right.
pub fn eval_forms<H: Host>(
    arg_forms: &[RispExp],
    env: &mut RispEnv,
    scope: usize,
    host: &mut H,
    depth: usize,
) -> (r: Result<Vec<RispExp>, RispErr>)
    requires
        old(env).wf(),
        scope < old(env)@.scopes.len(),
    ensures
        final(env).wf(),
        old(env)@.scopes.len() <= final(env)@.scopes.len(),
        evaluates_all::<H>(
            views(arg_forms@),
            0,
            Seq::empty(),
            scope as nat,
            old(env)@,
            depth as nat,
            outcomes_view(r),
            final(env)@,
        ),
    decreases depth, 2nat, 0nat,
{
    let ghost all = views(arg_forms@);
    let ghost pre = env@;
    let mut done: Vec<RispExp> = Vec::new();
    let mut i: usize = 0;
    assert(views(done@) =~= Seq::<Exp>::empty());
    while i < arg_forms.len()
        invariant
            i <= arg_forms@.len(),
            env.wf(),
            pre.scopes.len() <= env@.scopes.len(),
            pre == old(env)@,
            scope < pre.scopes.len(),
            all == views(arg_forms@),
            all_leads_on::<H>(all, i as nat, views(done@), scope as nat, env@, depth as nat, pre),
        decreases arg_forms@.len() - i,
    {
        let ghost now = env@;
        let ghost before = views(done@);
        assert(all[i as int] == arg_forms@[i as int]@);
        let r = eval(&arg_forms[i], env, scope, host, depth);
        match r {
            Err(e) => {
                proof {
                    lemma_all_stop::<H>(
                        all,
                        i as nat,
                        before,
                        scope as nat,
                        now,
                        depth as nat,
                        pre,
                        e@,
                        env@,
                    );
                }
                return Err(e);
            },
            Ok(v) => {
                proof {
                    lemma_views_push(done@, v);
                    lemma_all_step::<H>(
                        all,
                        i as nat,
                        before,
                        scope as nat,
                        now,
                        depth as nat,
                        pre,
                        v@,
                        env@,
                    );
                }
                done.push(v);
                i += 1;
            },
        }
    }
    proof {
        lemma_all_end::<H>(all, i as nat, views(done@), scope as nat, env@, depth as nat, pre);
    }
    Ok(done)
}

/// A call: evaluates the head and the arguments, then calls the head's
/// value.
pub fn eval_application<H: Host>(
    first_form: &RispExp,
    arg_forms: &[RispExp],
    env: &mut RispEnv,
    scope: usize,
    host: &mut H,
    depth: usize,
) -> (r: Result<RispExp, RispErr>)
    requires
        old(env).wf(),
        scope < old(env)@.scopes.len(),
    ensures
        final(env).wf(),
        old(env)@.scopes.len() <= final(env)@.scopes.len(),
        applies::<H>(
            first_form@,
            views(arg_forms@),
            scope as nat,
            old(env)@,
            depth as nat,
            result_view(r),
            final(env)@,
        ),
    decreases depth, 3nat, 0nat,
{
    let first_eval = eval(first_form, env, scope, host, depth);
    let ghost callee = result_view(first_eval);
    let ghost mid = env@;
    assert(reached(callee, mid));
    let f = match first_eval {
        Err(e) => {
            return Err(e);
        },
        Ok(f) => f,
    };
    let args_eval = eval_forms(arg_forms, env, scope, host, depth);
    let ghost values = outcomes_view(args_eval);
    let ghost mid2 = env@;
    assert(reached_all(values, mid2));
    match args_eval {
        Err(e) => Err(e),
        Ok(vs) => apply(&f, vs, env, host, depth),
    }
}

/// Calls the value `callee` on evaluated arguments.
pub fn apply<H: Host>(
    callee: &RispExp,
    values: Vec<RispExp>,
    env: &mut RispEnv,
    host: &mut H,
    depth: usize,
) -> (r: Result<RispExp, RispErr>)
    requires
        old(env).wf(),
    ensures
        final(env).wf(),
        old(env)@.scopes.len() <= final(env)@.scopes.len(),
        calls::<H>(callee@, views(values@), old(env)@, depth as nat, result_view(r), final(env)@),
    decreases depth, 1nat, 0nat,
{
    match callee {
        RispExp::Func(f) => apply_native(f, values.as_slice(), host),
        RispExp::Lambda(lambda) => {
            let id = match env_for_lambda(&*lambda.params_exp, values, lambda.scope, env) {
                Ok(id) => id,
                Err(e) => {
                    return Err(e);
                },
            };
            let r = eval(&*lambda.body_exp, env, id, host, depth);
            assert(reached(result_view(r), env@));
            env.release(id);
            r
        },
        _ => Err(reason("not callable")),
    }
}

} // verus!
