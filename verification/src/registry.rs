//! The root environment: the native procedures by their names.

use crate::env::{EnvView, RispEnv, ScopeView};
use crate::http::httpget_func;
use crate::lists::number_sequence;
use crate::math::{comparison, minus_func, mult_func, plus_func};
use crate::types::{Exp, FuncView, Relation};
use vstd::prelude::*;

verus! {

/// The root scope's bindings: the native procedures by name.
pub open spec fn registry() -> Map<Seq<char>, Exp> {
    Map::<Seq<char>, Exp>::empty().insert("httpget"@, Exp::Func(FuncView::Host("httpget"@))).insert(
        "num"@,
        Exp::Func(FuncView::NumberSequence),
    ).insert("*"@, Exp::Func(FuncView::Mult)).insert("+"@, Exp::Func(FuncView::Plus)).insert(
        "-"@,
        Exp::Func(FuncView::Minus),
    ).insert("="@, Exp::Func(FuncView::Compare(Relation::Equal))).insert(
        ">"@,
        Exp::Func(FuncView::Compare(Relation::Greater)),
    ).insert(">="@, Exp::Func(FuncView::Compare(Relation::GreaterEqual))).insert(
        "<"@,
        Exp::Func(FuncView::Compare(Relation::Less)),
    ).insert("<="@, Exp::Func(FuncView::Compare(Relation::LessEqual)))
}

/// An environment whose root scope binds the native procedures.
pub fn default_env() -> (env: RispEnv)
    ensures
        env.wf(),
        env@ == (EnvView { scopes: seq![ScopeView { bindings: registry(), outer: None }], kept: 1 }),
{
    let mut env = RispEnv::new();
    env.define(0, "httpget".to_owned(), httpget_func());
    env.define(0, "num".to_owned(), number_sequence());
    env.define(0, "*".to_owned(), mult_func());
    env.define(0, "+".to_owned(), plus_func());
    env.define(0, "-".to_owned(), minus_func());
    env.define(0, "=".to_owned(), comparison(Relation::Equal));
    env.define(0, ">".to_owned(), comparison(Relation::Greater));
    env.define(0, ">=".to_owned(), comparison(Relation::GreaterEqual));
    env.define(0, "<".to_owned(), comparison(Relation::Less));
    env.define(0, "<=".to_owned(), comparison(Relation::LessEqual));
    assert(env@.scopes =~= seq![ScopeView { bindings: registry(), outer: None }]);
    env
}

} // verus!
