//! The value model: every runtime value of the language is a `RispExp`.
//!
//! Contracts speak of values through their view `Exp`, in which text is a
//! sequence of characters and a list is a sequence of views.

use std::rc::Rc;
use vstd::prelude::*;

verus! {

/// A JSON document, kept as the crate that parsed it made it. The interpreter
/// stores and forwards such a value and never looks inside.
#[verifier::external_type_specification]
#[verifier::external_body]
pub struct ExJsonValue(serde_json::Value);

/// The single error kind: a reason in words.
#[derive(Debug, PartialEq)]
pub enum RispErr {
    Reason(String),
}

impl View for RispErr {
    type V = Seq<char>;

    open spec fn view(&self) -> Seq<char> {
        match self {
            RispErr::Reason(s) => s@,
        }
    }
}

/// The ordering that a comparison procedure asks of each consecutive pair.
#[derive(Clone, Copy, Debug, PartialEq, Eq, Structural)]
pub enum Relation {
    Equal,
    Greater,
    GreaterEqual,
    Less,
    LessEqual,
}

/// A native procedure, held by reference: the ones this library implements,
/// and `Host`, one that the host of the interpreter provides under a name.
#[derive(Debug, PartialEq)]
pub enum RispFunc {
    List,
    Car,
    Cdr,
    NumberSequence,
    Plus,
    Mult,
    Minus,
    Compare(Relation),
    JsonGet,
    Host(String),
}

pub enum FuncView {
    List,
    Car,
    Cdr,
    NumberSequence,
    Plus,
    Mult,
    Minus,
    Compare(Relation),
    JsonGet,
    Host(Seq<char>),
}

impl View for RispFunc {
    type V = FuncView;

    open spec fn view(&self) -> FuncView {
        match self {
            RispFunc::List => FuncView::List,
            RispFunc::Car => FuncView::Car,
            RispFunc::Cdr => FuncView::Cdr,
            RispFunc::NumberSequence => FuncView::NumberSequence,
            RispFunc::Plus => FuncView::Plus,
            RispFunc::Mult => FuncView::Mult,
            RispFunc::Minus => FuncView::Minus,
            RispFunc::Compare(r) => FuncView::Compare(*r),
            RispFunc::JsonGet => FuncView::JsonGet,
            RispFunc::Host(name) => FuncView::Host(name@),
        }
    }
}

/// An expression and a value at once. `Number` holds the bit pattern of a
/// double-precision float; `Lambda` is a closure.
#[derive(Debug, PartialEq)]
pub enum RispExp {
    Bool(bool),
    Symbol(String),
    Number(u64),
    Str(String),
    List(Vec<RispExp>),
    Func(RispFunc),
    Lambda(RispLambda),
    Json(serde_json::Value),
}

/// A closure: its parameter list as written, its body, and the scope it was
/// made in (an index into the `RispEnv` that made it).
#[derive(Debug, PartialEq)]
pub struct RispLambda {
    pub params_exp: Rc<RispExp>,
    pub body_exp: Rc<RispExp>,
    pub scope: usize,
}

pub struct LambdaView {
    pub params: Box<Exp>,
    pub body: Box<Exp>,
    pub scope: nat,
}

/// The mathematical model of a `RispExp`.
pub enum Exp {
    Bool(bool),
    Symbol(Seq<char>),
    Number(u64),
    Str(Seq<char>),
    List(Seq<Exp>),
    Func(FuncView),
    Lambda(LambdaView),
    Json(serde_json::Value),
}

pub open spec fn exp_view(e: RispExp) -> Exp
    decreases e,
{
    match e {
        RispExp::Bool(b) => Exp::Bool(b),
        RispExp::Symbol(s) => Exp::Symbol(s@),
        RispExp::Number(n) => Exp::Number(n),
        RispExp::Str(s) => Exp::Str(s@),
        RispExp::List(v) => Exp::List(
            Seq::new(
                v@.len(),
                |i: int|
                    if 0 <= i < v@.len() {
                        exp_view(v@[i])
                    } else {
                        Exp::Bool(false)
                    },
            ),
        ),
        RispExp::Func(f) => Exp::Func(f@),
        RispExp::Lambda(l) => Exp::Lambda(
            LambdaView {
                params: Box::new(exp_view(*l.params_exp)),
                body: Box::new(exp_view(*l.body_exp)),
                scope: l.scope as nat,
            },
        ),
        RispExp::Json(j) => Exp::Json(j),
    }
}

impl View for RispExp {
    type V = Exp;

    open spec fn view(&self) -> Exp {
        exp_view(*self)
    }
}

/// The views of the items of `s`, in order.
pub open spec fn views(s: Seq<RispExp>) -> Seq<Exp> {
    Seq::new(s.len(), |i: int| s[i]@)
}

/// A list's view is the list of its items' views.
pub proof fn lemma_list_view(v: Vec<RispExp>)
    ensures
        RispExp::List(v)@ == Exp::List(views(v@)),
{
    assert(exp_view(RispExp::List(v))->List_0 =~= views(v@));
}

pub proof fn lemma_views_push(s: Seq<RispExp>, e: RispExp)
    ensures
        views(s.push(e)) == views(s).push(e@),
{
    assert(views(s.push(e)) =~= views(s).push(e@));
}

pub proof fn lemma_views_skip(s: Seq<RispExp>, n: int)
    requires
        0 <= n <= s.len(),
    ensures
        views(s.skip(n)) == views(s).skip(n),
{
    assert(views(s.skip(n)) =~= views(s).skip(n));
}

/// `Value::clone`: the copy is the document it was made from.
#[verifier::external_body]
pub(crate) fn json_clone(v: &serde_json::Value) -> (r: serde_json::Value)
    ensures
        r == *v,
{
    v.clone()
}

/// `Rc::clone`: the new handle points at the same expression.
#[verifier::external_body]
pub(crate) fn rc_clone(v: &Rc<RispExp>) -> (r: Rc<RispExp>)
    ensures
        r == *v,
{
    v.clone()
}

/// `String::push`: the character is added at the end.
#[verifier::external_body]
pub(crate) fn string_push(s: &mut String, c: char)
    ensures
        final(s)@ == old(s)@.push(c),
{
    s.push(c)
}

impl RispFunc {
    pub fn duplicate(&self) -> (r: RispFunc)
        ensures
            r@ == self@,
    {
        match self {
            RispFunc::List => RispFunc::List,
            RispFunc::Car => RispFunc::Car,
            RispFunc::Cdr => RispFunc::Cdr,
            RispFunc::NumberSequence => RispFunc::NumberSequence,
            RispFunc::Plus => RispFunc::Plus,
            RispFunc::Mult => RispFunc::Mult,
            RispFunc::Minus => RispFunc::Minus,
            RispFunc::Compare(r) => RispFunc::Compare(*r),
            RispFunc::JsonGet => RispFunc::JsonGet,
            RispFunc::Host(name) => RispFunc::Host(name.clone()),
        }
    }
}

impl RispLambda {
    pub fn duplicate(&self) -> (r: RispLambda)
        ensures
            RispExp::Lambda(r)@ == RispExp::Lambda(*self)@,
    {
        RispLambda {
            params_exp: rc_clone(&self.params_exp),
            body_exp: rc_clone(&self.body_exp),
            scope: self.scope,
        }
    }
}

impl RispExp {
    /// A copy with the same view. Closures share their parameter list and
    /// body with the value they are copied from; everything else is copied
    /// item by item.
    pub fn duplicate(&self) -> (r: RispExp)
        ensures
            r@ == self@,
        decreases self,
    {
        match self {
            RispExp::Bool(b) => RispExp::Bool(*b),
            RispExp::Symbol(s) => RispExp::Symbol(s.clone()),
            RispExp::Number(n) => RispExp::Number(*n),
            RispExp::Str(s) => RispExp::Str(s.clone()),
            RispExp::List(v) => {
                let mut out: Vec<RispExp> = Vec::new();
                let mut i: usize = 0;
                while i < v.len()
                    invariant
                        i <= v.len(),
                        out.len() == i,
                        forall|j: int| 0 <= j < i ==> out@[j]@ == v@[j]@,
                        *self == RispExp::List(*v),
                    decreases v.len() - i,
                {
                    assert(decreases_to!(self => v@[i as int])) by {
                        assert(decreases_to!(*self => self->List_0));
                        assert(decreases_to!(self->List_0 => self->List_0@));
                        assert(decreases_to!(self->List_0@ => self->List_0@[i as int]));
                    }
                    let c = v[i].duplicate();
                    out.push(c);
                    i += 1;
                }
                proof {
                    lemma_list_view(out);
                    lemma_list_view(*v);
                    assert(views(out@) =~= views(v@));
                }
                RispExp::List(out)
            },
            RispExp::Func(f) => RispExp::Func(f.duplicate()),
            RispExp::Lambda(l) => RispExp::Lambda(l.duplicate()),
            RispExp::Json(j) => RispExp::Json(json_clone(j)),
        }
    }
}

/// The views of a result: of the value, or of the reason.
pub open spec fn result_view(r: Result<RispExp, RispErr>) -> Result<Exp, Seq<char>> {
    match r {
        Ok(v) => Ok(v@),
        Err(e) => Err(e@),
    }
}

/// Copies the items of `v` from `start` on.
pub fn copy_items(v: &[RispExp], start: usize) -> (r: Vec<RispExp>)
    requires
        start <= v@.len(),
    ensures
        views(r@) == views(v@).skip(start as int),
{
    let mut out: Vec<RispExp> = Vec::new();
    let mut i: usize = start;
    while i < v.len()
        invariant
            start <= i <= v@.len(),
            out@.len() == i - start,
            forall|j: int| 0 <= j < out@.len() ==> (#[trigger] out@[j])@ == v@[start + j]@,
        decreases v@.len() - i,
    {
        out.push(v[i].duplicate());
        i += 1;
    }
    assert(views(out@) =~= views(v@).skip(start as int));
    out
}

} // verus!
