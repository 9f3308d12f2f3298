//! The environment chain: scopes that map names to values, each with a link
//! to the scope around it.
//!
//! All the scopes of an interpreter live in one `RispEnv`, and a scope is
//! named by its index there. A closure keeps the index of the scope it was
//! made in, so a later definition in that scope is seen by the closure.

use crate::text::{append, decimal, decimal_string, reason};
use crate::types::{lemma_list_view, views, Exp, RispErr, RispExp};
use vstd::hash_map::StringHashMap;
use vstd::prelude::*;

verus! {

/// One scope: its own bindings and the scope around it.
pub struct Scope {
    bindings: StringHashMap<RispExp>,
    outer: Option<usize>,
}

pub struct ScopeView {
    pub bindings: Map<Seq<char>, Exp>,
    pub outer: Option<nat>,
}

impl View for Scope {
    type V = ScopeView;

    closed spec fn view(&self) -> ScopeView {
        ScopeView {
            bindings: self.bindings@.map_values(|e: RispExp| e@),
            outer: match self.outer {
                Some(p) => Some(p as nat),
                None => None,
            },
        }
    }
}

/// The scopes of one interpreter. Scope 0 is the root.
///
/// The scope of a call is discarded when the call returns, unless a closure
/// was made in it or after it: `kept` counts the scopes, from the root on,
/// that closures may refer to and that stay for good.
pub struct RispEnv {
    scopes: Vec<Scope>,
    kept: usize,
}

pub struct EnvView {
    pub scopes: Seq<ScopeView>,
    pub kept: nat,
}

impl View for RispEnv {
    type V = EnvView;

    closed spec fn view(&self) -> EnvView {
        EnvView {
            scopes: Seq::new(self.scopes@.len(), |i: int| self.scopes@[i]@),
            kept: self.kept as nat,
        }
    }
}

/// There is a root, and every link leads to an older scope: no chain runs in
/// a circle.
pub open spec fn well_formed(scopes: Seq<ScopeView>) -> bool {
    &&& scopes.len() > 0
    &&& forall|i: int|
        0 <= i < scopes.len() ==> ((#[trigger] scopes[i]).outer matches Some(p) ==> p < i)
}

/// A name that stands for itself: it begins with a colon.
pub open spec fn is_keyword(name: Seq<char>) -> bool {
    name.len() > 0 && name[0] == ':'
}

/// The value bound to `name` in `scope` or, failing that, in the nearest
/// scope around it that binds the name.
pub open spec fn find(scopes: Seq<ScopeView>, scope: nat, name: Seq<char>) -> Option<Exp>
    decreases scope,
{
    if scope >= scopes.len() {
        None
    } else if scopes[scope as int].bindings.contains_key(name) {
        Some(scopes[scope as int].bindings[name])
    } else {
        match scopes[scope as int].outer {
            Some(p) => if p < scope {
                find(scopes, p, name)
            } else {
                None
            },
            None => None,
        }
    }
}

/// What `name` evaluates to in `scope`: itself if it is a keyword, else what
/// it is bound to.
pub open spec fn lookup(scopes: Seq<ScopeView>, scope: nat, name: Seq<char>) -> Option<Exp> {
    if is_keyword(name) {
        Some(Exp::Symbol(name))
    } else {
        find(scopes, scope, name)
    }
}

/// `scopes` with `name` bound to `value` in `scope`, and nowhere else.
pub open spec fn defined(scopes: Seq<ScopeView>, scope: nat, name: Seq<char>, value: Exp) -> Seq<
    ScopeView,
> {
    scopes.update(
        scope as int,
        ScopeView {
            bindings: scopes[scope as int].bindings.insert(name, value),
            outer: scopes[scope as int].outer,
        },
    )
}

/// Whether `target` is `scope` or one of the scopes around it.
pub open spec fn on_chain(scopes: Seq<ScopeView>, scope: nat, target: nat) -> bool
    decreases scope,
{
    if scope >= scopes.len() {
        false
    } else if scope == target {
        true
    } else {
        match scopes[scope as int].outer {
            Some(p) => p < scope && on_chain(scopes, p, target),
            None => false,
        }
    }
}

/// A name that was defined in a scope is found there, with the value it was
/// given.
pub proof fn lemma_define_then_lookup(scopes: Seq<ScopeView>, scope: nat, name: Seq<char>, value: Exp)
    requires
        scope < scopes.len(),
        !is_keyword(name),
    ensures
        lookup(defined(scopes, scope, name, value), scope, name) == Some(value),
{
}

/// A definition changes what one name is bound to, and no other.
pub proof fn lemma_define_keeps_other_names(
    scopes: Seq<ScopeView>,
    scope: nat,
    name: Seq<char>,
    value: Exp,
    from: nat,
    other: Seq<char>,
)
    requires
        scope < scopes.len(),
        other != name,
    ensures
        lookup(defined(scopes, scope, name, value), from, other) == lookup(scopes, from, other),
    decreases from,
{
    if from < scopes.len() {
        match scopes[from as int].outer {
            Some(p) => {
                if p < from {
                    lemma_define_keeps_other_names(scopes, scope, name, value, p, other);
                }
            },
            None => {},
        }
    }
}

/// A definition is seen only from the scope it was made in and from the
/// scopes inside that one: never from a scope around it or beside it.
pub proof fn lemma_define_is_local(
    scopes: Seq<ScopeView>,
    scope: nat,
    name: Seq<char>,
    value: Exp,
    from: nat,
    any: Seq<char>,
)
    requires
        scope < scopes.len(),
        !on_chain(scopes, from, scope),
    ensures
        lookup(defined(scopes, scope, name, value), from, any) == lookup(scopes, from, any),
    decreases from,
{
    if from < scopes.len() {
        match scopes[from as int].outer {
            Some(p) => {
                if p < from {
                    lemma_define_is_local(scopes, scope, name, value, p, any);
                }
            },
            None => {},
        }
    }
}

/// In the scope of a call a name that is not a parameter means what it
/// means in the scope the closure was made in.
pub proof fn lemma_call_scope_falls_back(
    scopes: Seq<ScopeView>,
    parent: nat,
    names: Seq<Seq<char>>,
    values: Seq<Exp>,
    name: Seq<char>,
)
    requires
        well_formed(scopes),
        parent < scopes.len(),
        !bound(names, values).contains_key(name),
    ensures
        lookup(with_call_scope(scopes, parent, names, values), scopes.len(), name) == lookup(
            scopes,
            parent,
            name,
        ),
{
    lemma_push_keeps_chains(
        scopes,
        ScopeView { bindings: bound(names, values), outer: Some(parent) },
        parent,
        name,
    );
}

/// A new scope changes nothing for the scopes that were there.
pub proof fn lemma_push_keeps_chains(scopes: Seq<ScopeView>, added: ScopeView, from: nat, name: Seq<char>)
    requires
        from < scopes.len(),
    ensures
        find(scopes.push(added), from, name) == find(scopes, from, name),
    decreases from,
{
    match scopes[from as int].outer {
        Some(p) => {
            if p < from {
                lemma_push_keeps_chains(scopes, added, p, name);
            }
        },
        None => {},
    }
}

impl EnvView {
    /// The scopes are well formed, and the root is among those that stay.
    pub open spec fn wf(self) -> bool {
        &&& well_formed(self.scopes)
        &&& 1 <= self.kept <= self.scopes.len()
    }

    /// With `name` bound to `value` in `scope`.
    pub open spec fn defined(self, scope: nat, name: Seq<char>, value: Exp) -> EnvView {
        EnvView { scopes: defined(self.scopes, scope, name, value), kept: self.kept }
    }

    /// With the scopes up to `scope` kept for good: a closure was made there.
    pub open spec fn pinned(self, scope: nat) -> EnvView {
        EnvView {
            scopes: self.scopes,
            kept: if self.kept > scope {
                self.kept
            } else {
                scope + 1
            },
        }
    }

    /// Without the scopes from `from` on, unless one of them is kept.
    pub open spec fn released(self, from: nat) -> EnvView {
        if self.kept <= from <= self.scopes.len() {
            EnvView { scopes: self.scopes.take(from as int), kept: self.kept }
        } else {
            self
        }
    }

    /// What making a call's scope inside `parent` gives: see `call_scope`.
    pub open spec fn entered(self, parent: nat, names: Seq<Seq<char>>, values: Seq<Exp>) -> (
        Result<nat, Seq<char>>,
        EnvView,
    ) {
        let (id, scopes) = call_scope(self.scopes, parent, names, values);
        (id, EnvView { scopes, kept: self.kept })
    }
}

/// The bindings of a call: each name with the value at its place. Of a name
/// that occurs twice the later place counts.
pub open spec fn bound(names: Seq<Seq<char>>, values: Seq<Exp>) -> Map<Seq<char>, Exp>
    decreases names.len(),
{
    if names.len() == 0 || values.len() == 0 {
        Map::empty()
    } else {
        bound(names.drop_last(), values.drop_last()).insert(names.last(), values.last())
    }
}

/// Only the names are bound.
pub proof fn lemma_bound_names(names: Seq<Seq<char>>, values: Seq<Exp>, name: Seq<char>)
    requires
        names.len() == values.len(),
    ensures
        bound(names, values).contains_key(name) <==> names.contains(name),
    decreases names.len(),
{
    if names.len() > 0 {
        lemma_bound_names(names.drop_last(), values.drop_last(), name);
        if names.contains(name) {
            let i = choose|i: int| 0 <= i < names.len() && names[i] == name;
            if i < names.len() - 1 {
                assert(names.drop_last()[i] == name);
            }
        }
        if names.drop_last().contains(name) {
            let i = choose|i: int| 0 <= i < names.drop_last().len() && names.drop_last()[i] == name;
            assert(names[i] == name);
        }
    }
}

/// A name is bound to the value at its place, if it does not occur again
/// after that place.
pub proof fn lemma_bound_value(names: Seq<Seq<char>>, values: Seq<Exp>, i: int)
    requires
        names.len() == values.len(),
        0 <= i < names.len(),
        forall|j: int| i < j < names.len() ==> names[j] != names[i],
    ensures
        bound(names, values).contains_key(names[i]),
        bound(names, values)[names[i]] == values[i],
    decreases names.len(),
{
    if i < names.len() - 1 {
        assert(names.last() != names[i]);
        assert(names.drop_last()[i] == names[i]);
        assert(values.drop_last()[i] == values[i]);
        lemma_bound_value(names.drop_last(), values.drop_last(), i);
    }
}

/// `scopes` with one more scope, for a call, inside `parent`.
pub open spec fn with_call_scope(
    scopes: Seq<ScopeView>,
    parent: nat,
    names: Seq<Seq<char>>,
    values: Seq<Exp>,
) -> Seq<ScopeView> {
    scopes.push(ScopeView { bindings: bound(names, values), outer: Some(parent) })
}

/// What making a call's scope gives: the new scope's index and the scopes
/// with it; or, if the counts differ, the reason and the scopes unchanged.
pub open spec fn call_scope(
    scopes: Seq<ScopeView>,
    parent: nat,
    names: Seq<Seq<char>>,
    values: Seq<Exp>,
) -> (Result<nat, Seq<char>>, Seq<ScopeView>) {
    if names.len() != values.len() {
        (Err(arity_reason(names.len(), values.len())), scopes)
    } else {
        (Ok(scopes.len()), with_call_scope(scopes, parent, names, values))
    }
}

pub open spec fn arity_reason(expected: nat, got: nat) -> Seq<char> {
    "expected "@ + decimal(expected) + " arguments, got "@ + decimal(got)
}

/// The names of a parameter list, or the reason why `form` is none.
pub open spec fn symbol_names(form: Exp) -> Result<Seq<Seq<char>>, Seq<char>> {
    match form {
        Exp::List(items) => if forall|i: int| 0 <= i < items.len() ==> #[trigger] items[i] is Symbol {
            Ok(Seq::new(items.len(), |i: int| items[i]->Symbol_0))
        } else {
            Err("expected symbols in the argument list"@)
        },
        _ => Err("expected args form to be a list"@),
    }
}

pub open spec fn names_of(v: Seq<String>) -> Seq<Seq<char>> {
    Seq::new(v.len(), |i: int| v[i]@)
}

/// The error of a call with `got` arguments where `expected` are asked for.
pub fn arity_error(expected: usize, got: usize) -> (e: RispErr)
    ensures
        e@ == arity_reason(expected as nat, got as nat),
{
    let text = append(
        append(
            append("expected ", decimal_string(expected).as_str()).as_str(),
            " arguments, got ",
        ).as_str(),
        decimal_string(got).as_str(),
    );
    RispErr::Reason(text)
}

/// Reads a parameter list: a list of symbols.
pub fn parse_list_of_symbol_strings(form: &RispExp) -> (r: Result<Vec<String>, RispErr>)
    ensures
        match symbol_names(form@) {
            Ok(names) => r matches Ok(v) && names_of(v@) == names,
            Err(why) => r matches Err(e) && e@ == why,
        },
{
    match form {
        RispExp::List(items) => {
            let mut names: Vec<String> = Vec::new();
            let mut i: usize = 0;
            proof {
                lemma_list_view(*items);
            }
            while i < items.len()
                invariant
                    i <= items.len(),
                    names@.len() == i,
                    form@ is List,
                    form@->List_0.len() == items@.len(),
                    forall|j: int| 0 <= j < items@.len() ==> form@->List_0[j] == #[trigger] items@[j]@,
                    forall|j: int| 0 <= j < i ==> #[trigger] items@[j]@ is Symbol,
                    forall|j: int| 0 <= j < i ==> (#[trigger] names@[j])@ == items@[j]@->Symbol_0,
                decreases items.len() - i,
            {
                match &items[i] {
                    RispExp::Symbol(s) => {
                        names.push(s.clone());
                    },
                    _ => {
                        assert(!(items@[i as int]@ is Symbol));
                        assert(!(form@->List_0[i as int] is Symbol));
                        return Err(reason("expected symbols in the argument list"));
                    },
                }
                i += 1;
            }
            assert(names_of(names@) =~= symbol_names(form@)->Ok_0);
            Ok(names)
        },
        _ => Err(reason("expected args form to be a list")),
    }
}

impl Scope {
    fn root() -> (s: Scope)
        ensures
            s@ == (ScopeView { bindings: Map::empty(), outer: None }),
    {
        let s = Scope { bindings: StringHashMap::new(), outer: None };
        assert(s@.bindings =~= Map::<Seq<char>, Exp>::empty());
        s
    }

    fn bind(&mut self, name: String, value: RispExp)
        ensures
            final(self)@ == (ScopeView {
                bindings: old(self)@.bindings.insert(name@, value@),
                outer: old(self)@.outer,
            }),
    {
        self.bindings.insert(name, value);
        assert(self@.bindings =~= old(self)@.bindings.insert(name@, value@));
    }

    fn get(&self, name: &str) -> (r: Option<RispExp>)
        ensures
            match r {
                Some(v) => self@.bindings.contains_key(name@) && v@ == self@.bindings[name@],
                None => !self@.bindings.contains_key(name@),
            },
    {
        match self.bindings.get(name) {
            Some(v) => Some(v.duplicate()),
            None => None,
        }
    }
}

impl RispEnv {
    pub open spec fn wf(&self) -> bool {
        self@.wf()
    }

    /// An environment with an empty root scope.
    pub fn new() -> (env: RispEnv)
        ensures
            env.wf(),
            env@ == (EnvView {
                scopes: seq![ScopeView { bindings: Map::empty(), outer: None }],
                kept: 1,
            }),
    {
        let mut scopes: Vec<Scope> = Vec::new();
        scopes.push(Scope::root());
        let env = RispEnv { scopes, kept: 1 };
        assert(env@.scopes =~= seq![ScopeView { bindings: Map::empty(), outer: None }]);
        env
    }

    /// The number of scopes.
    pub fn len(&self) -> (n: usize)
        ensures
            n == self@.scopes.len(),
    {
        self.scopes.len()
    }

    /// Binds `name` to `value` in `scope`, over what it was bound to there.
    /// No other scope changes.
    pub fn define(&mut self, scope: usize, name: String, value: RispExp)
        requires
            old(self).wf(),
            scope < old(self)@.scopes.len(),
        ensures
            final(self).wf(),
            final(self)@ == old(self)@.defined(scope as nat, name@, value@),
    {
        self.scopes[scope].bind(name, value);
        assert(self@.scopes =~= defined(old(self)@.scopes, scope as nat, name@, value@));
    }

    /// The value of `name` in `scope`: the name itself if it is a keyword,
    /// else the nearest binding along the chain.
    pub fn env_get(&self, k: &str, scope: usize) -> (r: Option<RispExp>)
        requires
            self.wf(),
            scope < self@.scopes.len(),
        ensures
            match lookup(self@.scopes, scope as nat, k@) {
                Some(v) => r matches Some(x) && x@ == v,
                None => r is None,
            },
    {
        if !k.is_empty() && k.get_char(0) == ':' {
            return Some(RispExp::Symbol(k.to_owned()));
        }
        let mut at: usize = scope;
        loop
            invariant
                self.wf(),
                at < self@.scopes.len(),
                !is_keyword(k@),
                find(self@.scopes, scope as nat, k@) == find(self@.scopes, at as nat, k@),
            decreases at,
        {
            assert(self@.scopes[at as int] == self.scopes@[at as int]@);
            match self.scopes[at].get(k) {
                Some(v) => {
                    return Some(v);
                },
                None => {
                    match self.scopes[at].outer {
                        Some(p) => {
                            at = p;
                        },
                        None => {
                            return None;
                        },
                    }
                },
            }
        }
    }

    /// Keeps the scopes up to `scope` for good. The evaluator calls this
    /// when it makes a closure in `scope`.
    pub fn pin(&mut self, scope: usize)
        requires
            old(self).wf(),
            scope < old(self)@.scopes.len(),
        ensures
            final(self).wf(),
            final(self)@ == old(self)@.pinned(scope as nat),
    {
        let n = self.scopes.len();
        if self.kept <= scope && scope < n {
            self.kept = scope + 1;
        }
        assert(self@.scopes =~= old(self)@.scopes);
    }

    /// Discards the scopes from `from` on, unless one of them is kept. The
    /// evaluator calls this when a call returns, with the call's own scope.
    pub fn release(&mut self, from: usize)
        requires
            old(self).wf(),
        ensures
            final(self).wf(),
            final(self)@ == old(self)@.released(from as nat),
    {
        if self.kept <= from && from <= self.scopes.len() {
            self.scopes.truncate(from);
            assert(self@.scopes =~= old(self)@.scopes.take(from as int));
        }
    }

    /// Makes the scope of a call inside `parent`: each name bound to the
    /// value at its place. Returns the new scope's index, or an error if the
    /// counts differ.
    pub fn child_for_call(&mut self, names: Vec<String>, values: Vec<RispExp>, parent: usize) -> (r:
        Result<usize, RispErr>)
        requires
            old(self).wf(),
            parent < old(self)@.scopes.len(),
        ensures
            final(self).wf(),
            final(self)@ == old(self)@.entered(
                parent as nat,
                names_of(names@),
                views(values@),
            ).1,
            match old(self)@.entered(parent as nat, names_of(names@), views(values@)).0 {
                Ok(id) => r matches Ok(x) && x == id,
                Err(why) => r matches Err(e) && e@ == why,
            },
    {
        if names.len() != values.len() {
            return Err(arity_error(names.len(), values.len()));
        }
        let ghost all_names = names_of(names@);
        let ghost all_values = views(values@);
        let mut scope = Scope { bindings: StringHashMap::new(), outer: Some(parent) };
        assert(scope@.bindings =~= Map::<Seq<char>, Exp>::empty());
        let n = names.len();
        let mut names = names;
        let mut values = values;
        let mut rest_names: Vec<String> = Vec::new();
        let mut rest_values: Vec<RispExp> = Vec::new();
        // The vectors are emptied from the back, so the pairs are taken out
        // in reverse and put back in order before they are bound.
        while names.len() > 0
            invariant
                names@.len() == values@.len(),
                names@.len() + rest_names@.len() == n,
                rest_names@.len() == rest_values@.len(),
                n == all_names.len(),
                n == all_values.len(),
                forall|j: int| 0 <= j < names@.len() ==> (#[trigger] names@[j])@ == all_names[j],
                forall|j: int| 0 <= j < values@.len() ==> (#[trigger] values@[j])@ == all_values[j],
                forall|j: int|
                    0 <= j < rest_names@.len() ==> (#[trigger] rest_names@[j])@ == all_names[n - 1 - j],
                forall|j: int|
                    0 <= j < rest_values@.len() ==> (#[trigger] rest_values@[j])@ == all_values[n - 1
                        - j],
            decreases names@.len(),
        {
            let name = names.pop().unwrap();
            let value = values.pop().unwrap();
            rest_names.push(name);
            rest_values.push(value);
        }
        let mut k: usize = 0;
        while rest_names.len() > 0
            invariant
                rest_names@.len() == rest_values@.len(),
                rest_names@.len() + k == n,
                n == all_names.len(),
                n == all_values.len(),
                forall|j: int|
                    0 <= j < rest_names@.len() ==> (#[trigger] rest_names@[j])@ == all_names[n - 1 - j],
                forall|j: int|
                    0 <= j < rest_values@.len() ==> (#[trigger] rest_values@[j])@ == all_values[n - 1
                        - j],
                scope@.outer == Some(parent as nat),
                scope@.bindings == bound(all_names.take(k as int), all_values.take(k as int)),
            decreases rest_names@.len(),
        {
            let name = rest_names.pop().unwrap();
            let value = rest_values.pop().unwrap();
            proof {
                let a = all_names.take(k + 1);
                let b = all_values.take(k + 1);
                assert(a.drop_last() =~= all_names.take(k as int));
                assert(b.drop_last() =~= all_values.take(k as int));
                assert(a.last() == name@);
                assert(b.last() == value@);
            }
            scope.bind(name, value);
            k += 1;
        }
        assert(all_names.take(n as int) =~= all_names);
        assert(all_values.take(n as int) =~= all_values);
        let id = self.scopes.len();
        self.scopes.push(scope);
        assert(self@.scopes =~= with_call_scope(
            old(self)@.scopes,
            parent as nat,
            all_names,
            all_values,
        ));
        Ok(id)
    }
}

} // verus!
