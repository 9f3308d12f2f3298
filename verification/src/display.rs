//! The printable form of a value.

use crate::host::Host;
use crate::jsontypes::{display, pretty_json};
use crate::text::append;
use crate::types::{lemma_list_view, views, Exp, RispExp};
use vstd::prelude::*;

verus! {

/// `parts` with a comma between each and the next.
pub open spec fn joined(parts: Seq<Seq<char>>) -> Seq<char>
    decreases parts.len(),
{
    if parts.len() == 0 {
        Seq::empty()
    } else if parts.len() == 1 {
        parts[0]
    } else {
        joined(parts.drop_last()) + ","@ + parts.last()
    }
}

pub open spec fn quoted(text: Seq<char>) -> Seq<char> {
    "\""@ + text + "\""@
}

/// Whether `text` is a printable form of `e`. A boolean prints as `true` or
/// `false`, a symbol as its name, a string in quotes, a list as its items'
/// forms between parentheses with commas, a procedure as a fixed word. A
/// document prints as the JSON crate writes it. A number prints as the host
/// writes it: of a number any text is a form here.
pub open spec fn displays_as(e: Exp, text: Seq<char>) -> bool
    decreases e,
{
    match e {
        Exp::Bool(b) => text == if b {
            "true"@
        } else {
            "false"@
        },
        Exp::Symbol(name) => text == name,
        Exp::Number(_) => true,
        Exp::Str(s) => text == quoted(s),
        Exp::List(items) => exists|parts: Seq<Seq<char>>|
            {
                &&& parts.len() == items.len()
                &&& forall|i: int| 0 <= i < items.len() ==> displays_as(items[i], #[trigger] parts[i])
                &&& text == "("@ + joined(parts) + ")"@
            },
        Exp::Func(_) => text == "Function {}"@,
        Exp::Lambda(_) => text == "Lambda {}"@,
        Exp::Json(j) => pretty_json(j) matches Some(written) ==> text == written,
    }
}

/// The value that a printable form stands for, where the form is meant as
/// data: a string's own text, without quotes, and the printable form of
/// anything else.
pub open spec fn is_lisp_val(e: Exp, text: Seq<char>) -> bool {
    match e {
        Exp::Str(s) => text == s,
        _ => displays_as(e, text),
    }
}

impl RispExp {
    /// The printable form.
    pub fn to_string<H: Host>(&self, host: &H) -> (text: String)
        ensures
            displays_as(self@, text@),
        decreases self,
    {
        match self {
            RispExp::Bool(b) => if *b {
                "true".to_owned()
            } else {
                "false".to_owned()
            },
            RispExp::Symbol(s) => s.clone(),
            RispExp::Number(n) => host.format_number(*n),
            RispExp::Str(s) => append(append("\"", s.as_str()).as_str(), "\""),
            RispExp::List(list) => {
                let mut inner = String::new();
                let ghost mut parts: Seq<Seq<char>> = Seq::empty();
                let mut i: usize = 0;
                proof {
                    lemma_list_view(*list);
                }
                while i < list.len()
                    invariant
                        i <= list.len(),
                        *self == RispExp::List(*list),
                        parts.len() == i,
                        forall|j: int| 0 <= j < i ==> displays_as(list@[j]@, #[trigger] parts[j]),
                        inner@ == joined(parts),
                    decreases list.len() - i,
                {
                    assert(decreases_to!(self => list@[i as int])) by {
                        assert(decreases_to!(*self => self->List_0));
                        assert(decreases_to!(self->List_0 => self->List_0@));
                        assert(decreases_to!(self->List_0@ => self->List_0@[i as int]));
                    }
                    let part = list[i].to_string(host);
                    proof {
                        let longer = parts.push(part@);
                        assert(longer.drop_last() =~= parts);
                        assert(longer.last() == part@);
                    }
                    if i > 0 {
                        inner.append(",");
                    } else {
                        assert(inner@ + part@ =~= part@);
                    }
                    inner.append(part.as_str());
                    proof {
                        parts = parts.push(part@);
                    }
                    i += 1;
                }
                let text = append(append("(", inner.as_str()).as_str(), ")");
                proof {
                    let items = self@->List_0;
                    assert(items == views(list@));
                    assert(parts.len() == items.len());
                    assert forall|k: int| 0 <= k < items.len() implies displays_as(
                        items[k],
                        #[trigger] parts[k],
                    ) by {
                        assert(items[k] == list@[k]@);
                    }
                }
                text
            },
            RispExp::Func(_) => "Function {}".to_owned(),
            RispExp::Lambda(_) => "Lambda {}".to_owned(),
            RispExp::Json(data) => display(data),
        }
    }

    /// The text that the value stands for as data: a string without quotes,
    /// anything else in its printable form.
    pub fn lisp_val<H: Host>(&self, host: &H) -> (text: String)
        ensures
            is_lisp_val(self@, text@),
    {
        match self {
            RispExp::Str(s) => s.clone(),
            _ => self.to_string(host),
        }
    }
}

} // verus!
