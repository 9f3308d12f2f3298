//! JSON documents: how one is shown, and the native procedure that reads a
//! member of one. The documents themselves are the JSON crate's: what it
//! reads, writes and finds in one has a name here, and no more is said of it
//! than that it depends on what the crate is given.

use crate::host::Host;
use crate::text::reason;
use crate::types::{
    json_clone, result_view, views, Exp, FuncView, RispErr, RispExp, RispFunc,
};
use vstd::prelude::*;

verus! {

/// The JSON crate's error.
#[verifier::external_type_specification]
#[verifier::external_body]
pub struct ExJsonError(serde_json::Error);

/// The document as `serde_json::to_string_pretty` writes it: indented JSON
/// text, or nothing where the crate cannot write the document.
pub uninterp spec fn pretty_json(data: serde_json::Value) -> Option<Seq<char>>;

/// `serde_json::to_string_pretty` on a document: the document as indented
/// JSON text, or the crate's error. Whether there is a text and which one
/// depends on the document alone: that is all the contract claims.
#[verifier::external_body]
fn json_to_string_pretty(data: &serde_json::Value) -> (r: Result<String, serde_json::Error>)
    ensures
        match r {
            Ok(text) => pretty_json(*data) == Some(text@),
            Err(_) => pretty_json(*data) is None,
        },
{
    serde_json::to_string_pretty(data)
}

/// `Error::to_string`: the error's message, with line and column where the
/// error has them.
#[verifier::external_body]
pub(crate) fn json_error_text(e: &serde_json::Error) -> (r: String) {
    e.to_string()
}

/// What `Value`'s index operator gives for a text key: the member named `key`
/// if the document is an object that has it, else the null document.
pub uninterp spec fn json_member_of(data: serde_json::Value, key: Seq<char>) -> serde_json::Value;

/// `Value`'s index operator with a text key. The member depends on the
/// document and the key alone: that is all the contract claims.
#[verifier::external_body]
fn json_member<'a>(data: &'a serde_json::Value, key: &str) -> (r: &'a serde_json::Value)
    ensures
        *r == json_member_of(*data, key@),
{
    &data[key]
}

/// What `Value`'s index operator gives for a position: the item at that place
/// if the document is a list that has one there, else the null document.
pub uninterp spec fn json_item_of(data: serde_json::Value, position: nat) -> serde_json::Value;

/// `Value`'s index operator with a position. The item depends on the
/// document and the position alone: that is all the contract claims.
#[verifier::external_body]
fn json_item<'a>(data: &'a serde_json::Value, position: usize) -> (r: &'a serde_json::Value)
    ensures
        *r == json_item_of(*data, position as nat),
{
    &data[position]
}

/// The document that `text` denotes as `serde_json::from_str` reads it, or
/// nothing where the text is not JSON.
pub uninterp spec fn json_of(text: Seq<char>) -> Option<serde_json::Value>;

/// `serde_json::from_str` for a document: the document that `text` denotes,
/// or the crate's error if it is not JSON. Whether there is a document and
/// which one depends on the text alone: that is all the contract claims.
#[verifier::external_body]
pub(crate) fn json_from_str(text: &str) -> (r: Result<serde_json::Value, serde_json::Error>)
    ensures
        match r {
            Ok(data) => json_of(text@) == Some(data),
            Err(_) => json_of(text@) is None,
        },
{
    serde_json::from_str(text)
}

/// The document as indented JSON text. If the JSON crate cannot write it,
/// the text is the crate's message.
pub fn display(data: &serde_json::Value) -> (text: String)
    ensures
        pretty_json(*data) matches Some(written) ==> text@ == written,
{
    match json_to_string_pretty(data) {
        Ok(text) => text,
        Err(e) => json_error_text(&e),
    }
}

/// The place in a list that an integer names. An integer below zero, or
/// beyond what the machine counts, names a place where no list has an item.
pub open spec fn position_of(i: i64) -> nat {
    if 0 <= i <= usize::MAX {
        i as nat
    } else {
        usize::MAX as nat
    }
}

/// `get`: the member of the document that is the first argument under the
/// key that is the second, if that is a string; the item at the place that
/// the second names, if it is a number, taken without its fraction.
pub open spec fn get_spec<H: Host>(args: Seq<Exp>) -> Result<Exp, Seq<char>> {
    if args.len() < 2 {
        Err("pass a json object and an index"@)
    } else if !(args[1] is Str) && !(args[1] is Number) {
        Err("index must be string or number"@)
    } else if !(args[0] is Json) {
        Err("not a json object"@)
    } else {
        match args[1] {
            Exp::Str(key) => Ok(Exp::Json(json_member_of(args[0]->Json_0, key))),
            _ => Ok(
                Exp::Json(
                    json_item_of(args[0]->Json_0, position_of(H::integer_of(args[1]->Number_0))),
                ),
            ),
        }
    }
}

pub fn get_func() -> (r: RispExp)
    ensures
        r@ == Exp::Func(FuncView::JsonGet),
{
    RispExp::Func(RispFunc::JsonGet)
}

fn position(i: i64) -> (p: usize)
    ensures
        p == position_of(i),
{
    if i < 0 {
        usize::MAX
    } else if i as u64 > usize::MAX as u64 {
        usize::MAX
    } else {
        i as usize
    }
}

/// Runs `get`.
pub fn get_apply<H: Host>(args: &[RispExp], host: &H) -> (r: Result<RispExp, RispErr>)
    ensures
        result_view(r) == get_spec::<H>(views(args@)),
{
    if args.len() < 2 {
        return Err(reason("pass a json object and an index"));
    }
    assert(views(args@)[0] == args@[0]@);
    assert(views(args@)[1] == args@[1]@);
    match &args[1] {
        RispExp::Str(_) => {},
        RispExp::Number(_) => {},
        _ => {
            return Err(reason("index must be string or number"));
        },
    }
    let data = match &args[0] {
        RispExp::Json(data) => data,
        _ => {
            return Err(reason("not a json object"));
        },
    };
    match &args[1] {
        RispExp::Str(key) => Ok(RispExp::Json(json_clone(json_member(data, key.as_str())))),
        RispExp::Number(bits) => Ok(
            RispExp::Json(json_clone(json_item(data, position(host.to_integer(*bits))))),
        ),
        _ => Err(reason("index must be string or number")),
    }
}

} // verus!
