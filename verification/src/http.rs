//! The value that `httpget` returns, put together from the parts of a
//! response. The request itself is the host's to make.

use crate::display::is_lisp_val;
use crate::host::Host;
use crate::jsontypes::{json_error_text, json_from_str, json_of};
use crate::text::{reason, same_text, starts_with};
use crate::types::{
    lemma_list_view, result_view, views, Exp, FuncView, RispErr, RispExp, RispFunc,
};
use vstd::prelude::*;

verus! {

pub fn httpget_func() -> (r: RispExp)
    ensures
        r@ == Exp::Func(FuncView::Host("httpget"@)),
{
    RispExp::Func(RispFunc::Host("httpget".to_owned()))
}

/// The address that `httpget` asks for: a fixed one for `test`, else the
/// argument.
pub open spec fn target_url(url: Seq<char>) -> Seq<char> {
    if url == "test"@ {
        "https://jsonplaceholder.typicode.com/posts/1"@
    } else {
        url
    }
}

pub fn request_url(url: String) -> (r: String)
    ensures
        r@ == target_url(url@),
{
    if same_text(url.as_str(), "test") {
        "https://jsonplaceholder.typicode.com/posts/1".to_owned()
    } else {
        url
    }
}

/// What the address of a request is: an error without an argument, else the
/// address for the first argument taken as data.
pub open spec fn target_post(args: Seq<Exp>, out: Result<Seq<char>, Seq<char>>) -> bool {
    if args.len() < 1 {
        out == Err::<Seq<char>, Seq<char>>("pass a url"@)
    } else {
        match out {
            Ok(url) => exists|text: Seq<char>| #[trigger]
                is_lisp_val(args[0], text) && url == target_url(text),
            Err(_) => false,
        }
    }
}

pub open spec fn target_view(r: Result<String, RispErr>) -> Result<Seq<char>, Seq<char>> {
    match r {
        Ok(url) => Ok(url@),
        Err(e) => Err(e@),
    }
}

/// The address that `httpget` asks for on `args`.
pub fn httpget_target<H: Host>(args: &[RispExp], host: &H) -> (r: Result<String, RispErr>)
    ensures
        target_post(views(args@), target_view(r)),
{
    if args.len() < 1 {
        return Err(reason("pass a url"));
    }
    assert(views(args@)[0] == args@[0]@);
    let text = args[0].lisp_val(host);
    assert(is_lisp_val(views(args@)[0], text@));
    Ok(request_url(text))
}

/// Whether a content type announces JSON.
pub open spec fn is_json(content_type: Seq<char>) -> bool {
    "application/json"@.len() <= content_type.len() && content_type.take(
        "application/json"@.len() as int,
    ) == "application/json"@
}

pub fn is_json_content(content_type: &str) -> (r: bool)
    ensures
        r == is_json(content_type@),
{
    starts_with(content_type, "application/json")
}

/// The headers as a list of pairs, each a list of the name and the value.
pub open spec fn header_list(headers: Seq<(String, String)>) -> Seq<Exp> {
    Seq::new(
        headers.len(),
        |i: int| Exp::List(seq![Exp::Str(headers[i].0@), Exp::Str(headers[i].1@)]),
    )
}

/// The first three items of a response: the status, the address and the
/// headers.
pub open spec fn response_head(status: u64, url: Seq<char>, headers: Seq<(String, String)>) -> Seq<
    Exp,
> {
    seq![Exp::Number(status), Exp::Str(url), Exp::List(header_list(headers))]
}

/// What a response's value is: the head alone without a body; with a body
/// that is JSON, the head and the document; with any other body an error,
/// whose reason is the JSON crate's.
pub open spec fn response_post(
    status: u64,
    url: Seq<char>,
    headers: Seq<(String, String)>,
    body: Option<Seq<char>>,
    out: Result<Exp, Seq<char>>,
) -> bool {
    match body {
        None => out == Ok::<Exp, Seq<char>>(Exp::List(response_head(status, url, headers))),
        Some(text) => match json_of(text) {
            Some(data) => out == Ok::<Exp, Seq<char>>(
                Exp::List(response_head(status, url, headers).push(Exp::Json(data))),
            ),
            None => out is Err,
        },
    }
}

pub open spec fn body_view(body: Option<String>) -> Option<Seq<char>> {
    match body {
        Some(text) => Some(text@),
        None => None,
    }
}

/// The value of a response: a list of the status, the address and the
/// headers, and of the body as a document where there is one.
///
/// `json_body` is the body's text if the content type announces JSON. If
/// that text is not JSON, the result is the JSON crate's error.
pub fn http_response(
    status: u64,
    url: String,
    headers: Vec<(String, String)>,
    json_body: Option<String>,
) -> (r: Result<RispExp, RispErr>)
    ensures
        response_post(status, url@, headers@, body_view(json_body), result_view(r)),
{
    let mut header_items: Vec<RispExp> = Vec::new();
    let mut i: usize = 0;
    while i < headers.len()
        invariant
            i <= headers.len(),
            header_items@.len() == i,
            forall|j: int| 0 <= j < i ==> (#[trigger] header_items@[j])@ == header_list(headers@)[j],
        decreases headers.len() - i,
    {
        let mut pair: Vec<RispExp> = Vec::new();
        pair.push(RispExp::Str(headers[i].0.clone()));
        pair.push(RispExp::Str(headers[i].1.clone()));
        proof {
            lemma_list_view(pair);
            assert(views(pair@) =~= seq![Exp::Str(headers@[i as int].0@), Exp::Str(headers@[i as int].1@)]);
        }
        header_items.push(RispExp::List(pair));
        i += 1;
    }
    proof {
        lemma_list_view(header_items);
        assert(views(header_items@) =~= header_list(headers@));
    }
    let mut response: Vec<RispExp> = Vec::new();
    response.push(RispExp::Number(status));
    response.push(RispExp::Str(url));
    response.push(RispExp::List(header_items));
    assert(views(response@) =~= response_head(status, url@, headers@));
    match json_body {
        None => {
            proof {
                lemma_list_view(response);
            }
            Ok(RispExp::List(response))
        },
        Some(text) => {
            match json_from_str(text.as_str()) {
                Ok(data) => {
                    response.push(RispExp::Json(data));
                    proof {
                        lemma_list_view(response);
                        assert(views(response@) =~= response_head(status, url@, headers@).push(
                            Exp::Json(data),
                        ));
                    }
                    Ok(RispExp::List(response))
                },
                Err(e) => Err(RispErr::Reason(json_error_text(&e))),
            }
        },
    }
}

} // verus!
