use risp::eval::apply_native;
use risp::host::Host;
use risp::http::{http_response, httpget_func, httpget_target, is_json_content, request_url};
use risp::jsontypes::{display, get_apply, get_func};
use risp::lists::{
    car, car_apply, cdr, cdr_apply, list, list_apply, number_sequence, number_sequence_apply,
    numbers_between,
};
use risp::math::{
    compare_apply, comparison, is_chain, minus_apply, minus_func, mult_apply, mult_func,
    parse_list_of_floats, parse_single_float, plus_apply, plus_func, relation_holds,
};
use risp::text::{append, decimal_string, same_text, starts_with};
use risp::{RispErr, RispExp, RispFunc, RispLambda, Relation};
use std::rc::Rc;

struct Floats;

impl Host for Floats {
    fn sum_of(a: u64, b: u64) -> u64 {
        (f64::from_bits(a) + f64::from_bits(b)).to_bits()
    }

    fn difference_of(a: u64, b: u64) -> u64 {
        (f64::from_bits(a) - f64::from_bits(b)).to_bits()
    }

    fn product_of(a: u64, b: u64) -> u64 {
        (f64::from_bits(a) * f64::from_bits(b)).to_bits()
    }

    fn integer_of(bits: u64) -> i64 {
        f64::from_bits(bits) as i64
    }

    fn number_of(n: i64) -> u64 {
        (n as f64).to_bits()
    }

    fn parse_number(&self, token: &str) -> u64 {
        token.parse::<f64>().expect("a numeral").to_bits()
    }

    fn format_number(&self, bits: u64) -> String {
        f64::from_bits(bits).to_string()
    }

    fn add(&self, a: u64, b: u64) -> u64 {
        Self::sum_of(a, b)
    }

    fn subtract(&self, a: u64, b: u64) -> u64 {
        Self::difference_of(a, b)
    }

    fn multiply(&self, a: u64, b: u64) -> u64 {
        Self::product_of(a, b)
    }

    fn to_integer(&self, bits: u64) -> i64 {
        Self::integer_of(bits)
    }

    fn from_integer(&self, n: i64) -> u64 {
        Self::number_of(n)
    }

    fn call(&mut self, name: &str, args: &[RispExp]) -> Result<RispExp, RispErr> {
        Ok(RispExp::Str(format!("{}/{}", name, args.len())))
    }
}

fn sym(name: &str) -> RispExp {
    RispExp::Symbol(name.to_string())
}

fn text(s: &str) -> RispExp {
    RispExp::Str(s.to_string())
}

fn num(x: f64) -> RispExp {
    RispExp::Number(x.to_bits())
}

fn reason_of<T: std::fmt::Debug>(r: Result<T, RispErr>) -> String {
    match r {
        Err(RispErr::Reason(why)) => why,
        Ok(v) => panic!("{:?}", v),
    }
}

fn closure() -> RispExp {
    RispExp::Lambda(RispLambda {
        params_exp: Rc::new(RispExp::List(vec![sym("x")])),
        body_exp: Rc::new(sym("x")),
        scope: 0,
    })
}

fn document(json: &str) -> serde_json::Value {
    serde_json::from_str(json).unwrap()
}

#[test]
fn printable_forms() {
    assert_eq!(RispExp::Bool(true).to_string(&Floats), "true");
    assert_eq!(RispExp::Bool(false).to_string(&Floats), "false");
    assert_eq!(sym("abc").to_string(&Floats), "abc");
    assert_eq!(num(6.0).to_string(&Floats), "6");
    assert_eq!(num(1.5).to_string(&Floats), "1.5");
    assert_eq!(text("hi").to_string(&Floats), "\"hi\"");
    assert_eq!(RispExp::Func(RispFunc::Plus).to_string(&Floats), "Function {}");
    assert_eq!(closure().to_string(&Floats), "Lambda {}");
}

#[test]
fn printable_form_of_a_list() {
    let list = RispExp::List(vec![num(1.0), text("a"), RispExp::Bool(true), sym("s")]);
    assert_eq!(list.to_string(&Floats), "(1,\"a\",true,s)");
    assert_eq!(RispExp::List(vec![]).to_string(&Floats), "()");
    assert_eq!(RispExp::List(vec![num(2.0)]).to_string(&Floats), "(2)");
    let nested = RispExp::List(vec![RispExp::List(vec![num(1.0), num(2.0)]), RispExp::List(vec![])]);
    assert_eq!(nested.to_string(&Floats), "((1,2),())");
}

#[test]
fn printable_form_of_a_document() {
    let doc = document("{\"a\":[1,2]}");
    assert_eq!(display(&doc), "{\n  \"a\": [\n    1,\n    2\n  ]\n}");
    assert_eq!(RispExp::Json(doc).to_string(&Floats), "{\n  \"a\": [\n    1,\n    2\n  ]\n}");
    assert_eq!(display(&serde_json::Value::Null), "null");
}

#[test]
fn value_as_data() {
    assert_eq!(text("hi").lisp_val(&Floats), "hi");
    assert_eq!(num(3.0).lisp_val(&Floats), "3");
    assert_eq!(sym("s").lisp_val(&Floats), "s");
    assert_eq!(RispExp::List(vec![text("a")]).lisp_val(&Floats), "(\"a\")");
}

#[test]
fn duplicate_is_equal() {
    let all = RispExp::List(vec![
        RispExp::Bool(true),
        sym("s"),
        num(1.0),
        text("t"),
        RispExp::List(vec![num(2.0), RispExp::List(vec![])]),
        RispExp::Func(RispFunc::Host("h".to_string())),
        RispExp::Func(RispFunc::Compare(Relation::Less)),
        closure(),
        RispExp::Json(document("{\"k\": [true, null, 1.5, \"s\"]}")),
    ]);
    assert_eq!(all.duplicate(), all);
}

#[test]
fn native_procedures_as_values() {
    assert_eq!(list(), RispExp::Func(RispFunc::List));
    assert_eq!(car(), RispExp::Func(RispFunc::Car));
    assert_eq!(cdr(), RispExp::Func(RispFunc::Cdr));
    assert_eq!(number_sequence(), RispExp::Func(RispFunc::NumberSequence));
    assert_eq!(plus_func(), RispExp::Func(RispFunc::Plus));
    assert_eq!(mult_func(), RispExp::Func(RispFunc::Mult));
    assert_eq!(minus_func(), RispExp::Func(RispFunc::Minus));
    assert_eq!(get_func(), RispExp::Func(RispFunc::JsonGet));
    assert_eq!(comparison(Relation::Equal), RispExp::Func(RispFunc::Compare(Relation::Equal)));
    assert_eq!(httpget_func(), RispExp::Func(RispFunc::Host("httpget".to_string())));
}

#[test]
fn list_collects_its_arguments() {
    assert_eq!(list_apply(&[num(1.0), text("a")]).unwrap(), RispExp::List(vec![num(1.0), text("a")]));
    assert_eq!(list_apply(&[]).unwrap(), RispExp::List(vec![]));
}

#[test]
fn car_is_the_first_item() {
    let l = RispExp::List(vec![num(1.0), num(2.0), num(3.0)]);
    assert_eq!(car_apply(&[l]).unwrap(), num(1.0));
    assert_eq!(reason_of(car_apply(&[])), "pass a list");
    assert_eq!(reason_of(car_apply(&[num(1.0)])), "arg is not a list");
    assert_eq!(reason_of(car_apply(&[RispExp::List(vec![])])), "empty list");
}

#[test]
fn cdr_is_the_list_without_its_first_item() {
    let l = RispExp::List(vec![num(1.0), num(2.0), num(3.0)]);
    assert_eq!(cdr_apply(&[l]).unwrap(), RispExp::List(vec![num(2.0), num(3.0)]));
    assert_eq!(cdr_apply(&[RispExp::List(vec![num(1.0)])]).unwrap(), RispExp::List(vec![]));
    assert_eq!(reason_of(cdr_apply(&[])), "pass a list");
    assert_eq!(reason_of(cdr_apply(&[text("a")])), "arg is not a list");
    assert_eq!(reason_of(cdr_apply(&[RispExp::List(vec![])])), "empty list");
}

#[test]
fn numbers_between_two_integers() {
    assert_eq!(numbers_between(2, 5, &Floats), vec![num(2.0), num(3.0), num(4.0)]);
    assert_eq!(numbers_between(-1, 1, &Floats), vec![num(-1.0), num(0.0)]);
    assert_eq!(numbers_between(5, 5, &Floats), Vec::<RispExp>::new());
    assert_eq!(numbers_between(5, 2, &Floats), Vec::<RispExp>::new());
}

#[test]
fn number_sequence_by_its_arguments() {
    assert_eq!(
        number_sequence_apply(&[num(3.0)], &Floats).unwrap(),
        RispExp::List(vec![num(0.0), num(1.0), num(2.0)])
    );
    assert_eq!(
        number_sequence_apply(&[num(3.0), num(1.0), text("ignored")], &Floats).unwrap(),
        RispExp::List(vec![num(1.0), num(2.0)])
    );
    assert_eq!(number_sequence_apply(&[num(f64::NAN)], &Floats).unwrap(), RispExp::List(vec![]));
    assert_eq!(reason_of(number_sequence_apply(&[], &Floats)), "pass a max value");
    assert_eq!(reason_of(number_sequence_apply(&[text("3")], &Floats)), "arg is not a number");
}

#[test]
fn numbers_of_expressions() {
    assert_eq!(parse_single_float(&num(2.5)).unwrap(), 2.5f64.to_bits());
    assert_eq!(reason_of(parse_single_float(&text("2.5"))), "expected a number");
    assert_eq!(
        parse_list_of_floats(&[num(1.0), num(-2.0)]).unwrap(),
        vec![1.0f64.to_bits(), (-2.0f64).to_bits()]
    );
    assert_eq!(parse_list_of_floats(&[]).unwrap(), Vec::<u64>::new());
    assert_eq!(reason_of(parse_list_of_floats(&[num(1.0), sym("x")])), "expected a number");
}

#[test]
fn arithmetic_on_arguments() {
    assert_eq!(plus_apply(&[num(1.5), num(2.0), num(3.0)], &Floats).unwrap(), num(6.5));
    assert_eq!(plus_apply(&[], &Floats).unwrap(), num(0.0));
    assert_eq!(mult_apply(&[num(2.0), num(3.0), num(4.0)], &Floats).unwrap(), num(24.0));
    assert_eq!(mult_apply(&[num(7.0)], &Floats).unwrap(), num(7.0));
    assert_eq!(minus_apply(&[num(10.0), num(1.0), num(2.0)], &Floats).unwrap(), num(7.0));
    assert_eq!(minus_apply(&[num(10.0)], &Floats).unwrap(), num(10.0));
    assert_eq!(reason_of(mult_apply(&[], &Floats)), "expected at least one number");
    assert_eq!(reason_of(minus_apply(&[], &Floats)), "expected at least one number");
    assert_eq!(reason_of(plus_apply(&[RispExp::Bool(true)], &Floats)), "expected a number");
}

#[test]
fn relations_agree_with_the_numbers() {
    let samples = [
        0.0,
        -0.0,
        1.0,
        -1.0,
        0.5,
        -0.5,
        1e300,
        -1e300,
        5e-324,
        -5e-324,
        f64::MAX,
        f64::MIN,
        f64::MIN_POSITIVE,
        f64::INFINITY,
        f64::NEG_INFINITY,
        f64::NAN,
        -f64::NAN,
        2.0,
        3.0,
    ];
    for a in samples {
        for b in samples {
            let (x, y) = (a.to_bits(), b.to_bits());
            assert_eq!(relation_holds(Relation::Equal, x, y), a == b, "{} = {}", a, b);
            assert_eq!(relation_holds(Relation::Less, x, y), a < b, "{} < {}", a, b);
            assert_eq!(relation_holds(Relation::LessEqual, x, y), a <= b, "{} <= {}", a, b);
            assert_eq!(relation_holds(Relation::Greater, x, y), a > b, "{} > {}", a, b);
            assert_eq!(relation_holds(Relation::GreaterEqual, x, y), a >= b, "{} >= {}", a, b);
        }
    }
}

#[test]
fn chains_of_numbers() {
    let bits = |xs: &[f64]| xs.iter().map(|x| x.to_bits()).collect::<Vec<u64>>();
    assert!(is_chain(Relation::Less, &bits(&[1.0, 2.0, 3.0])));
    assert!(!is_chain(Relation::Less, &bits(&[1.0, 3.0, 2.0])));
    assert!(!is_chain(Relation::Less, &bits(&[2.0, 1.0, 3.0])));
    assert!(is_chain(Relation::Less, &bits(&[1.0])));
    assert!(is_chain(Relation::Less, &bits(&[])));
    assert!(is_chain(Relation::Equal, &bits(&[0.0, -0.0, 0.0])));
    assert!(is_chain(Relation::Equal, &bits(&[f64::NAN])));
    assert!(!is_chain(Relation::Equal, &bits(&[f64::NAN, f64::NAN])));
    assert!(!is_chain(Relation::GreaterEqual, &bits(&[3.0, 3.0, 4.0])));
}

#[test]
fn comparison_by_its_arguments() {
    assert_eq!(compare_apply(Relation::Less, &[num(1.0), num(2.0), num(3.0)]).unwrap(), RispExp::Bool(true));
    assert_eq!(compare_apply(Relation::Less, &[num(1.0), num(3.0), num(2.0)]).unwrap(), RispExp::Bool(false));
    assert_eq!(compare_apply(Relation::Greater, &[num(1.0)]).unwrap(), RispExp::Bool(true));
    assert_eq!(reason_of(compare_apply(Relation::Less, &[])), "expected at least one number");
    assert_eq!(reason_of(compare_apply(Relation::Less, &[num(1.0), text("2")])), "expected a number");
}

#[test]
fn native_procedures_by_reference() {
    let mut host = Floats;
    let args = [RispExp::List(vec![num(1.0), num(2.0)])];
    assert_eq!(apply_native(&RispFunc::Car, &args, &mut host).unwrap(), num(1.0));
    assert_eq!(apply_native(&RispFunc::Cdr, &args, &mut host).unwrap(), RispExp::List(vec![num(2.0)]));
    assert_eq!(
        apply_native(&RispFunc::List, &args, &mut host).unwrap(),
        RispExp::List(vec![RispExp::List(vec![num(1.0), num(2.0)])])
    );
    let numbers = [num(5.0), num(2.0)];
    assert_eq!(apply_native(&RispFunc::Plus, &numbers, &mut host).unwrap(), num(7.0));
    assert_eq!(apply_native(&RispFunc::Minus, &numbers, &mut host).unwrap(), num(3.0));
    assert_eq!(apply_native(&RispFunc::Mult, &numbers, &mut host).unwrap(), num(10.0));
    assert_eq!(
        apply_native(&RispFunc::Compare(Relation::Greater), &numbers, &mut host).unwrap(),
        RispExp::Bool(true)
    );
    assert_eq!(
        apply_native(&RispFunc::NumberSequence, &numbers, &mut host).unwrap(),
        RispExp::List(vec![num(2.0), num(3.0), num(4.0)])
    );
    assert_eq!(
        apply_native(&RispFunc::Host("echo".to_string()), &numbers, &mut host).unwrap(),
        text("echo/2")
    );
}

#[test]
fn member_of_a_document() {
    let doc = || RispExp::Json(document("{\"name\": \"risp\", \"1\": [10, 20], \"n\": {\"m\": 2}}"));
    assert_eq!(get_apply(&[doc(), text("name")], &Floats).unwrap(), RispExp::Json(document("\"risp\"")));
    assert_eq!(get_apply(&[doc(), text("n")], &Floats).unwrap(), RispExp::Json(document("{\"m\": 2}")));
    assert_eq!(get_apply(&[doc(), text("1")], &Floats).unwrap(), RispExp::Json(document("[10, 20]")));
    assert_eq!(get_apply(&[doc(), text("absent")], &Floats).unwrap(), RispExp::Json(serde_json::Value::Null));
    // a number is a place in a list, and no key
    assert_eq!(get_apply(&[doc(), num(1.0)], &Floats).unwrap(), RispExp::Json(serde_json::Value::Null));
}

#[test]
fn item_of_a_list_document() {
    let list = || RispExp::Json(document("[10, 20, [30]]"));
    assert_eq!(get_apply(&[list(), num(0.0)], &Floats).unwrap(), RispExp::Json(document("10")));
    assert_eq!(get_apply(&[list(), num(1.0)], &Floats).unwrap(), RispExp::Json(document("20")));
    assert_eq!(get_apply(&[list(), num(1.9)], &Floats).unwrap(), RispExp::Json(document("20")));
    assert_eq!(get_apply(&[list(), num(2.0)], &Floats).unwrap(), RispExp::Json(document("[30]")));
    assert_eq!(get_apply(&[list(), num(3.0)], &Floats).unwrap(), RispExp::Json(serde_json::Value::Null));
    assert_eq!(get_apply(&[list(), num(-1.0)], &Floats).unwrap(), RispExp::Json(serde_json::Value::Null));
    assert_eq!(get_apply(&[list(), num(1e300)], &Floats).unwrap(), RispExp::Json(serde_json::Value::Null));
    assert_eq!(get_apply(&[list(), num(f64::NAN)], &Floats).unwrap(), RispExp::Json(document("10")));
    // a text is a key, and no place
    assert_eq!(get_apply(&[list(), text("1")], &Floats).unwrap(), RispExp::Json(serde_json::Value::Null));
}

#[test]
fn member_errors() {
    let doc = || RispExp::Json(document("{}"));
    assert_eq!(reason_of(get_apply(&[doc()], &Floats)), "pass a json object and an index");
    assert_eq!(reason_of(get_apply(&[], &Floats)), "pass a json object and an index");
    assert_eq!(reason_of(get_apply(&[doc(), RispExp::Bool(true)], &Floats)), "index must be string or number");
    assert_eq!(reason_of(get_apply(&[text("{}"), text("a")], &Floats)), "not a json object");
    assert_eq!(reason_of(get_apply(&[num(1.0), sym("a")], &Floats)), "index must be string or number");
}

#[test]
fn response_without_a_body() {
    let headers = vec![
        ("content-type".to_string(), "text/html".to_string()),
        ("x-a".to_string(), "b".to_string()),
    ];
    let r = http_response(200.0f64.to_bits(), "http://h/p".to_string(), headers, None).unwrap();
    assert_eq!(
        r,
        RispExp::List(vec![
            num(200.0),
            text("http://h/p"),
            RispExp::List(vec![
                RispExp::List(vec![text("content-type"), text("text/html")]),
                RispExp::List(vec![text("x-a"), text("b")]),
            ]),
        ])
    );
}

#[test]
fn response_with_a_document() {
    let r = http_response(404.0f64.to_bits(), "u".to_string(), vec![], Some("{\"id\": 1}".to_string())).unwrap();
    assert_eq!(
        r,
        RispExp::List(vec![
            num(404.0),
            text("u"),
            RispExp::List(vec![]),
            RispExp::Json(document("{\"id\": 1}")),
        ])
    );
}

#[test]
fn response_with_a_body_that_is_no_document() {
    let r = http_response(200.0f64.to_bits(), "u".to_string(), vec![], Some("{oops".to_string()));
    assert_eq!(reason_of(r), "key must be a string at line 1 column 2");
}

#[test]
fn content_types_that_announce_a_document() {
    assert!(is_json_content("application/json"));
    assert!(is_json_content("application/json; charset=utf-8"));
    assert!(!is_json_content("text/html"));
    assert!(!is_json_content("application/jso"));
    assert!(!is_json_content(""));
    assert!(!is_json_content(" application/json"));
}

#[test]
fn address_of_a_request() {
    assert_eq!(request_url("test".to_string()), "https://jsonplaceholder.typicode.com/posts/1");
    assert_eq!(request_url("http://example.org".to_string()), "http://example.org");
    assert_eq!(request_url("tests".to_string()), "tests");
}

#[test]
fn address_from_the_arguments() {
    assert_eq!(httpget_target(&[text("http://a/b")], &Floats).unwrap(), "http://a/b");
    assert_eq!(
        httpget_target(&[text("test"), num(1.0)], &Floats).unwrap(),
        "https://jsonplaceholder.typicode.com/posts/1"
    );
    assert_eq!(httpget_target(&[sym("test")], &Floats).unwrap(), "https://jsonplaceholder.typicode.com/posts/1");
    assert_eq!(httpget_target(&[num(8080.0)], &Floats).unwrap(), "8080");
    assert_eq!(httpget_target(&[RispExp::Bool(true)], &Floats).unwrap(), "true");
    assert_eq!(reason_of(httpget_target(&[], &Floats)), "pass a url");
}

#[test]
fn text_helpers() {
    assert!(same_text("if", "if"));
    assert!(!same_text("if", "iff"));
    assert!(!same_text("if", "of"));
    assert!(same_text("", ""));
    assert!(same_text("héé", "héé"));
    assert!(starts_with("abc", "ab"));
    assert!(starts_with("abc", "abc"));
    assert!(starts_with("abc", ""));
    assert!(!starts_with("abc", "abcd"));
    assert!(!starts_with("abc", "b"));
    assert_eq!(append("ab", "cd"), "abcd");
}

#[test]
fn decimal_notation() {
    assert_eq!(decimal_string(0), "0");
    assert_eq!(decimal_string(7), "7");
    assert_eq!(decimal_string(10), "10");
    assert_eq!(decimal_string(1234567890), "1234567890");
    assert_eq!(decimal_string(usize::MAX), usize::MAX.to_string());
}
