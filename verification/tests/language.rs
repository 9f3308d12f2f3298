use risp::env::RispEnv;
use risp::host::Host;
use risp::interp::parse_eval;
use risp::registry::default_env;
use risp::{RispErr, RispExp};

struct Floats;

impl Host for Floats {
    fn sum_of(a: u64, b: u64) -> u64 {
        (f64::from_bits(a) + f64::from_bits(b)).to_bits()
    }

    fn difference_of(a: u64, b: u64) -> u64 {
        (f64::from_bits(a) - f64::from_bits(b)).to_bits()
    }

    fn product_of(a: u64, b: u64) -> u64 {
        (f64::from_bits(a) * f64::from_bits(b)).to_bits()
    }

    fn integer_of(bits: u64) -> i64 {
        f64::from_bits(bits) as i64
    }

    fn number_of(n: i64) -> u64 {
        (n as f64).to_bits()
    }

    fn parse_number(&self, token: &str) -> u64 {
        token.parse::<f64>().expect("a numeral").to_bits()
    }

    fn format_number(&self, bits: u64) -> String {
        f64::from_bits(bits).to_string()
    }

    fn add(&self, a: u64, b: u64) -> u64 {
        Self::sum_of(a, b)
    }

    fn subtract(&self, a: u64, b: u64) -> u64 {
        Self::difference_of(a, b)
    }

    fn multiply(&self, a: u64, b: u64) -> u64 {
        Self::product_of(a, b)
    }

    fn to_integer(&self, bits: u64) -> i64 {
        Self::integer_of(bits)
    }

    fn from_integer(&self, n: i64) -> u64 {
        Self::number_of(n)
    }

    fn call(&mut self, name: &str, _args: &[RispExp]) -> Result<RispExp, RispErr> {
        Err(RispErr::Reason(format!("no native procedure `{}`", name)))
    }
}

const DEPTH: usize = 64;

fn num(x: f64) -> RispExp {
    RispExp::Number(x.to_bits())
}

fn run(env: &mut RispEnv, line: &str) -> Option<Result<RispExp, RispErr>> {
    parse_eval(line.to_string(), env, &mut Floats, DEPTH)
}

fn value(env: &mut RispEnv, line: &str) -> RispExp {
    match run(env, line) {
        Some(Ok(v)) => v,
        other => panic!("`{}` gave {:?}", line, other),
    }
}

fn failure(env: &mut RispEnv, line: &str) -> String {
    match run(env, line) {
        Some(Err(RispErr::Reason(why))) => why,
        other => panic!("`{}` gave {:?}", line, other),
    }
}

#[test]
fn sum_of_three_numbers() {
    let mut env = default_env();
    assert_eq!(value(&mut env, "(+ 1 2 3)"), num(6.0));
}

#[test]
fn difference_of_three_numbers() {
    let mut env = default_env();
    assert_eq!(value(&mut env, "(- 10 1 2)"), num(7.0));
}

#[test]
fn product_of_three_numbers() {
    let mut env = default_env();
    assert_eq!(value(&mut env, "(* 2 3 4)"), num(24.0));
}

#[test]
fn sum_of_nothing_is_zero() {
    let mut env = default_env();
    assert_eq!(value(&mut env, "(+)"), num(0.0));
}

#[test]
fn product_and_difference_need_a_number() {
    let mut env = default_env();
    assert_eq!(failure(&mut env, "(*)"), "expected at least one number");
    assert_eq!(failure(&mut env, "(-)"), "expected at least one number");
}

#[test]
fn arithmetic_rejects_what_is_no_number() {
    let mut env = default_env();
    assert_eq!(failure(&mut env, "(+ 1 true)"), "expected a number");
    assert_eq!(failure(&mut env, "(* \"a\" 2)"), "expected a number");
    assert_eq!(failure(&mut env, "(- 1 (fn (x) x))"), "expected a number");
}

#[test]
fn definition_is_found_in_the_same_environment() {
    let mut env = default_env();
    assert_eq!(value(&mut env, "(def x 5)"), RispExp::Symbol("x".to_string()));
    assert_eq!(value(&mut env, "x"), num(5.0));
}

#[test]
fn definition_is_unknown_in_another_environment() {
    let mut env = default_env();
    value(&mut env, "(def x 5)");
    let mut other = default_env();
    assert_eq!(failure(&mut other, "x"), "unexpected symbol k='x'");
}

#[test]
fn definition_overwrites() {
    let mut env = default_env();
    value(&mut env, "(def x 5)");
    value(&mut env, "(def x (+ x 1))");
    assert_eq!(value(&mut env, "x"), num(6.0));
}

#[test]
fn repeat_maps_a_closure_over_a_generated_list() {
    let mut env = default_env();
    assert_eq!(
        value(&mut env, "(repeat (fn (n) (* n n)) (num 4))"),
        RispExp::List(vec![num(0.0), num(1.0), num(4.0), num(9.0)])
    );
}

#[test]
fn number_sequence_from_a_start() {
    let mut env = default_env();
    assert_eq!(
        value(&mut env, "(num 5 2)"),
        RispExp::List(vec![num(2.0), num(3.0), num(4.0)])
    );
    assert_eq!(value(&mut env, "(num 0)"), RispExp::List(vec![]));
    assert_eq!(value(&mut env, "(num 2 7)"), RispExp::List(vec![]));
    assert_eq!(value(&mut env, "(num 2.9)"), RispExp::List(vec![num(0.0), num(1.0)]));
}

#[test]
fn number_sequence_errors() {
    let mut env = default_env();
    assert_eq!(failure(&mut env, "(num)"), "pass a max value");
    assert_eq!(failure(&mut env, "(num true)"), "arg is not a number");
    assert_eq!(failure(&mut env, "(num 3 \"a\")"), "arg is not a number");
}

#[test]
fn closure_sees_a_later_definition_in_its_scope() {
    let mut env = default_env();
    value(&mut env, "(def y 1)");
    value(&mut env, "(def f (fn (x) (+ x y)))");
    value(&mut env, "(def y 2)");
    assert_eq!(value(&mut env, "(f 10)"), num(12.0));
}

#[test]
fn closure_keeps_the_scope_it_was_made_in() {
    let mut env = default_env();
    value(&mut env, "(def make (fn (n) (fn (x) (+ x n))))");
    value(&mut env, "(def add2 (make 2))");
    value(&mut env, "(def add5 (make 5))");
    assert_eq!(value(&mut env, "(add2 10)"), num(12.0));
    assert_eq!(value(&mut env, "(add5 10)"), num(15.0));
    assert_eq!(failure(&mut env, "n"), "unexpected symbol k='n'");
}

#[test]
fn closure_does_not_see_the_callers_scope() {
    let mut env = default_env();
    value(&mut env, "(def show (fn () hidden))");
    value(&mut env, "(def caller (fn (hidden) (show)))");
    assert_eq!(failure(&mut env, "(caller 1)"), "unexpected symbol k='hidden'");
}

#[test]
fn definition_inside_a_call_stays_inside() {
    let mut env = default_env();
    value(&mut env, "(def f (fn (x) (def inner x)))");
    assert_eq!(value(&mut env, "(f 3)"), RispExp::Symbol("inner".to_string()));
    assert_eq!(failure(&mut env, "inner"), "unexpected symbol k='inner'");
}

#[test]
fn parameter_hides_an_outer_name() {
    let mut env = default_env();
    value(&mut env, "(def x 1)");
    value(&mut env, "(def f (fn (x) (* x 10)))");
    assert_eq!(value(&mut env, "(f 4)"), num(40.0));
    assert_eq!(value(&mut env, "x"), num(1.0));
}

#[test]
fn comparison_chains() {
    let mut env = default_env();
    assert_eq!(value(&mut env, "(< 1 2 3)"), RispExp::Bool(true));
    assert_eq!(value(&mut env, "(< 1 3 2)"), RispExp::Bool(false));
    assert_eq!(value(&mut env, "(<= 1 1 2)"), RispExp::Bool(true));
    assert_eq!(value(&mut env, "(> 3 2 1)"), RispExp::Bool(true));
    assert_eq!(value(&mut env, "(> 3 3)"), RispExp::Bool(false));
    assert_eq!(value(&mut env, "(>= 3 3 1)"), RispExp::Bool(true));
    assert_eq!(value(&mut env, "(= 2 2 2)"), RispExp::Bool(true));
    assert_eq!(value(&mut env, "(= 2 2 3)"), RispExp::Bool(false));
    assert_eq!(value(&mut env, "(< 7)"), RispExp::Bool(true));
    assert_eq!(value(&mut env, "(= -0 0)"), RispExp::Bool(true));
    assert_eq!(value(&mut env, "(< -1 0.5)"), RispExp::Bool(true));
    assert_eq!(value(&mut env, "(< -1 -2)"), RispExp::Bool(false));
}

#[test]
fn comparison_of_nothing_is_an_error() {
    let mut env = default_env();
    assert_eq!(failure(&mut env, "(<)"), "expected at least one number");
}

#[test]
fn comparison_rejects_what_is_no_number() {
    let mut env = default_env();
    assert_eq!(failure(&mut env, "(< 1 true)"), "expected a number");
}

#[test]
fn blank_lines_give_nothing() {
    let mut env = default_env();
    assert_eq!(run(&mut env, ""), None);
    assert_eq!(run(&mut env, "   \n"), None);
    assert_eq!(run(&mut env, "; only a comment"), None);
    assert_eq!(run(&mut env, "  # another (+ 1 2)\n  "), None);
}

#[test]
fn unbalanced_input_is_a_parse_error() {
    let mut env = default_env();
    let why = failure(&mut env, "(+ 1 2");
    assert!(why.contains("closing parenthesis"), "{}", why);
    assert_eq!(why, "no closing parenthesis");
}

#[test]
fn lone_closing_parenthesis_is_a_parse_error() {
    let mut env = default_env();
    let why = failure(&mut env, ")");
    assert!(why.contains("unexpected closing parenthesis"), "{}", why);
}

#[test]
fn atoms_evaluate_to_themselves() {
    let mut env = default_env();
    assert_eq!(value(&mut env, "true"), RispExp::Bool(true));
    assert_eq!(value(&mut env, "false"), RispExp::Bool(false));
    assert_eq!(value(&mut env, "1.5"), num(1.5));
    assert_eq!(value(&mut env, "-2e3"), num(-2000.0));
    assert_eq!(value(&mut env, "\"hello world\""), RispExp::Str("hello world".to_string()));
    assert_eq!(value(&mut env, ":key"), RispExp::Symbol(":key".to_string()));
}

#[test]
fn names_of_numbers_are_symbols() {
    let mut env = default_env();
    assert_eq!(failure(&mut env, "inf"), "unexpected symbol k='inf'");
    assert_eq!(failure(&mut env, "nan"), "unexpected symbol k='nan'");
    assert_eq!(failure(&mut env, "-infinity"), "unexpected symbol k='-infinity'");
    value(&mut env, "(def inf 1e308)");
    assert_eq!(value(&mut env, "(< 1 inf)"), RispExp::Bool(true));
}

#[test]
fn malformed_number_is_a_symbol() {
    let mut env = default_env();
    assert_eq!(failure(&mut env, "1.2.3"), "unexpected symbol k='1.2.3'");
    value(&mut env, "(def 1.2.3 4)");
    assert_eq!(value(&mut env, "1.2.3"), num(4.0));
}

#[test]
fn empty_list_cannot_be_evaluated() {
    let mut env = default_env();
    assert_eq!(failure(&mut env, "()"), "empty form cannot be evaluated");
}

#[test]
fn head_must_be_callable() {
    let mut env = default_env();
    assert_eq!(failure(&mut env, "(1 2 3)"), "not callable");
    assert_eq!(failure(&mut env, "(\"f\" 2)"), "not callable");
    assert_eq!(failure(&mut env, "(nothing 2)"), "unexpected symbol k='nothing'");
}

#[test]
fn arguments_are_evaluated_before_the_call_is_made() {
    let mut env = default_env();
    assert_eq!(failure(&mut env, "(1 missing)"), "unexpected symbol k='missing'");
    value(&mut env, "(def two (fn (a b) a))");
    assert_eq!(failure(&mut env, "(two missing)"), "unexpected symbol k='missing'");
    assert_eq!(failure(&mut env, "(two (def seen 1))"), "expected 2 arguments, got 1");
    assert_eq!(value(&mut env, "seen"), num(1.0));
}

#[test]
fn arguments_are_evaluated_from_left_to_right() {
    let mut env = default_env();
    assert_eq!(failure(&mut env, "(+ first second)"), "unexpected symbol k='first'");
    assert_eq!(failure(&mut env, "(+ 1 (def a 2) missing (def b 3))"), "unexpected symbol k='missing'");
    assert_eq!(value(&mut env, "a"), num(2.0));
    assert_eq!(failure(&mut env, "b"), "unexpected symbol k='b'");
}

#[test]
fn if_takes_the_branch_of_the_test() {
    let mut env = default_env();
    assert_eq!(value(&mut env, "(if true 1 2)"), num(1.0));
    assert_eq!(value(&mut env, "(if false 1 2)"), num(2.0));
    assert_eq!(value(&mut env, "(if (< 1 2) \"yes\" \"no\")"), RispExp::Str("yes".to_string()));
    // the branch that is not taken is not evaluated
    assert_eq!(value(&mut env, "(if true 1 missing)"), num(1.0));
}

#[test]
fn if_errors() {
    let mut env = default_env();
    assert_eq!(failure(&mut env, "(if)"), "expected test form");
    assert_eq!(failure(&mut env, "(if true)"), "expected form idx=1");
    assert_eq!(failure(&mut env, "(if false 1)"), "expected form idx=2");
    assert_eq!(failure(&mut env, "(if 1 2 3)"), "unexpected test form='1'");
    assert_eq!(failure(&mut env, "(if (+ 1 2) 2 3)"), "unexpected test form='(+,1,2)'");
    assert_eq!(failure(&mut env, "(if missing 2 3)"), "unexpected symbol k='missing'");
}

#[test]
fn def_errors() {
    let mut env = default_env();
    assert_eq!(failure(&mut env, "(def)"), "expected first form");
    assert_eq!(failure(&mut env, "(def 1 2)"), "expected first form to be a symbol");
    assert_eq!(failure(&mut env, "(def x)"), "expected second form");
    assert_eq!(failure(&mut env, "(def x 1 2)"), "def can only have two forms ");
    assert_eq!(failure(&mut env, "(def x missing)"), "unexpected symbol k='missing'");
    assert_eq!(failure(&mut env, "x"), "unexpected symbol k='x'");
}

#[test]
fn fn_errors() {
    let mut env = default_env();
    assert_eq!(failure(&mut env, "(fn)"), "expected args form");
    assert_eq!(failure(&mut env, "(fn (x))"), "expected second form");
    assert_eq!(failure(&mut env, "(fn (x) 1 2)"), "fn definition can only have two forms ");
    assert_eq!(failure(&mut env, "(fn 5 x)"), "expected args form to be a list");
    assert_eq!(failure(&mut env, "(fn x)"), "expected args form to be a list");
    assert_eq!(failure(&mut env, "(fn (a 1) a)"), "expected symbols in the argument list");
    assert_eq!(failure(&mut env, "(fn (a \"b\") a)"), "expected symbols in the argument list");
}

#[test]
fn closure_is_no_printable_value_of_its_own() {
    let mut env = default_env();
    match value(&mut env, "(fn (x) x)") {
        RispExp::Lambda(_) => {}
        other => panic!("{:?}", other),
    }
    value(&mut env, "(def id (fn (x) x))");
    assert_eq!(value(&mut env, "(id 3)"), num(3.0));
}

#[test]
fn parameter_list_is_checked_when_the_closure_is_made() {
    let mut env = default_env();
    assert_eq!(failure(&mut env, "(def bad (fn x x))"), "expected args form to be a list");
    assert_eq!(failure(&mut env, "bad"), "unexpected symbol k='bad'");
    assert_eq!(failure(&mut env, "(def worse (fn (1 2) 3))"), "expected symbols in the argument list");
    value(&mut env, "(def none (fn () 3))");
    assert_eq!(value(&mut env, "(none)"), num(3.0));
}

#[test]
fn arity_mismatch_names_both_counts() {
    let mut env = default_env();
    value(&mut env, "(def f (fn (a b) a))");
    assert_eq!(failure(&mut env, "(f 1)"), "expected 2 arguments, got 1");
    assert_eq!(failure(&mut env, "(f 1 2 3)"), "expected 2 arguments, got 3");
    value(&mut env, "(def g (fn (a b c d e f g h i j k l) a))");
    assert_eq!(failure(&mut env, "(g)"), "expected 12 arguments, got 0");
    assert_eq!(value(&mut env, "(f 1 2)"), num(1.0));
}

#[test]
fn later_parameter_of_the_same_name_counts() {
    let mut env = default_env();
    value(&mut env, "(def f (fn (a a) a))");
    assert_eq!(value(&mut env, "(f 1 2)"), num(2.0));
}

#[test]
fn repeat_errors() {
    let mut env = default_env();
    assert_eq!(failure(&mut env, "(repeat)"), "expected function form");
    assert_eq!(failure(&mut env, "(repeat 5 (num 2))"), "not a function");
    assert_eq!(failure(&mut env, "(repeat + (num 2))"), "not a function");
    assert_eq!(failure(&mut env, "(repeat (fn (x) x))"), "expected list");
    assert_eq!(failure(&mut env, "(repeat (fn (x) x) 5)"), "not a list");
    assert_eq!(failure(&mut env, "(repeat (fn (x y) x) (num 2))"), "expected 2 arguments, got 1");
    assert_eq!(failure(&mut env, "(repeat (fn (x) (+ x missing)) (num 2))"), "unexpected symbol k='missing'");
}

#[test]
fn repeat_over_nothing_calls_nothing() {
    let mut env = default_env();
    assert_eq!(value(&mut env, "(repeat (fn (x) missing) (num 0))"), RispExp::List(vec![]));
}

#[test]
fn repeat_takes_a_closure_of_one_parameter() {
    let mut env = default_env();
    assert_eq!(failure(&mut env, "(repeat (fn (x y) x) (num 0))"), "expected 2 arguments, got 1");
    assert_eq!(failure(&mut env, "(repeat (fn () 1) (num 3))"), "expected 0 arguments, got 1");
    // the closure is looked at before the list is
    assert_eq!(failure(&mut env, "(repeat (fn (x y) x) missing)"), "expected 2 arguments, got 1");
    assert_eq!(failure(&mut env, "(repeat (fn (x y) x))"), "expected 2 arguments, got 1");
}

#[test]
fn special_forms_cannot_be_shadowed() {
    let mut env = default_env();
    value(&mut env, "(def if 5)");
    assert_eq!(value(&mut env, "(if true 1 2)"), num(1.0));
    assert_eq!(value(&mut env, "if"), num(5.0));
}

#[test]
fn error_leaves_earlier_definitions() {
    let mut env = default_env();
    value(&mut env, "(def kept 1)");
    failure(&mut env, "(+ kept missing)");
    assert_eq!(value(&mut env, "kept"), num(1.0));
}

#[test]
fn recursion_is_cut_at_the_depth() {
    let mut env = default_env();
    value(&mut env, "(def forever (fn (x) (forever x)))");
    assert_eq!(failure(&mut env, "(forever 1)"), "evaluation is nested too deeply");
    assert_eq!(
        parse_eval("1".to_string(), &mut env, &mut Floats, 0),
        Some(Err(RispErr::Reason("evaluation is nested too deeply".to_string())))
    );
    assert_eq!(parse_eval("1".to_string(), &mut env, &mut Floats, 1), Some(Ok(num(1.0))));
}

#[test]
fn recursion_that_ends_is_evaluated() {
    let mut env = default_env();
    value(&mut env, "(def fact (fn (n) (if (< n 2) 1 (* n (fact (- n 1))))))");
    assert_eq!(value(&mut env, "(fact 5)"), num(120.0));
}

#[test]
fn host_procedure_is_called_by_its_name() {
    let mut env = default_env();
    assert_eq!(failure(&mut env, "(httpget \"test\")"), "no native procedure `httpget`");
}

#[test]
fn only_the_first_form_of_a_line_is_evaluated() {
    let mut env = default_env();
    assert_eq!(value(&mut env, "1 2 3"), num(1.0));
    assert_eq!(value(&mut env, "(+ 1 2) )"), num(3.0));
}
