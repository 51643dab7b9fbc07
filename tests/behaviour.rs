use lambda_lists::{eval, eval_bounded, parse, Builtin, Exp, ParseErrorKind};
use Exp::{Appl, Const, Lambda, Q};

fn c(s: &str) -> Exp {
    Const(s.to_string())
}

fn lam(arg: &str, body: Exp) -> Exp {
    Lambda { arg: arg.to_string(), body: Box::new(body) }
}

#[test]
fn application_keeps_source_order() {
    assert_eq!(parse("(a b)").unwrap(), Appl(vec![c("a"), c("b")]));
    assert_eq!(parse("(a b c d)").unwrap(), Appl(vec![c("a"), c("b"), c("c"), c("d")]));
}

#[test]
fn separators_may_be_any_run_of_whitespace() {
    assert_eq!(parse("(a \t\r\n b)").unwrap(), Appl(vec![c("a"), c("b")]));
}

#[test]
fn list_is_stored_reversed() {
    assert_eq!(parse("{x y z}").unwrap(), Q(vec![c("z"), c("y"), c("x")]));
}

#[test]
fn empty_list_parses() {
    assert_eq!(parse("{}").unwrap(), Q(vec![]));
}

#[test]
fn arity_failures() {
    assert!(parse("()").is_err());
    assert!(parse("(constant)").is_err());
    assert!(parse("x.()").is_err());
}

#[test]
fn builtin_keywords() {
    assert_eq!(parse("hd").unwrap(), Exp::Builtin(Builtin::Hd));
    assert_eq!(parse("tl").unwrap(), Exp::Builtin(Builtin::Tl));
    assert_eq!(parse("eval").unwrap(), Exp::Builtin(Builtin::Eval));
}

#[test]
fn keyword_needs_no_boundary() {
    let err = parse("hdx").unwrap_err();
    assert_eq!(err.code, ParseErrorKind::Trailing);
    assert_eq!(err.input, "x");
}

#[test]
fn trailing_input_is_reported() {
    let err = parse("hey way").unwrap_err();
    assert_eq!(err.code, ParseErrorKind::Trailing);
    assert_eq!(err.input, " way");
}

#[test]
fn no_match_is_reported_at_start() {
    let err = parse("(constant)").unwrap_err();
    assert_eq!(err.code, ParseErrorKind::NoMatch);
    assert_eq!(err.input, "(constant)");
    let err = parse("").unwrap_err();
    assert_eq!(err.code, ParseErrorKind::NoMatch);
    assert_eq!(err.input, "");
}

#[test]
fn unclosed_list_is_reported_after_its_elements() {
    let err = parse("{a b").unwrap_err();
    assert_eq!(err.code, ParseErrorKind::NoMatch);
    assert_eq!(err.input, "");
    let err = parse("{a b ]").unwrap_err();
    assert_eq!(err.code, ParseErrorKind::NoMatch);
    assert_eq!(err.input, " ]");
}

#[test]
fn lambda_must_close_after_its_body() {
    assert!(parse("(x.y z)").is_err());
    assert_eq!(parse("(x.(y z))").unwrap(), lam("x", Appl(vec![c("y"), c("z")])));
}

#[test]
fn beta_discards_unused_argument() {
    assert_eq!(eval(&Appl(vec![lam("x", c("y")), c("z")])), c("y"));
}

#[test]
fn identity_application() {
    assert_eq!(eval(&Appl(vec![lam("x", c("x")), c("z")])), c("z"));
}

#[test]
fn shadowing_blocks_substitution() {
    assert_eq!(eval(&Appl(vec![lam("x", lam("x", c("y"))), c("x")])), lam("x", c("y")));
}

#[test]
fn substitution_may_capture() {
    assert_eq!(eval(&Appl(vec![lam("y", lam("x", c("y"))), c("x")])), lam("x", c("x")));
}

#[test]
fn head_and_tail() {
    let l = Q(vec![c("z"), c("y"), c("x")]);
    assert_eq!(eval(&Appl(vec![Exp::Builtin(Builtin::Hd), Q(vec![c("z"), c("y"), c("x")])])), Q(vec![c("x")]));
    assert_eq!(eval(&Appl(vec![Exp::Builtin(Builtin::Tl), l])), Q(vec![c("z"), c("y")]));
}

#[test]
fn head_and_tail_of_empty_list() {
    assert_eq!(eval(&Appl(vec![Exp::Builtin(Builtin::Hd), Q(vec![])])), Q(vec![]));
    assert_eq!(eval(&Appl(vec![Exp::Builtin(Builtin::Tl), Q(vec![])])), Q(vec![]));
}

#[test]
fn eval_builtin_runs_a_list() {
    let l = Q(vec![lam("x", c("x")), c("y")]);
    assert_eq!(eval(&Appl(vec![Exp::Builtin(Builtin::Eval), l])), c("y"));
    let stuck = Q(vec![c("y"), lam("x", c("x"))]);
    assert_eq!(eval(&Appl(vec![Exp::Builtin(Builtin::Eval), stuck])), Appl(vec![c("y"), lam("x", c("x"))]));
}

#[test]
fn eval_of_empty_list_is_an_empty_application() {
    assert_eq!(eval(&Appl(vec![Exp::Builtin(Builtin::Eval), Q(vec![])])), Appl(vec![]));
}

#[test]
fn builtin_without_list_is_stuck() {
    let e = Appl(vec![Exp::Builtin(Builtin::Hd), c("a"), c("b")]);
    assert_eq!(eval(&e), Appl(vec![Exp::Builtin(Builtin::Hd), c("a"), c("b")]));
}

#[test]
fn stuck_application_evaluates_its_parts() {
    let e = Appl(vec![c("f"), Appl(vec![lam("x", c("x")), c("a")]), lam("y", Appl(vec![lam("z", c("z")), c("b")]))]);
    assert_eq!(eval(&e), Appl(vec![c("f"), c("a"), lam("y", c("b"))]));
}

#[test]
fn leftover_arguments_after_dispatch() {
    let e = Appl(vec![Exp::Builtin(Builtin::Tl), Q(vec![c("b"), c("a")]), c("w")]);
    assert_eq!(eval(&e), Appl(vec![Q(vec![c("b")]), c("w")]));
}

#[test]
fn opaque_values_are_their_own_value() {
    assert_eq!(eval(&c("k")), c("k"));
    assert_eq!(eval(&Exp::Builtin(Builtin::Tl)), Exp::Builtin(Builtin::Tl));
    let l = Q(vec![Appl(vec![lam("x", c("x")), c("a")])]);
    assert_eq!(eval(&l), Q(vec![Appl(vec![lam("x", c("x")), c("a")])]));
}

#[test]
fn normal_form_is_stable() {
    let e = Appl(vec![lam("x", lam("y", c("x"))), c("a")]);
    let once = eval(&e);
    assert_eq!(once, lam("y", c("a")));
    assert_eq!(eval(&once), once);
}

#[test]
fn bounded_evaluation() {
    let e = Appl(vec![lam("x", c("x")), c("z")]);
    assert_eq!(eval_bounded(&e, 0), None);
    assert_eq!(eval_bounded(&e, 2), Some(c("z")));
    let w = lam("x", Appl(vec![c("x"), c("x")]));
    let omega = Appl(vec![lam("x", Appl(vec![c("x"), c("x")])), w]);
    assert_eq!(eval_bounded(&omega, 50), None);
}

#[test]
fn substitute_in_place() {
    let mut e = Appl(vec![c("x"), lam("x", c("x")), lam("y", c("x")), Q(vec![c("x")])]);
    e.substitute(&"x".to_string(), &c("v"));
    assert_eq!(e, Appl(vec![c("v"), lam("x", c("x")), lam("y", c("v")), Q(vec![c("x")])]));
}

#[test]
fn parse_then_eval() {
    let e = parse("(hd {a b c})").unwrap();
    assert_eq!(eval(&e), Q(vec![c("a")]));
    let e = parse("(eval {q (x.x)})").unwrap();
    assert_eq!(eval(&e), c("q"));
}

#[test]
fn clone_is_deep_and_equal() {
    let e = Appl(vec![lam("x", Q(vec![c("a")])), c("b")]);
    let d = e.clone();
    assert_eq!(d, e);
}
