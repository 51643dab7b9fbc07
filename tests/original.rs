use lambda_lists::{eval, parse, Builtin, Exp};
use Builtin::{Eval, Hd, Tl};
use Exp::{Appl, Const, Lambda, Q};

#[test]
fn parse_t_1() {
    assert_eq!(
        parse("(hey way)").unwrap(),
        Appl(vec![Const("hey".to_string()), Const("way".to_string())])
    );
}

#[test]
fn parse_t_2() {
    assert!(parse("hey way").is_err());
}

#[test]
fn parse_t_3() {
    assert_eq!(parse("good").unwrap(), Const("good".to_string()));
}

#[test]
fn parse_t_4() {
    assert_eq!(
        parse("((hey way) eey)").unwrap(),
        Appl(vec![
            Appl(vec![Const("hey".to_string()), Const("way".to_string())]),
            Const("eey".to_string())
        ])
    );
}

#[test]
fn parse_t_5() {
    assert!(parse("()").is_err());
}

#[test]
fn parse_t_6() {
    assert!(parse("(constant)").is_err());
}

#[test]
fn parse_t_7() {
    assert_eq!(
        parse("(x.y)").unwrap(),
        Lambda {
            arg: "x".to_string(),
            body: Box::new(Const("y".to_string()))
        }
    );
}

#[test]
fn parse_t_8() {
    assert!(parse("x.()").is_err());
}

#[test]
fn parse_t_9() {
    assert!(parse("x.y").is_err());
}

#[test]
fn parse_t_10() {
    assert_eq!(
        parse("{x y z}").unwrap(),
        Q(vec![
            Const("z".to_string()),
            Const("y".to_string()),
            Const("x".to_string())
        ])
    );
}

#[test]
fn parse_t_11() {
    assert_eq!(
        parse("(hd {x y z})").unwrap(),
        Appl(vec![
            Exp::Builtin(Builtin::Hd),
            Q(vec![
                Const("z".to_string()),
                Const("y".to_string()),
                Const("x".to_string())
            ])
        ])
    );
}

#[test]
fn eval_t_1() {
    assert_eq!(eval(&Const("some".to_string())), Const("some".to_string()));
}

#[test]
fn eval_t_2() {
    assert_eq!(
        eval(&Lambda {
            arg: "x".to_string(),
            body: Box::new(Const("y".to_string()))
        }),
        Lambda {
            arg: "x".to_string(),
            body: Box::new(Const("y".to_string()))
        }
    );
}

#[test]
fn eval_t_3() {
    assert_eq!(
        eval(&Appl(vec![
            Lambda {
                arg: "x".to_string(),
                body: Box::new(Const("y".to_string()))
            },
            Const("z".to_string())
        ])),
        Const("y".to_string())
    );
}

#[test]
fn eval_t_4() {
    assert_eq!(
        eval(&Appl(vec![
            Lambda {
                arg: "x".to_string(),
                body: Box::new(Const("x".to_string()))
            },
            Const("z".to_string())
        ])),
        Const("z".to_string())
    );
}

#[test]
fn eval_t_5() {
    assert_eq!(
        eval(&Appl(vec![
            Lambda {
                arg: "x".to_string(),
                body: Box::new(Lambda {
                    arg: "x".to_string(),
                    body: Box::new(Const("y".to_string()))
                })
            },
            Const("x".to_string())
        ])),
        Lambda {
            arg: "x".to_string(),
            body: Box::new(Const("y".to_string()))
        }
    );
}

#[test]
fn eval_t_6() {
    assert_eq!(
        eval(&Appl(vec![
            Lambda {
                arg: "y".to_string(),
                body: Box::new(Lambda {
                    arg: "x".to_string(),
                    body: Box::new(Const("y".to_string()))
                })
            },
            Const("z".to_string())
        ])),
        Lambda {
            arg: "x".to_string(),
            body: Box::new(Const("z".to_string()))
        }
    );
}

#[test]
fn eval_t_7() {
    assert_eq!(
        eval(&Appl(vec![
            Lambda {
                arg: "x".to_string(),
                body: Box::new(Lambda {
                    arg: "y".to_string(),
                    body: Box::new(Appl(vec![
                        Const("z".to_string()),
                        Const("y".to_string()),
                        Const("x".to_string()),
                        Const("w".to_string())
                    ]))
                })
            },
            Const("q".to_string())
        ])),
        Lambda {
            arg: "y".to_string(),
            body: Box::new(Appl(vec![
                Const("z".to_string()),
                Const("y".to_string()),
                Const("q".to_string()),
                Const("w".to_string())
            ]))
        }
    );
}

#[test]
fn eval_t_8() {
    assert_eq!(
        eval(&Q(vec![
            Const("i".to_string()),
            Const("x".to_string()),
            Const("z".to_string())
        ])),
        Q(vec![
            Const("i".to_string()),
            Const("x".to_string()),
            Const("z".to_string())
        ])
    );
}

#[test]
fn eval_t_9() {
    assert_eq!(
        eval(&Appl(vec![Exp::Appl(vec![
            Exp::Builtin(Hd),
            Q(vec![
                Const("z".to_string()),
                Const("y".to_string()),
                Const("x".to_string())
            ])
        ])])),
        Q(vec![Const("x".to_string())])
    );
}

#[test]
fn eval_t_10() {
    assert_eq!(
        eval(&Appl(vec![Exp::Appl(vec![
            Exp::Builtin(Tl),
            Q(vec![
                Const("z".to_string()),
                Const("y".to_string()),
                Const("x".to_string())
            ])
        ])])),
        Q(vec![Const("z".to_string()), Const("y".to_string()),])
    );
}

#[test]
fn eval_t_11() {
    assert_eq!(
        eval(&Appl(vec![Exp::Appl(vec![
            Exp::Builtin(Eval),
            Q(vec![
                Lambda {
                    arg: "x".to_string(),
                    body: Box::new(Const("x".to_string()))
                },
                Const("y".to_string())
            ])
        ])])),
        Const("y".to_string())
    );
}
