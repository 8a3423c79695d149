use srap::ast::{Expr, Op};

#[test]
fn operator_symbols() {
    assert_eq!(Op::Add.to_text(), "+");
    assert_eq!(Op::Sub.to_text(), "-");
    assert_eq!(Op::Mul.to_text(), "*");
    assert_eq!(Op::Div.to_text(), "/");
    assert_eq!(Op::Mod.to_text(), "%");
}

#[test]
fn integers_in_decimal() {
    assert_eq!(Expr::Int(0).to_text(), "0");
    assert_eq!(Expr::Int(407).to_text(), "407");
    assert_eq!(Expr::Int(-12).to_text(), "-12");
    assert_eq!(Expr::Int(i64::MAX).to_text(), "9223372036854775807");
    assert_eq!(Expr::Int(i64::MIN).to_text(), "-9223372036854775808");
}

#[test]
fn nested_expression_in_prefix_form() {
    let e = Expr::Binary {
        op: Op::Mul,
        lhs: Box::new(Expr::Binary {
            op: Op::Add,
            lhs: Box::new(Expr::Int(1)),
            rhs: Box::new(Expr::Var("x".to_string())),
        }),
        rhs: Box::new(Expr::Int(-3)),
    };
    assert_eq!(e.to_text(), "(* (+ 1 x) -3)");
    assert_eq!(Expr::Var("abc".to_string()).to_text(), "abc");
}
