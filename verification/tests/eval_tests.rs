use gravlib::ast::parse_program;
use gravlib::eval::{eval_expr_nameless, eval_expr_nameless_checked, eval_program, State, Value};
use gravlib::parse::arith::{checked_factorial, checked_int_op};
use gravlib::error::GravityError;
use gravlib::{Expr, Op, Type};

fn dec_lit(s: String) -> u64 {
    s.parse::<f64>().unwrap().to_bits()
}

fn dec_op(op: Op, a: u64, b: u64) -> u64 {
    let (x, y) = (f64::from_bits(a), f64::from_bits(b));
    let r = match op {
        Op::Add => x + y,
        Op::Sub => x - y,
        Op::Mul => x * y,
        Op::Div => x / y,
        Op::Mod => x.rem_euclid(y),
        Op::Pow => x.powf(y),
    };
    r.to_bits()
}

fn state_of(text: &str) -> State {
    eval_program(parse_program(text, &dec_lit).unwrap(), &dec_op).unwrap()
}

#[test]
fn whole_number_arithmetic() {
    assert_eq!(checked_int_op(Op::Div, 7, -2), Some(-3));
    assert_eq!(checked_int_op(Op::Div, -7, 2), Some(-3));
    assert_eq!(checked_int_op(Op::Div, i64::MIN, 1), Some(i64::MIN));
    assert_eq!(checked_int_op(Op::Div, i64::MIN, -1), None);
    assert_eq!(checked_int_op(Op::Div, 1, 0), None);
    assert_eq!(checked_int_op(Op::Mod, -7, 3), Some(2));
    assert_eq!(checked_int_op(Op::Mod, 7, -3), Some(1));
    assert_eq!(checked_int_op(Op::Mod, -7, -3), Some(2));
    assert_eq!(checked_int_op(Op::Mod, 5, 0), None);
    assert_eq!(checked_int_op(Op::Pow, 2, 10), Some(1024));
    assert_eq!(checked_int_op(Op::Pow, -2, 63), Some(i64::MIN));
    assert_eq!(checked_int_op(Op::Pow, 2, 63), None);
    assert_eq!(checked_int_op(Op::Pow, -1, 4_000_000_001), Some(-1));
    assert_eq!(checked_int_op(Op::Pow, 3, -1), None);
    assert_eq!(checked_int_op(Op::Pow, 0, 0), Some(1));
    assert_eq!(checked_int_op(Op::Add, i64::MAX, 1), None);
    assert_eq!(checked_int_op(Op::Sub, 3, 5), Some(-2));
    assert_eq!(checked_int_op(Op::Mul, 1 << 32, 1 << 32), None);
}

#[test]
fn factorials() {
    assert_eq!(checked_factorial(5, 1), Some(120));
    assert_eq!(checked_factorial(9, 2), Some(945));
    assert_eq!(checked_factorial(10, 3), Some(280));
    assert_eq!(checked_factorial(0, 1), Some(1));
    assert_eq!(checked_factorial(-4, 0), Some(1));
    assert_eq!(checked_factorial(3, 0), None);
    assert_eq!(checked_factorial(20, 1), Some(2432902008176640000));
    assert_eq!(checked_factorial(21, 1), None);
}

#[test]
fn definitions_then_relationships() {
    let st = state_of("num a = 2;\nnum b = a * 3;\nb <- % + a;\ntext t = \"x\" + \"y\";\ndec d = 1.5 * 2.0;\nbool f = false;");
    assert_eq!(st.vars.get("a"), Some(&Value::Number(2)));
    assert_eq!(st.vars.get("b"), Some(&Value::Number(8)));
    assert_eq!(st.vars.get("t"), Some(&Value::Text("xy".to_string())));
    assert_eq!(st.vars.get("d"), Some(&Value::Decimal(3.0f64.to_bits())));
    assert_eq!(st.vars.get("f"), Some(&Value::Boolean(false)));
    let names: Vec<&String> = st.vars.keys().collect();
    assert_eq!(names, vec!["a", "b", "t", "d", "f"]);
    assert_eq!(st.def.len(), 5);
    assert_eq!(st.rel.len(), 1);
}

#[test]
fn negation_of_decimals_flips_the_sign() {
    let st = state_of("dec d = -2.5;");
    assert_eq!(st.vars.get("d"), Some(&Value::Decimal((-2.5f64).to_bits())));
}

#[test]
fn evaluation_against_a_state() {
    let st = state_of("num a = 5;");
    let e = Expr::BinOp(Box::new(Expr::Ident("a".to_string())), Op::Mul, Box::new(Expr::Factorial(Box::new(Expr::Number(3)), 1)));
    assert_eq!(eval_expr_nameless(&e, &st, &dec_op), Ok(Value::Number(30)));
    let e = Expr::Ident("zz".to_string());
    assert_eq!(eval_expr_nameless(&e, &st, &dec_op), Err(GravityError::UndefinedVariable("zz".to_string())));
    assert_eq!(eval_expr_nameless(&Expr::SelfRef, &st, &dec_op), Err(GravityError::SelfRef));
    let e = Expr::BinOp(Box::new(Expr::Bool(true)), Op::Add, Box::new(Expr::Bool(false)));
    assert_eq!(eval_expr_nameless(&e, &st, &dec_op), Err(GravityError::TypeMismatch(Type::Bool, Type::Bool)));
    let e = Expr::BinOp(Box::new(Expr::Number(1)), Op::Div, Box::new(Expr::Number(0)));
    assert_eq!(eval_expr_nameless_checked(&e, &st, &dec_op), None);
    let e = Expr::BinOp(Box::new(Expr::Text("a".to_string())), Op::Sub, Box::new(Expr::Text("b".to_string())));
    assert_eq!(eval_expr_nameless_checked(&e, &st, &dec_op), None);
}

#[test]
fn computation_without_a_value_leaves_the_state() {
    let mut st = state_of("num a = 1;");
    st.def.push(gravlib::Assignment { typ: Type::Number, name: "z".to_string(), expr: Expr::BinOp(Box::new(Expr::Number(1)), Op::Div, Box::new(Expr::Number(0))) });
    assert!(!st.compute_checked(&dec_op));
    assert_eq!(st.vars.len(), 1);
    assert_eq!(Value::Text("q".to_string()).to_type(), Type::Text);
}
