use gravlib::ast::{parse_assignment, parse_program, parse_relationship};
use gravlib::eval::{eval_program, State, Value};
use gravlib::parse::session::{add_definition, definitions_resolved, relate_variable, relates, remove_variable, set_variable};
use gravlib::error::GravityError;
use gravlib::{Expr, Op, Type};

fn dec_lit(s: String) -> u64 {
    s.parse::<f64>().unwrap().to_bits()
}

fn dec_fmt(b: u64) -> String {
    f64::from_bits(b).to_string()
}

fn dec_op(op: Op, a: u64, b: u64) -> u64 {
    let (x, y) = (f64::from_bits(a), f64::from_bits(b));
    match op {
        Op::Add => x + y,
        Op::Sub => x - y,
        Op::Mul => x * y,
        Op::Div => x / y,
        Op::Mod => x.rem_euclid(y),
        Op::Pow => x.powf(y),
    }
    .to_bits()
}

fn state_of(text: &str) -> State {
    eval_program(parse_program(text, &dec_lit).unwrap(), &dec_op).unwrap()
}

#[test]
fn adding_definitions() {
    let mut st = state_of("num a = 1;");
    let stmt = parse_assignment("num b = a + 1;", &dec_lit).unwrap();
    assert_eq!(add_definition(&mut st, "num", &"b".to_string(), stmt), Some(Ok(())));
    assert_eq!(st.def.len(), 2);
    let stmt = parse_assignment("text c = a;", &dec_lit).unwrap();
    assert_eq!(
        add_definition(&mut st, "text", &"c".to_string(), stmt),
        Some(Err(GravityError::AssignmentMismatch("c".to_string(), Type::Text, Type::Number)))
    );
    let stmt = parse_assignment("num a = 5;", &dec_lit).unwrap();
    assert_eq!(add_definition(&mut st, "num", &"a".to_string(), stmt), Some(Err(GravityError::Duplication("a".to_string()))));
    st.compute(&dec_op);
    assert_eq!(st.vars.get("b"), Some(&Value::Number(2)));
}

#[test]
fn relating_and_listing() {
    let mut st = state_of("num a = 1;");
    let x = "x".to_string();
    let parsed = parse_relationship("x <- 1;", &dec_lit);
    assert_eq!(relate_variable(&mut st, &x, parsed), Some(Err(GravityError::UndefinedVariable("x".to_string()))));
    let a = "a".to_string();
    assert_eq!(relates(&st, &a, &dec_fmt), Ok(None));
    let parsed = parse_relationship("a <- % * 2;", &dec_lit);
    assert_eq!(relate_variable(&mut st, &a, parsed), Some(Ok(())));
    assert_eq!(relates(&st, &a, &dec_fmt), Ok(Some("(% * 2)".to_string())));
    let parsed = parse_relationship("a <- % + 3;", &dec_lit);
    assert_eq!(relate_variable(&mut st, &a, parsed), Some(Ok(())));
    let parsed = parse_relationship("a <- true;", &dec_lit);
    assert_eq!(
        relate_variable(&mut st, &a, parsed),
        Some(Err(GravityError::AssignmentMismatch("a".to_string(), Type::Number, Type::Bool)))
    );
    assert_eq!(relates(&st, &a, &dec_fmt), Ok(Some("(% * 2)\n(% + 3)".to_string())));
    st.compute(&dec_op);
    assert_eq!(st.vars.get("a"), Some(&Value::Number(5)));
    remove_variable(&mut st, &a);
    assert!(st.def.is_empty());
    assert!(st.rel.is_empty());
    assert_eq!(relates(&st, &a, &dec_fmt), Err(GravityError::UndefinedVariable("a".to_string())));
}

#[test]
fn setting_values() {
    let mut st = state_of("num a = 1;\nnum b = a;");
    let b = "b".to_string();
    assert_eq!(relates(&st, &b, &dec_fmt), Ok(None));
    let parsed = parse_assignment("num _d = 7;", &dec_lit);
    assert_eq!(set_variable(&mut st, &b, parsed), Some(Ok(())));
    assert_eq!(st.def[1].expr, Expr::Number(7));
    let parsed = parse_assignment("num _d = \"s\";", &dec_lit);
    assert_eq!(
        set_variable(&mut st, &b, parsed),
        Some(Err(GravityError::AssignmentMismatch("b".to_string(), Type::Number, Type::Text)))
    );
    let parsed = parse_assignment("num _d = nope;", &dec_lit);
    assert_eq!(set_variable(&mut st, &b, parsed), None);
    remove_variable(&mut st, &"a".to_string());
    assert!(definitions_resolved(&st));
}
