use gravlib::ast::parse_program;
use gravlib::error::GravityError;
use gravlib::typecheck::{check_assignment, check_insertion, check_record_def, check_relationship, expr_type, run, TypeEnv};
use gravlib::{Expr, Op, RecDef, RecField, Type};

fn dec_lit(s: String) -> u64 {
    s.parse::<f64>().unwrap().to_bits()
}

fn field(typ: Type, name: &str, is_key: bool) -> RecField {
    RecField { typ, name: name.to_string(), is_key }
}

fn rec(name: &str, fields: Vec<RecField>) -> RecDef {
    RecDef { name: name.to_string(), fields }
}

#[test]
fn record_rules() {
    let mut defs = Vec::new();
    assert_eq!(check_record_def(rec("p", vec![field(Type::Number, "id", true), field(Type::Text, "n", false)]), &mut defs), Ok(()));
    assert_eq!(defs.len(), 1);
    assert_eq!(
        check_record_def(rec("p", vec![field(Type::Number, "id", true)]), &mut defs),
        Err(GravityError::Duplication("p".to_string()))
    );
    assert_eq!(
        check_record_def(rec("q", vec![field(Type::Number, "a", true), field(Type::Text, "b", true)]), &mut defs),
        Err(GravityError::MultipleKeys("q".to_string()))
    );
    assert_eq!(
        check_record_def(rec("q", vec![field(Type::Bool, "a", true)]), &mut defs),
        Err(GravityError::WrongKey("q".to_string()))
    );
    assert_eq!(
        check_record_def(rec("q", vec![field(Type::Decimal, "a", true)]), &mut defs),
        Err(GravityError::WrongKey("q".to_string()))
    );
    assert_eq!(
        check_record_def(rec("q", vec![field(Type::Text, "a", true), field(Type::Bool, "a", false)]), &mut defs),
        Err(GravityError::Duplication("a".to_string()))
    );
    assert_eq!(
        check_record_def(rec("q", vec![field(Type::Text, "a", false)]), &mut defs),
        Err(GravityError::MissingKey("q".to_string()))
    );
    assert_eq!(defs.len(), 1);
}

#[test]
fn expression_types() {
    let mut env = TypeEnv::new();
    env.insert("n".to_string(), Type::Number);
    env.insert("t".to_string(), Type::Text);
    let me = "n".to_string();
    let e = Expr::BinOp(Box::new(Expr::Ident("n".to_string())), Op::Add, Box::new(Expr::SelfRef));
    assert_eq!(expr_type(&e, &env, &me), Ok(Type::Number));
    let e = Expr::BinOp(Box::new(Expr::Ident("n".to_string())), Op::Add, Box::new(Expr::Ident("t".to_string())));
    assert_eq!(expr_type(&e, &env, &me), Err(GravityError::TypeMismatch(Type::Text, Type::Number)));
    let e = Expr::Negate(Box::new(Expr::Bool(true)));
    assert_eq!(expr_type(&e, &env, &me), Err(GravityError::InvalidNegation(Type::Bool)));
    let e = Expr::Factorial(Box::new(Expr::Decimal(0)), 1);
    assert_eq!(expr_type(&e, &env, &me), Err(GravityError::InvalidFactorial(Type::Decimal)));
    let e = Expr::Ident("zz".to_string());
    assert_eq!(expr_type(&e, &env, &me), Err(GravityError::UndefinedVariable("zz".to_string())));
    let other = "q".to_string();
    assert_eq!(expr_type(&Expr::SelfRef, &env, &other), Err(GravityError::UndefinedVariable("q".to_string())));
}

#[test]
fn assignments_and_relationships() {
    let mut env = TypeEnv::new();
    let x = "x".to_string();
    assert_eq!(check_assignment(&Type::Number, &x, &Expr::Number(1), &mut env), Ok(()));
    assert_eq!(env.get(&x), Some(Type::Number));
    assert_eq!(
        check_assignment(&Type::Text, &x, &Expr::Number(1), &mut env),
        Err(GravityError::AssignmentMismatch("x".to_string(), Type::Text, Type::Number))
    );
    assert_eq!(check_assignment(&Type::Text, &x, &Expr::Text("a".to_string()), &mut env), Err(GravityError::Duplication("x".to_string())));
    // the duplicate declaration has replaced the earlier type
    assert_eq!(env.get(&x), Some(Type::Text));
    let y = "y".to_string();
    assert_eq!(check_relationship(&y, &Expr::Number(1), &mut env), Err(GravityError::UndefinedVariable("y".to_string())));
    assert_eq!(check_relationship(&x, &Expr::SelfRef, &mut env), Ok(()));
    assert_eq!(
        check_relationship(&x, &Expr::Bool(false), &mut env),
        Err(GravityError::AssignmentMismatch("x".to_string(), Type::Text, Type::Bool))
    );
}

#[test]
fn insertions() {
    let mut defs = vec![rec("p", vec![field(Type::Number, "id", true), field(Type::Text, "n", false)])];
    let env = TypeEnv::new();
    let p = "p".to_string();
    assert_eq!(check_insertion(&p, &vec![Expr::Number(1), Expr::Text("a".to_string())], &mut defs, &env), Ok(()));
    assert_eq!(
        check_insertion(&p, &vec![Expr::Number(1)], &mut defs, &env),
        Err(GravityError::WrongInsertionCount("p".to_string(), 2, 1))
    );
    assert_eq!(
        check_insertion(&p, &vec![Expr::Number(1), Expr::Number(2)], &mut defs, &env),
        Err(GravityError::WrongInsertionType("p".to_string(), "n".to_string(), Type::Text, Type::Number))
    );
    assert_eq!(
        check_insertion(&p, &vec![Expr::SelfRef, Expr::Number(2)], &mut defs, &env),
        Err(GravityError::SelfRef)
    );
    assert_eq!(
        check_insertion(&"r".to_string(), &vec![], &mut defs, &env),
        Err(GravityError::UndefinedVariable("r".to_string()))
    );
}

#[test]
fn whole_schemas() {
    let ok = "record r { key num id; }\nnum a = 1;\nnum b = a * 2;\nb <- % + a;\ninsert r(a);";
    assert_eq!(run(parse_program(ok, &dec_lit).unwrap()), Ok(()));
    let use_before = "num b = a;\nnum a = 1;";
    assert_eq!(run(parse_program(use_before, &dec_lit).unwrap()), Err(GravityError::UndefinedVariable("a".to_string())));
    let self_in_definition = "num a = %;";
    assert_eq!(run(parse_program(self_in_definition, &dec_lit).unwrap()), Err(GravityError::UndefinedVariable("a".to_string())));
    let bad_record = "record r { num id; }\nnum a = 1;";
    assert_eq!(run(parse_program(bad_record, &dec_lit).unwrap()), Err(GravityError::MissingKey("r".to_string())));
}
