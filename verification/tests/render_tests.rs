use gravlib::ast::parse_program;
use gravlib::eval::eval_program;
use gravlib::{binary_payload, create_assignment, create_relationship, expr_to_string, frame_db, hex_dump, op_to_string, schema_text};
use gravlib::{Assignment, Expr, Op, Program, Statement, Type, Value};

fn dec_lit(s: String) -> u64 {
    s.parse::<f64>().unwrap().to_bits()
}

fn dec_fmt(b: u64) -> String {
    f64::from_bits(b).to_string()
}

fn dec_op(op: Op, a: u64, b: u64) -> u64 {
    let (x, y) = (f64::from_bits(a), f64::from_bits(b));
    match op {
        Op::Add => x + y,
        Op::Sub => x - y,
        Op::Mul => x * y,
        Op::Div => x / y,
        Op::Mod => x.rem_euclid(y),
        Op::Pow => x.powf(y),
    }
    .to_bits()
}

#[test]
fn expressions_as_text() {
    assert_eq!(expr_to_string(&Expr::Number(-42), &dec_fmt), "-42");
    assert_eq!(expr_to_string(&Expr::Number(i64::MIN), &dec_fmt), "-9223372036854775808");
    assert_eq!(expr_to_string(&Expr::Decimal(2.5f64.to_bits()), &dec_fmt), "2.5");
    assert_eq!(expr_to_string(&Expr::Bool(true), &dec_fmt), "true");
    assert_eq!(expr_to_string(&Expr::Factorial(Box::new(Expr::Ident("n".to_string())), 2), &dec_fmt), "n!!");
    let e = Expr::BinOp(Box::new(Expr::Number(1)), Op::Mod, Box::new(Expr::Negate(Box::new(Expr::SelfRef))));
    assert_eq!(expr_to_string(&e, &dec_fmt), "(1 & -%)");
    assert_eq!(op_to_string(&Op::Pow), "^");
}

#[test]
fn lines_of_a_schema() {
    let a = Assignment { typ: Type::Text, name: "t".to_string(), expr: Expr::Text("hi".to_string()) };
    assert_eq!(create_assignment(&a, &dec_fmt), "text t = \"hi\";");
    let e = Expr::BinOp(Box::new(Expr::SelfRef), Op::Add, Box::new(Expr::Number(1)));
    assert_eq!(create_relationship(&"n".to_string(), &e, &dec_fmt), "n <- (% + 1);");
    let st = eval_program(parse_program("num n = 1;\nn <- % + 1;\ndec d = 0.5;", &dec_lit).unwrap(), &dec_op).unwrap();
    assert_eq!(schema_text(&st, &dec_fmt), "num n = 1;\ndec d = 0.5;\nn <- (% + 1);");
}

#[test]
fn compiled_database_framing() {
    let payload = vec![1u8, 2, 3];
    let framed = frame_db(&payload);
    assert_eq!(framed, vec![0xff, 0xfe, 0xc0, 0xaa, 0xab, b'g', b'r', b'a', b'v', 1, 2, 3]);
    assert_eq!(binary_payload(&framed), Some(payload));
    assert_eq!(binary_payload(b"num x = 1;"), None);
    assert_eq!(binary_payload(&[0xff, 0xfe]), None);
    assert_eq!(hex_dump(&[0x00, 0xab, 0x7f]), "00 ab 7f ");
}

#[test]
fn written_schema_reads_back() {
    let fact = Expr::Factorial(
        Box::new(Expr::BinOp(Box::new(Expr::Ident("x".to_string())), Op::Pow, Box::new(Expr::Number(2)))),
        2,
    );
    let sum = Expr::BinOp(
        Box::new(Expr::Negate(Box::new(Expr::Ident("d".to_string())))),
        Op::Sub,
        Box::new(Expr::BinOp(Box::new(Expr::Ident("d".to_string())), Op::Mul, Box::new(Expr::Decimal(0.25f64.to_bits())))),
    );
    let src = "num x = 4;\ndec d = 2.5;\nbool b = false;\ntext t = \"a b\";\nnum f = (x ^ 2)!!;\ndec g = (-d - (d * 0.25));\nx <- (% & 3);";
    let prg = parse_program(src, &dec_lit).unwrap();
    assert_eq!(prg.slf.len(), 7);
    assert_eq!(prg.slf[4], Statement::Assignment { typ: Type::Number, name: "f".to_string(), expr: fact });
    assert_eq!(prg.slf[5], Statement::Assignment { typ: Type::Decimal, name: "g".to_string(), expr: sum });
    let st = eval_program(prg.duplicate(), &|_: Op, a: u64, _: u64| a).unwrap();
    let text = schema_text(&st, &dec_fmt);
    assert_eq!(text, src);
    let again: Program = parse_program(&text, &dec_lit).unwrap();
    assert_eq!(again, prg);
}

#[test]
fn values_as_the_shell_shows_them() {
    assert_eq!(Value::Number(-7).to_text(&dec_fmt), "-7");
    assert_eq!(Value::Decimal(0.5f64.to_bits()).to_text(&dec_fmt), "0.5");
    assert_eq!(Value::Boolean(false).to_text(&dec_fmt), "false");
    assert_eq!(Value::Text("a\"b\n".to_string()).to_text(&dec_fmt), "\"a\\\"b\\n\"");
}
