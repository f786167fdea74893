use gravlib::ast::{parse_assignment, parse_program, parse_record, parse_relationship};
use gravlib::parse::lexer::{chars_of, lex, Token};
use gravlib::{expr_to_string, Expr, GravityParser, Op, Parsed, Rule, Statement, Type};
use gravlib::error::GravityError;

fn dec_lit(s: String) -> u64 {
    s.parse::<f64>().unwrap().to_bits()
}

fn dec_fmt(b: u64) -> String {
    f64::from_bits(b).to_string()
}

fn num(n: i64) -> Box<Expr> {
    Box::new(Expr::Number(n))
}

fn ident(s: &str) -> Box<Expr> {
    Box::new(Expr::Ident(s.to_string()))
}

#[test]
fn lex_words() {
    let t = lex(&chars_of("num x = 3.5 + \"hi\"; y <- %!!"), &dec_lit).unwrap();
    assert_eq!(
        t,
        vec![
            Token::Ident("num".to_string()),
            Token::Ident("x".to_string()),
            Token::Sym('='),
            Token::Dec(3.5f64.to_bits()),
            Token::Sym('+'),
            Token::Str("hi".to_string()),
            Token::Sym(';'),
            Token::Ident("y".to_string()),
            Token::Arrow,
            Token::Sym('%'),
            Token::Sym('!'),
            Token::Sym('!'),
        ]
    );
}

#[test]
fn lex_refuses_unknown_characters_and_big_numbers() {
    assert!(lex(&chars_of("a # b"), &dec_lit).is_none());
    assert!(lex(&chars_of("\"open"), &dec_lit).is_none());
    assert!(lex(&chars_of("x < y"), &dec_lit).is_none());
    assert!(lex(&chars_of("9223372036854775808"), &dec_lit).is_none());
    assert_eq!(lex(&chars_of("9223372036854775807"), &dec_lit).unwrap(), vec![Token::Int(i64::MAX)]);
}

#[test]
fn precedence_and_associativity() {
    let st = parse_assignment("num x = 1 + 2 * 3 - 4;", &dec_lit).unwrap();
    let expected = Expr::BinOp(
        Box::new(Expr::BinOp(num(1), Op::Add, Box::new(Expr::BinOp(num(2), Op::Mul, num(3))))),
        Op::Sub,
        num(4),
    );
    assert_eq!(st, Statement::Assignment { typ: Type::Number, name: "x".to_string(), expr: expected });

    let st = parse_assignment("num x = 2 ^ 3 ^ 2;", &dec_lit).unwrap();
    let expected = Expr::BinOp(num(2), Op::Pow, Box::new(Expr::BinOp(num(3), Op::Pow, num(2))));
    assert_eq!(st, Statement::Assignment { typ: Type::Number, name: "x".to_string(), expr: expected });

    let st = parse_assignment("num x = -a!! & (b / 7);", &dec_lit).unwrap();
    let expected = Expr::BinOp(
        Box::new(Expr::Negate(Box::new(Expr::Factorial(ident("a"), 2)))),
        Op::Mod,
        Box::new(Expr::BinOp(ident("b"), Op::Div, num(7))),
    );
    assert_eq!(st, Statement::Assignment { typ: Type::Number, name: "x".to_string(), expr: expected });
}

#[test]
fn schema_with_every_kind_of_statement() {
    let text = "record person { key num id; text name; }\n\
                num a = 1;\n\
                dec b = 2.5;\n\
                text t = \"x\";\n\
                bool f = true;\n\
                a <- % + 1;\n\
                insert person(1, \"bob\");\n";
    let p = parse_program(text, &dec_lit).unwrap();
    assert_eq!(p.rec.len(), 1);
    assert_eq!(p.rec[0].name, "person");
    assert_eq!(p.rec[0].fields.len(), 2);
    assert!(p.rec[0].fields[0].is_key);
    assert_eq!(p.rec[0].fields[0].typ, Type::Number);
    assert!(!p.rec[0].fields[1].is_key);
    assert_eq!(p.slf.len(), 6);
    assert_eq!(p.slf[1], Statement::Assignment { typ: Type::Decimal, name: "b".to_string(), expr: Expr::Decimal(2.5f64.to_bits()) });
    assert_eq!(
        p.slf[4],
        Statement::Relationship { name: "a".to_string(), expr: Expr::BinOp(Box::new(Expr::SelfRef), Op::Add, num(1)) }
    );
    assert_eq!(
        p.slf[5],
        Statement::Insertion { target: "person".to_string(), exprs: vec![Expr::Number(1), Expr::Text("bob".to_string())] }
    );
}

#[test]
fn syntax_errors() {
    let err = GravityError::ParseError("invalid syntax".to_string());
    assert_eq!(parse_program("num x = ;", &dec_lit), Err(err.clone()));
    assert_eq!(parse_program("num x = (1 + 2;", &dec_lit), Err(err.clone()));
    assert_eq!(parse_program("x = 1;", &dec_lit), Err(err.clone()));
    assert_eq!(parse_relationship("num x = 1;", &dec_lit), Err(err.clone()));
    assert_eq!(parse_assignment("x <- 1;", &dec_lit), Err(err.clone()));
    assert_eq!(parse_record("record r { key num id }", &dec_lit), Err(err));
}

#[test]
fn empty_schema() {
    let p = parse_program("  \n\t ", &dec_lit).unwrap();
    assert!(p.slf.is_empty());
    assert!(p.rec.is_empty());
}

#[test]
fn parser_entry_point() {
    match GravityParser::parse(Rule::relationship, "x <- y * 2;", &dec_lit).unwrap() {
        Parsed::Statement(st) => assert_eq!(
            st,
            Statement::Relationship { name: "x".to_string(), expr: Expr::BinOp(ident("y"), Op::Mul, num(2)) }
        ),
        _ => panic!("not a statement"),
    }
    match GravityParser::parse(Rule::rec_def, "record r { key text id; }", &dec_lit).unwrap() {
        Parsed::Record(r) => assert_eq!(r.name, "r"),
        _ => panic!("not a record"),
    }
}

#[test]
fn printed_expression_parses_back() {
    let e = Expr::BinOp(
        Box::new(Expr::Negate(Box::new(Expr::Factorial(ident("n"), 3)))),
        Op::Pow,
        Box::new(Expr::BinOp(Box::new(Expr::Text("a b".to_string())), Op::Add, Box::new(Expr::SelfRef))),
    );
    let text = expr_to_string(&e, &dec_fmt);
    assert_eq!(text, "(-n!!! ^ (\"a b\" + %))");
    let st = parse_assignment(&format!("text z = {};", text), &dec_lit).unwrap();
    assert_eq!(st, Statement::Assignment { typ: Type::Text, name: "z".to_string(), expr: e });
}
