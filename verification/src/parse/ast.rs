use vstd::prelude::*;

use crate::error::GravityError;
use crate::parse::grammar::{p_item, p_program, parse_item, parse_tokens, Item, ItemModel};
use crate::parse::lexer::{chars_of, decimal_reader, decimal_reading, lex, spec_lex};

verus! {

/// Binary operators of the expression language.
#[derive(Debug, Clone, Copy, PartialEq, Eq, Structural)]
pub enum Op {
    Add,
    Sub,
    Mul,
    Div,
    Mod,
    Pow,
}

/// The four value types of the language.
#[derive(Debug, Clone, Copy, PartialEq, Eq, Structural)]
pub enum Type {
    Number,
    Decimal,
    Bool,
    Text,
}

/// Expressions. A decimal is held as the bit pattern of its IEEE-754
/// double (`f64::to_bits`); this library never does arithmetic on it.
#[derive(Debug, PartialEq)]
pub enum Expr {
    Number(i64),
    Decimal(u64),
    Bool(bool),
    Text(String),
    Ident(String),
    SelfRef,
    Negate(Box<Expr>),
    Factorial(Box<Expr>, u32),
    BinOp(Box<Expr>, Op, Box<Expr>),
}

/// A top-level statement of a schema.
#[derive(Debug, PartialEq)]
pub enum Statement {
    Assignment { typ: Type, name: String, expr: Expr },
    Relationship { name: String, expr: Expr },
    Insertion { target: String, exprs: Vec<Expr> },
}

/// One field of a record definition.
#[derive(Debug, Clone, PartialEq)]
pub struct RecField {
    pub typ: Type,
    pub name: String,
    pub is_key: bool,
}

/// A record definition: a name and its fields.
#[derive(Debug, Clone, PartialEq)]
pub struct RecDef {
    pub name: String,
    pub fields: Vec<RecField>,
}

/// A parsed schema: its statements in order, and its record definitions.
#[derive(Debug, PartialEq)]
pub struct Program {
    pub slf: Vec<Statement>,
    pub rec: Vec<RecDef>,
}

/// The keyword that names a type in the surface syntax.
pub open spec fn type_keyword(t: Type) -> Seq<char> {
    match t {
        Type::Number => seq!['n', 'u', 'm'],
        Type::Decimal => seq!['d', 'e', 'c'],
        Type::Bool => seq!['b', 'o', 'o', 'l'],
        Type::Text => seq!['t', 'e', 'x', 't'],
    }
}

/// The type named by a keyword, if it names one.
pub open spec fn keyword_type(s: Seq<char>) -> Option<Type> {
    if s == type_keyword(Type::Number) {
        Some(Type::Number)
    } else if s == type_keyword(Type::Decimal) {
        Some(Type::Decimal)
    } else if s == type_keyword(Type::Bool) {
        Some(Type::Bool)
    } else if s == type_keyword(Type::Text) {
        Some(Type::Text)
    } else {
        None
    }
}

/// The symbol that stands for an operator in the surface syntax.
pub open spec fn op_symbol(op: Op) -> char {
    match op {
        Op::Add => '+',
        Op::Sub => '-',
        Op::Mul => '*',
        Op::Div => '/',
        Op::Mod => '&',
        Op::Pow => '^',
    }
}

/// Whether `s` is exactly the characters of `lit`.
pub fn str_equals(s: &str, lit: &str) -> (r: bool)
    ensures
        r == (s@ == lit@),
{
    let n = s.unicode_len();
    let m = lit.unicode_len();
    if n != m {
        return false;
    }
    let mut i: usize = 0;
    while i < n
        invariant
            n == s@.len(),
            m == lit@.len(),
            n == m,
            i <= n,
            forall|j: int| 0 <= j < i ==> s@[j] == lit@[j],
        decreases n - i,
    {
        if s.get_char(i) != lit.get_char(i) {
            return false;
        }
        i = i + 1;
    }
    assert(s@ =~= lit@);
    true
}

impl Type {
    /// The keyword of the type (`num`, `dec`, `bool` or `text`).
    pub fn name(&self) -> (r: &'static str)
        ensures
            r@ == type_keyword(*self),
    {
        match self {
            Type::Number => {
                proof {
                    reveal_strlit("num");
                    assert("num"@ =~= type_keyword(Type::Number));
                }
                "num"
            },
            Type::Decimal => {
                proof {
                    reveal_strlit("dec");
                    assert("dec"@ =~= type_keyword(Type::Decimal));
                }
                "dec"
            },
            Type::Bool => {
                proof {
                    reveal_strlit("bool");
                    assert("bool"@ =~= type_keyword(Type::Bool));
                }
                "bool"
            },
            Type::Text => {
                proof {
                    reveal_strlit("text");
                    assert("text"@ =~= type_keyword(Type::Text));
                }
                "text"
            },
        }
    }

    /// The type that a keyword names; any other text is refused.
    pub fn try_from(value: &str) -> (r: Result<Type, GravityError>)
        ensures
            r == (match keyword_type(value@) {
                Some(t) => Ok(t),
                None => Err(GravityError::InvalidString),
            }),
    {
        proof {
            reveal_strlit("num");
            reveal_strlit("dec");
            reveal_strlit("bool");
            reveal_strlit("text");
            assert("num"@ =~= type_keyword(Type::Number));
            assert("dec"@ =~= type_keyword(Type::Decimal));
            assert("bool"@ =~= type_keyword(Type::Bool));
            assert("text"@ =~= type_keyword(Type::Text));
        }
        if str_equals(value, "num") {
            Ok(Type::Number)
        } else if str_equals(value, "dec") {
            Ok(Type::Decimal)
        } else if str_equals(value, "bool") {
            Ok(Type::Bool)
        } else if str_equals(value, "text") {
            Ok(Type::Text)
        } else {
            Err(GravityError::InvalidString)
        }
    }
}


/// What an expression is, with names and texts as characters.
pub ghost enum ExprModel {
    Number(i64),
    Decimal(u64),
    Bool(bool),
    Text(Seq<char>),
    Ident(Seq<char>),
    SelfRef,
    Negate(Box<ExprModel>),
    Factorial(Box<ExprModel>, u32),
    BinOp(Box<ExprModel>, Op, Box<ExprModel>),
}

/// The model of an expression.
pub open spec fn expr_model(e: Expr) -> ExprModel
    decreases e,
{
    match e {
        Expr::Number(n) => ExprModel::Number(n),
        Expr::Decimal(d) => ExprModel::Decimal(d),
        Expr::Bool(b) => ExprModel::Bool(b),
        Expr::Text(s) => ExprModel::Text(s@),
        Expr::Ident(s) => ExprModel::Ident(s@),
        Expr::SelfRef => ExprModel::SelfRef,
        Expr::Negate(inner) => ExprModel::Negate(Box::new(expr_model(*inner))),
        Expr::Factorial(inner, n) => ExprModel::Factorial(Box::new(expr_model(*inner)), n),
        Expr::BinOp(l, op, r) => ExprModel::BinOp(Box::new(expr_model(*l)), op, Box::new(expr_model(*r))),
    }
}

impl View for Expr {
    type V = ExprModel;

    open spec fn view(&self) -> ExprModel {
        expr_model(*self)
    }
}

/// What a statement is, with names as characters.
pub ghost enum StatementModel {
    Assignment { typ: Type, name: Seq<char>, expr: ExprModel },
    Relationship { name: Seq<char>, expr: ExprModel },
    Insertion { target: Seq<char>, exprs: Seq<ExprModel> },
}

impl View for Statement {
    type V = StatementModel;

    open spec fn view(&self) -> StatementModel {
        match self {
            Statement::Assignment { typ, name, expr } => StatementModel::Assignment { typ: *typ, name: name@, expr: expr@ },
            Statement::Relationship { name, expr } => StatementModel::Relationship { name: name@, expr: expr@ },
            Statement::Insertion { target, exprs } => StatementModel::Insertion {
                target: target@,
                exprs: exprs@.map_values(|e: Expr| e@),
            },
        }
    }
}

/// What a record field is.
pub ghost struct RecFieldModel {
    pub typ: Type,
    pub name: Seq<char>,
    pub is_key: bool,
}

impl View for RecField {
    type V = RecFieldModel;

    open spec fn view(&self) -> RecFieldModel {
        RecFieldModel { typ: self.typ, name: self.name@, is_key: self.is_key }
    }
}

/// What a record definition is.
pub ghost struct RecDefModel {
    pub name: Seq<char>,
    pub fields: Seq<RecFieldModel>,
}

impl View for RecDef {
    type V = RecDefModel;

    open spec fn view(&self) -> RecDefModel {
        RecDefModel { name: self.name@, fields: self.fields@.map_values(|f: RecField| f@) }
    }
}

/// What a schema is.
pub ghost struct ProgramModel {
    pub slf: Seq<StatementModel>,
    pub rec: Seq<RecDefModel>,
}

impl View for Program {
    type V = ProgramModel;

    open spec fn view(&self) -> ProgramModel {
        ProgramModel {
            slf: self.slf@.map_values(|s: Statement| s@),
            rec: self.rec@.map_values(|r: RecDef| r@),
        }
    }
}


/// The message of a syntax error.
pub open spec fn syntax_message() -> Seq<char> {
    seq!['i', 'n', 'v', 'a', 'l', 'i', 'd', ' ', 's', 'y', 'n', 't', 'a', 'x']
}

/// Whether `r` is the error for text that is not in the grammar.
pub open spec fn is_syntax_error<T>(r: Result<T, GravityError>) -> bool {
    r matches Err(GravityError::ParseError(m)) && m@ == syntax_message()
}

fn syntax_error() -> (e: GravityError)
    ensures
        e matches GravityError::ParseError(m) && m@ == syntax_message(),
{
    proof {
        reveal_strlit("invalid syntax");
        assert("invalid syntax"@ =~= syntax_message());
    }
    GravityError::ParseError(String::from_str("invalid syntax"))
}

/// The schema that a text holds (see `crate::parse::grammar`), where it holds one.
pub open spec fn spec_parse_program(s: Seq<char>, dlit: spec_fn(Seq<char>) -> u64) -> Option<ProgramModel> {
    match spec_lex(s, dlit) {
        Some(t) => p_program(t, 0, ProgramModel { slf: Seq::empty(), rec: Seq::empty() }),
        None => None,
    }
}

/// The statement or record definition at the start of a text.
pub open spec fn spec_parse_item(s: Seq<char>, dlit: spec_fn(Seq<char>) -> u64) -> Option<ItemModel> {
    match spec_lex(s, dlit) {
        Some(t) => match p_item(t, 0) {
            Some((item, _)) => Some(item),
            None => None,
        },
        None => None,
    }
}

/// Parses a schema; text outside the grammar is refused.
pub fn parse_program<L: Fn(String) -> u64>(contents: &str, dlit: &L) -> (r: Result<Program, GravityError>)
    requires
        decimal_reader(*dlit),
    ensures
        match spec_parse_program(contents@, decimal_reading(*dlit)) {
            Some(p) => r matches Ok(prg) && prg@ == p,
            None => is_syntax_error(r),
        },
{
    let chars = chars_of(contents);
    match lex(&chars, dlit) {
        Some(tokens) => match parse_tokens(&tokens) {
            Some(p) => Ok(p),
            None => Err(syntax_error()),
        },
        None => Err(syntax_error()),
    }
}

fn parse_first_item<L: Fn(String) -> u64>(text: &str, dlit: &L) -> (r: Option<Item>)
    requires
        decimal_reader(*dlit),
    ensures
        match r {
            Some(it) => spec_parse_item(text@, decimal_reading(*dlit)) == Some(it@),
            None => spec_parse_item(text@, decimal_reading(*dlit)) is None,
        },
{
    let chars = chars_of(text);
    match lex(&chars, dlit) {
        Some(tokens) => match parse_item(&tokens, 0) {
            Some((item, _)) => Some(item),
            None => None,
        },
        None => None,
    }
}

/// Parses a definition `type name = expr;` at the start of a text.
pub fn parse_assignment<L: Fn(String) -> u64>(text: &str, dlit: &L) -> (r: Result<Statement, GravityError>)
    requires
        decimal_reader(*dlit),
    ensures
        match spec_parse_item(text@, decimal_reading(*dlit)) {
            Some(ItemModel::Stmt(st)) => if st is Assignment {
                r matches Ok(s) && s@ == st
            } else {
                is_syntax_error(r)
            },
            _ => is_syntax_error(r),
        },
{
    match parse_first_item(text, dlit) {
        Some(Item::Stmt(st)) => match st {
            Statement::Assignment { .. } => Ok(st),
            _ => Err(syntax_error()),
        },
        _ => Err(syntax_error()),
    }
}

/// Parses a relationship `name <- expr;` at the start of a text.
pub fn parse_relationship<L: Fn(String) -> u64>(text: &str, dlit: &L) -> (r: Result<Statement, GravityError>)
    requires
        decimal_reader(*dlit),
    ensures
        match spec_parse_item(text@, decimal_reading(*dlit)) {
            Some(ItemModel::Stmt(st)) => if st is Relationship {
                r matches Ok(s) && s@ == st
            } else {
                is_syntax_error(r)
            },
            _ => is_syntax_error(r),
        },
{
    match parse_first_item(text, dlit) {
        Some(Item::Stmt(st)) => match st {
            Statement::Relationship { .. } => Ok(st),
            _ => Err(syntax_error()),
        },
        _ => Err(syntax_error()),
    }
}

/// Parses a record definition at the start of a text.
pub fn parse_record<L: Fn(String) -> u64>(text: &str, dlit: &L) -> (r: Result<RecDef, GravityError>)
    requires
        decimal_reader(*dlit),
    ensures
        match spec_parse_item(text@, decimal_reading(*dlit)) {
            Some(ItemModel::Rec(rd)) => r matches Ok(d) && d@ == rd,
            _ => is_syntax_error(r),
        },
{
    match parse_first_item(text, dlit) {
        Some(Item::Rec(rd)) => Ok(rd),
        _ => Err(syntax_error()),
    }
}


impl Expr {
    /// A copy of the expression.
    pub fn duplicate(&self) -> (r: Expr)
        ensures
            r == *self,
        decreases self,
    {
        match self {
            Expr::Number(n) => Expr::Number(*n),
            Expr::Decimal(d) => Expr::Decimal(*d),
            Expr::Bool(b) => Expr::Bool(*b),
            Expr::Text(s) => Expr::Text(s.clone()),
            Expr::Ident(s) => Expr::Ident(s.clone()),
            Expr::SelfRef => Expr::SelfRef,
            Expr::Negate(e) => Expr::Negate(Box::new(e.duplicate())),
            Expr::Factorial(e, n) => Expr::Factorial(Box::new(e.duplicate()), *n),
            Expr::BinOp(l, op, r) => Expr::BinOp(Box::new(l.duplicate()), *op, Box::new(r.duplicate())),
        }
    }
}

fn duplicate_exprs(v: &Vec<Expr>) -> (r: Vec<Expr>)
    ensures
        r@ == v@,
{
    let mut r: Vec<Expr> = Vec::new();
    let mut i: usize = 0;
    while i < v.len()
        invariant
            i <= v.len(),
            r@ == v@.take(i as int),
        decreases v.len() - i,
    {
        r.push(v[i].duplicate());
        assert(v@.take(i + 1) =~= v@.take(i as int).push(v@[i as int]));
        i = i + 1;
    }
    assert(v@.take(v.len() as int) =~= v@);
    r
}

impl Statement {
    /// A copy of the statement.
    pub fn duplicate(&self) -> (r: Statement)
        ensures
            r@ == self@,
    {
        match self {
            Statement::Assignment { typ, name, expr } => Statement::Assignment { typ: *typ, name: name.clone(), expr: expr.duplicate() },
            Statement::Relationship { name, expr } => Statement::Relationship { name: name.clone(), expr: expr.duplicate() },
            Statement::Insertion { target, exprs } => {
                let exprs2 = duplicate_exprs(exprs);
                assert(exprs2@.map_values(|e: Expr| e@) =~= exprs@.map_values(|e: Expr| e@));
                Statement::Insertion { target: target.clone(), exprs: exprs2 }
            },
        }
    }
}

impl RecDef {
    /// A copy of the record definition.
    pub fn duplicate(&self) -> (r: RecDef)
        ensures
            r@ == self@,
    {
        let mut fields: Vec<RecField> = Vec::new();
        let mut i: usize = 0;
        while i < self.fields.len()
            invariant
                i <= self.fields.len(),
                fields@.map_values(|f: RecField| f@) == self.fields@.take(i as int).map_values(|f: RecField| f@),
            decreases self.fields.len() - i,
        {
            let f = &self.fields[i];
            let ghost before = fields@;
            fields.push(RecField { typ: f.typ, name: f.name.clone(), is_key: f.is_key });
            assert(self.fields@.take(i + 1) =~= self.fields@.take(i as int).push(self.fields@[i as int]));
            assert(fields@.map_values(|f: RecField| f@) =~= before.map_values(|f: RecField| f@).push(self.fields@[i as int]@));
            assert(self.fields@.take(i + 1).map_values(|f: RecField| f@) =~= self.fields@.take(i as int).map_values(|f: RecField| f@).push(self.fields@[i as int]@));
            i = i + 1;
        }
        assert(self.fields@.take(self.fields.len() as int) =~= self.fields@);
        RecDef { name: self.name.clone(), fields }
    }
}

impl Program {
    /// A copy of the schema.
    pub fn duplicate(&self) -> (r: Program)
        ensures
            r@ == self@,
    {
        let mut slf: Vec<Statement> = Vec::new();
        let mut i: usize = 0;
        while i < self.slf.len()
            invariant
                i <= self.slf.len(),
                slf@.map_values(|s: Statement| s@) == self.slf@.take(i as int).map_values(|s: Statement| s@),
            decreases self.slf.len() - i,
        {
            let ghost before = slf@;
            slf.push(self.slf[i].duplicate());
            assert(self.slf@.take(i + 1) =~= self.slf@.take(i as int).push(self.slf@[i as int]));
            assert(slf@.map_values(|s: Statement| s@) =~= before.map_values(|s: Statement| s@).push(self.slf@[i as int]@));
            assert(self.slf@.take(i + 1).map_values(|s: Statement| s@) =~= self.slf@.take(i as int).map_values(|s: Statement| s@).push(self.slf@[i as int]@));
            i = i + 1;
        }
        let mut rec: Vec<RecDef> = Vec::new();
        let mut j: usize = 0;
        while j < self.rec.len()
            invariant
                j <= self.rec.len(),
                rec@.map_values(|r: RecDef| r@) == self.rec@.take(j as int).map_values(|r: RecDef| r@),
            decreases self.rec.len() - j,
        {
            let ghost before = rec@;
            rec.push(self.rec[j].duplicate());
            assert(self.rec@.take(j + 1) =~= self.rec@.take(j as int).push(self.rec@[j as int]));
            assert(rec@.map_values(|r: RecDef| r@) =~= before.map_values(|r: RecDef| r@).push(self.rec@[j as int]@));
            assert(self.rec@.take(j + 1).map_values(|r: RecDef| r@) =~= self.rec@.take(j as int).map_values(|r: RecDef| r@).push(self.rec@[j as int]@));
            j = j + 1;
        }
        assert(self.slf@.take(self.slf.len() as int) =~= self.slf@);
        assert(self.rec@.take(self.rec.len() as int) =~= self.rec@);
        Program { slf, rec }
    }
}


/// The parser of the schema language.
pub struct GravityParser;

/// What to parse: a whole schema, or one statement of a kind.
#[allow(non_camel_case_types)]
#[derive(Debug, Clone, Copy, PartialEq, Eq, Structural)]
pub enum Rule {
    program,
    assignment,
    relationship,
    rec_def,
}

/// What parsing gives.
#[derive(Debug, PartialEq)]
pub enum Parsed {
    Program(Program),
    Statement(Statement),
    Record(RecDef),
}

impl GravityParser {
    /// Parses `input` by `rule`: a whole schema (`parse_program`), or the
    /// definition (`parse_assignment`), relationship (`parse_relationship`)
    /// or record definition (`parse_record`) at its start.
    pub fn parse<L: Fn(String) -> u64>(rule: Rule, input: &str, dlit: &L) -> (r: Result<Parsed, GravityError>)
        requires
            decimal_reader(*dlit),
        ensures
            rule == Rule::program ==> match spec_parse_program(input@, decimal_reading(*dlit)) {
                Some(p) => r matches Ok(Parsed::Program(prg)) && prg@ == p,
                None => is_syntax_error(r),
            },
            rule == Rule::assignment ==> match spec_parse_item(input@, decimal_reading(*dlit)) {
                Some(ItemModel::Stmt(st)) => if st is Assignment {
                    r matches Ok(Parsed::Statement(s)) && s@ == st
                } else {
                    is_syntax_error(r)
                },
                _ => is_syntax_error(r),
            },
            rule == Rule::relationship ==> match spec_parse_item(input@, decimal_reading(*dlit)) {
                Some(ItemModel::Stmt(st)) => if st is Relationship {
                    r matches Ok(Parsed::Statement(s)) && s@ == st
                } else {
                    is_syntax_error(r)
                },
                _ => is_syntax_error(r),
            },
            rule == Rule::rec_def ==> match spec_parse_item(input@, decimal_reading(*dlit)) {
                Some(ItemModel::Rec(rd)) => r matches Ok(Parsed::Record(d)) && d@ == rd,
                _ => is_syntax_error(r),
            },
    {
        match rule {
            Rule::program => match parse_program(input, dlit) {
                Ok(p) => Ok(Parsed::Program(p)),
                Err(e) => Err(e),
            },
            Rule::assignment => match parse_assignment(input, dlit) {
                Ok(s) => Ok(Parsed::Statement(s)),
                Err(e) => Err(e),
            },
            Rule::relationship => match parse_relationship(input, dlit) {
                Ok(s) => Ok(Parsed::Statement(s)),
                Err(e) => Err(e),
            },
            Rule::rec_def => match parse_record(input, dlit) {
                Ok(d) => Ok(Parsed::Record(d)),
                Err(e) => Err(e),
            },
        }
    }
}

} // verus!
