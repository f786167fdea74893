//! The grammar of expressions, over words (see `lexer`), from the loosest
//! binding to the tightest:
//!
//! ```text
//! sum     = product (("+" | "-") product)*      left to right
//! product = power (("*" | "/" | "&") power)*    left to right
//! power   = prefix ("^" power)?                 right to left
//! prefix  = "-" prefix | postfix
//! postfix = atom "!"*                           n marks: factorial with step n
//! atom    = number | decimal | true | false | "text" | name | "%" | "(" sum ")"
//! ```
//!
//! and of schemas:
//!
//! ```text
//! schema       = item*
//! item         = definition | relationship | record | insertion
//! definition   = type name "=" sum ";"           type: num, dec, bool or text
//! relationship = name "<-" sum ";"
//! record       = "record" name "{" field* "}"
//! field        = "key"? type name ";"
//! insertion    = "insert" name "(" (sum ("," sum)*)? ")" ";"
//! ```
//!
//! The words `record`, `insert` and the type names open their statements.
use vstd::prelude::*;

use crate::error::GravityError;
use crate::parse::ast::{
    keyword_type, str_equals, Expr, ExprModel, Op, Program, ProgramModel, RecDef, RecDefModel, RecField,
    RecFieldModel, Statement, StatementModel, Type,
};
use crate::parse::lexer::{tokens_model, Token, TokenModel};

verus! {

/// The additive operator that a word stands for.
pub open spec fn sum_op(t: TokenModel) -> Option<Op> {
    match t {
        TokenModel::Sym('+') => Some(Op::Add),
        TokenModel::Sym('-') => Some(Op::Sub),
        _ => None,
    }
}

/// The multiplicative operator that a word stands for.
pub open spec fn product_op(t: TokenModel) -> Option<Op> {
    match t {
        TokenModel::Sym('*') => Some(Op::Mul),
        TokenModel::Sym('/') => Some(Op::Div),
        TokenModel::Sym('&') => Some(Op::Mod),
        _ => None,
    }
}

/// The number of `!` words from `i` on.
pub open spec fn bang_count(t: Seq<TokenModel>, i: int) -> nat
    decreases t.len() - i,
{
    if 0 <= i < t.len() && t[i] == TokenModel::Sym('!') {
        1 + bang_count(t, i + 1)
    } else {
        0
    }
}

/// A sum starting at word `i`: the expression and the index of the first
/// word after it, or `None` where no sum starts there.
pub open spec fn p_sum(t: Seq<TokenModel>, i: int) -> Option<(ExprModel, int)>
    decreases t.len() - i, 8int,
{
    match p_product(t, i) {
        Some((l, j)) => if i < j <= t.len() {
            p_sum_rest(t, j, l)
        } else {
            None
        },
        None => None,
    }
}

/// The rest of a sum whose terms so far make `lhs`.
pub open spec fn p_sum_rest(t: Seq<TokenModel>, i: int, lhs: ExprModel) -> Option<(ExprModel, int)>
    decreases t.len() - i, 7int,
{
    if 0 <= i < t.len() && sum_op(t[i]) is Some {
        match p_product(t, i + 1) {
            Some((r, j)) => if i < j <= t.len() {
                p_sum_rest(t, j, ExprModel::BinOp(Box::new(lhs), sum_op(t[i]).unwrap(), Box::new(r)))
            } else {
                None
            },
            None => None,
        }
    } else {
        Some((lhs, i))
    }
}

/// A product starting at word `i`.
pub open spec fn p_product(t: Seq<TokenModel>, i: int) -> Option<(ExprModel, int)>
    decreases t.len() - i, 6int,
{
    match p_power(t, i) {
        Some((l, j)) => if i < j <= t.len() {
            p_product_rest(t, j, l)
        } else {
            None
        },
        None => None,
    }
}

/// The rest of a product whose factors so far make `lhs`.
pub open spec fn p_product_rest(t: Seq<TokenModel>, i: int, lhs: ExprModel) -> Option<(ExprModel, int)>
    decreases t.len() - i, 5int,
{
    if 0 <= i < t.len() && product_op(t[i]) is Some {
        match p_power(t, i + 1) {
            Some((r, j)) => if i < j <= t.len() {
                p_product_rest(t, j, ExprModel::BinOp(Box::new(lhs), product_op(t[i]).unwrap(), Box::new(r)))
            } else {
                None
            },
            None => None,
        }
    } else {
        Some((lhs, i))
    }
}

/// A power starting at word `i`.
pub open spec fn p_power(t: Seq<TokenModel>, i: int) -> Option<(ExprModel, int)>
    decreases t.len() - i, 4int,
{
    match p_prefix(t, i) {
        Some((l, j)) => if i <= j < t.len() && t[j] == TokenModel::Sym('^') {
            match p_power(t, j + 1) {
                Some((r, k)) => Some((ExprModel::BinOp(Box::new(l), Op::Pow, Box::new(r)), k)),
                None => None,
            }
        } else {
            Some((l, j))
        },
        None => None,
    }
}

/// A negation, or a postfix expression, starting at word `i`.
pub open spec fn p_prefix(t: Seq<TokenModel>, i: int) -> Option<(ExprModel, int)>
    decreases t.len() - i, 3int,
{
    if 0 <= i < t.len() && t[i] == TokenModel::Sym('-') {
        match p_prefix(t, i + 1) {
            Some((e, j)) => Some((ExprModel::Negate(Box::new(e)), j)),
            None => None,
        }
    } else {
        p_postfix(t, i)
    }
}

/// An atom followed by any number of `!`, starting at word `i`.
pub open spec fn p_postfix(t: Seq<TokenModel>, i: int) -> Option<(ExprModel, int)>
    decreases t.len() - i, 2int,
{
    match p_atom(t, i) {
        Some((a, j)) => {
            let n = bang_count(t, j);
            if n == 0 {
                Some((a, j))
            } else {
                Some((ExprModel::Factorial(Box::new(a), n as u32), j + n))
            }
        },
        None => None,
    }
}

/// An atom starting at word `i`.
pub open spec fn p_atom(t: Seq<TokenModel>, i: int) -> Option<(ExprModel, int)>
    decreases t.len() - i, 1int,
{
    if 0 <= i < t.len() {
        match t[i] {
            TokenModel::Int(n) => Some((ExprModel::Number(n), i + 1)),
            TokenModel::Dec(d) => Some((ExprModel::Decimal(d), i + 1)),
            TokenModel::True => Some((ExprModel::Bool(true), i + 1)),
            TokenModel::False => Some((ExprModel::Bool(false), i + 1)),
            TokenModel::Str(s) => Some((ExprModel::Text(s), i + 1)),
            TokenModel::Ident(s) => Some((ExprModel::Ident(s), i + 1)),
            TokenModel::Sym('%') => Some((ExprModel::SelfRef, i + 1)),
            TokenModel::Sym('(') => match p_sum(t, i + 1) {
                Some((e, j)) => if i < j < t.len() && t[j] == TokenModel::Sym(')') {
                    Some((e, j + 1))
                } else {
                    None
                },
                None => None,
            },
            _ => None,
        }
    } else {
        None
    }
}

/// The outcome of a parse from word `i`, for exec results.
pub open spec fn parsed(r: Option<(Expr, usize)>) -> Option<(ExprModel, int)> {
    match r {
        Some((e, j)) => Some((e@, j as int)),
        None => None,
    }
}

proof fn lemma_bang_count_bound(t: Seq<TokenModel>, j: int)
    ensures
        bang_count(t, j) > 0 ==> 0 <= j && j + bang_count(t, j) <= t.len(),
    decreases t.len() - j,
{
    if 0 <= j < t.len() && t[j] == TokenModel::Sym('!') {
        lemma_bang_count_bound(t, j + 1);
    }
}

/// A prefix expression that parses takes at least one word.
proof fn lemma_prefix_advances(t: Seq<TokenModel>, i: int)
    ensures
        p_prefix(t, i) matches Some((_, j)) ==> i < j <= t.len(),
    decreases t.len() - i,
{
    if 0 <= i < t.len() && t[i] == TokenModel::Sym('-') {
        lemma_prefix_advances(t, i + 1);
    } else {
        assert(p_prefix(t, i) == p_postfix(t, i));
        if let Some((_, j)) = p_atom(t, i) {
            assert(i < j <= t.len());
            lemma_bang_count_bound(t, j);
        }
    }
}

/// A power that parses takes at least one word.
proof fn lemma_power_advances(t: Seq<TokenModel>, i: int)
    ensures
        p_power(t, i) matches Some((_, k)) ==> i < k <= t.len(),
    decreases t.len() - i,
{
    lemma_prefix_advances(t, i);
    if let Some((_, j)) = p_prefix(t, i) {
        if i <= j < t.len() && t[j] == TokenModel::Sym('^') {
            lemma_power_advances(t, j + 1);
        }
    }
}

/// A product that parses takes at least one word.
proof fn lemma_product_advances(t: Seq<TokenModel>, i: int)
    ensures
        p_product(t, i) matches Some((_, k)) ==> i < k <= t.len(),
{
    lemma_power_advances(t, i);
    if let Some((l, j)) = p_power(t, i) {
        lemma_product_rest_advances(t, j, l);
    }
}

proof fn lemma_product_rest_advances(t: Seq<TokenModel>, i: int, lhs: ExprModel)
    requires
        i <= t.len(),
    ensures
        p_product_rest(t, i, lhs) matches Some((_, k)) ==> i <= k <= t.len(),
    decreases t.len() - i,
{
    if 0 <= i < t.len() && product_op(t[i]) is Some {
        if let Some((r, j)) = p_power(t, i + 1) {
            if i < j <= t.len() {
                lemma_product_rest_advances(t, j, ExprModel::BinOp(Box::new(lhs), product_op(t[i]).unwrap(), Box::new(r)));
            }
        }
    }
}

/// Products fold to the left: where the words from `i` on are a power `a`,
/// a multiplicative operator (`*`, `/` or `&`), a power `b`, another
/// multiplicative operator and a power `c`, and no multiplicative operator
/// follows, the product is `(a op1 b) op2 c`.
pub proof fn lemma_product_left_assoc(t: Seq<TokenModel>, i: int, a: ExprModel, j: int, b: ExprModel, k: int, c: ExprModel, m: int)
    requires
        p_power(t, i) == Some((a, j)),
        0 <= j < t.len() && product_op(t[j]) is Some,
        p_power(t, j + 1) == Some((b, k)),
        0 <= k < t.len() && product_op(t[k]) is Some,
        p_power(t, k + 1) == Some((c, m)),
        !(0 <= m < t.len() && product_op(t[m]) is Some),
    ensures
        p_product(t, i) == Some((
            ExprModel::BinOp(
                Box::new(ExprModel::BinOp(Box::new(a), product_op(t[j]).unwrap(), Box::new(b))),
                product_op(t[k]).unwrap(),
                Box::new(c),
            ),
            m,
        )),
{
    lemma_power_advances(t, i);
    lemma_power_advances(t, j + 1);
    lemma_power_advances(t, k + 1);
    let ab = ExprModel::BinOp(Box::new(a), product_op(t[j]).unwrap(), Box::new(b));
    let abc = ExprModel::BinOp(Box::new(ab), product_op(t[k]).unwrap(), Box::new(c));
    assert(p_product_rest(t, m, abc) == Some((abc, m)));
    assert(p_product_rest(t, k, ab) == Some((abc, m)));
    assert(p_product_rest(t, j, a) == Some((abc, m)));
}

/// Sums fold to the left: where the words from `i` on are a product `a`,
/// `+` or `-`, a product `b`, `+` or `-` again and a product `c`, and no
/// `+` or `-` follows, the sum is `(a op1 b) op2 c`.
pub proof fn lemma_sum_left_assoc(t: Seq<TokenModel>, i: int, a: ExprModel, j: int, b: ExprModel, k: int, c: ExprModel, m: int)
    requires
        p_product(t, i) == Some((a, j)),
        0 <= j < t.len() && sum_op(t[j]) is Some,
        p_product(t, j + 1) == Some((b, k)),
        0 <= k < t.len() && sum_op(t[k]) is Some,
        p_product(t, k + 1) == Some((c, m)),
        !(0 <= m < t.len() && sum_op(t[m]) is Some),
    ensures
        p_sum(t, i) == Some((
            ExprModel::BinOp(
                Box::new(ExprModel::BinOp(Box::new(a), sum_op(t[j]).unwrap(), Box::new(b))),
                sum_op(t[k]).unwrap(),
                Box::new(c),
            ),
            m,
        )),
{
    lemma_product_advances(t, i);
    lemma_product_advances(t, j + 1);
    lemma_product_advances(t, k + 1);
    let ab = ExprModel::BinOp(Box::new(a), sum_op(t[j]).unwrap(), Box::new(b));
    let abc = ExprModel::BinOp(Box::new(ab), sum_op(t[k]).unwrap(), Box::new(c));
    assert(p_sum_rest(t, m, abc) == Some((abc, m)));
    assert(p_sum_rest(t, k, ab) == Some((abc, m)));
    assert(p_sum_rest(t, j, a) == Some((abc, m)));
}

fn is_sym(t: &Vec<Token>, i: usize, c: char) -> (r: bool)
    ensures
        r == (i < t.len() && t@[i as int]@ == TokenModel::Sym(c)),
{
    if i < t.len() {
        match &t[i] {
            Token::Sym(x) => *x == c,
            _ => false,
        }
    } else {
        false
    }
}

fn sum_op_exec(t: &Vec<Token>, i: usize) -> (r: Option<Op>)
    requires
        i < t.len(),
    ensures
        r == sum_op(t@[i as int]@),
{
    match &t[i] {
        Token::Sym('+') => Some(Op::Add),
        Token::Sym('-') => Some(Op::Sub),
        _ => None,
    }
}

fn product_op_exec(t: &Vec<Token>, i: usize) -> (r: Option<Op>)
    requires
        i < t.len(),
    ensures
        r == product_op(t@[i as int]@),
{
    match &t[i] {
        Token::Sym('*') => Some(Op::Mul),
        Token::Sym('/') => Some(Op::Div),
        Token::Sym('&') => Some(Op::Mod),
        _ => None,
    }
}

pub(crate) fn parse_sum(t: &Vec<Token>, i: usize) -> (r: Option<(Expr, usize)>)
    ensures
        parsed(r) == p_sum(tokens_model(t@), i as int),
    decreases t@.len() - i, 8int,
{
    match parse_product(t, i) {
        Some((l, j)) => if i < j && j <= t.len() {
            parse_sum_rest(t, j, l)
        } else {
            None
        },
        None => None,
    }
}

fn parse_sum_rest(t: &Vec<Token>, i: usize, lhs: Expr) -> (r: Option<(Expr, usize)>)
    ensures
        parsed(r) == p_sum_rest(tokens_model(t@), i as int, lhs@),
    decreases t@.len() - i, 7int,
{
    let ghost tm = tokens_model(t@);
    if i < t.len() {
        proof {
            assert(tm[i as int] == t@[i as int]@);
        }
        match sum_op_exec(t, i) {
            Some(op) => match parse_product(t, i + 1) {
                Some((r, j)) => if i < j && j <= t.len() {
                    parse_sum_rest(t, j, Expr::BinOp(Box::new(lhs), op, Box::new(r)))
                } else {
                    None
                },
                None => None,
            },
            None => Some((lhs, i)),
        }
    } else {
        Some((lhs, i))
    }
}

fn parse_product(t: &Vec<Token>, i: usize) -> (r: Option<(Expr, usize)>)
    ensures
        parsed(r) == p_product(tokens_model(t@), i as int),
    decreases t@.len() - i, 6int,
{
    match parse_power(t, i) {
        Some((l, j)) => if i < j && j <= t.len() {
            parse_product_rest(t, j, l)
        } else {
            None
        },
        None => None,
    }
}

fn parse_product_rest(t: &Vec<Token>, i: usize, lhs: Expr) -> (r: Option<(Expr, usize)>)
    ensures
        parsed(r) == p_product_rest(tokens_model(t@), i as int, lhs@),
    decreases t@.len() - i, 5int,
{
    let ghost tm = tokens_model(t@);
    if i < t.len() {
        proof {
            assert(tm[i as int] == t@[i as int]@);
        }
        match product_op_exec(t, i) {
            Some(op) => match parse_power(t, i + 1) {
                Some((r, j)) => if i < j && j <= t.len() {
                    parse_product_rest(t, j, Expr::BinOp(Box::new(lhs), op, Box::new(r)))
                } else {
                    None
                },
                None => None,
            },
            None => Some((lhs, i)),
        }
    } else {
        Some((lhs, i))
    }
}

fn parse_power(t: &Vec<Token>, i: usize) -> (r: Option<(Expr, usize)>)
    ensures
        parsed(r) == p_power(tokens_model(t@), i as int),
    decreases t@.len() - i, 4int,
{
    let ghost tm = tokens_model(t@);
    match parse_prefix(t, i) {
        Some((l, j)) => {
            if i <= j && is_sym(t, j, '^') {
                proof {
                    assert(tm[j as int] == t@[j as int]@);
                }
                match parse_power(t, j + 1) {
                    Some((r, k)) => Some((Expr::BinOp(Box::new(l), Op::Pow, Box::new(r)), k)),
                    None => None,
                }
            } else {
                proof {
                    if i <= j && j < t.len() {
                        assert(tm[j as int] == t@[j as int]@);
                    }
                }
                Some((l, j))
            }
        },
        None => None,
    }
}

fn parse_prefix(t: &Vec<Token>, i: usize) -> (r: Option<(Expr, usize)>)
    ensures
        parsed(r) == p_prefix(tokens_model(t@), i as int),
    decreases t@.len() - i, 3int,
{
    let ghost tm = tokens_model(t@);
    proof {
        if i < t.len() {
            assert(tm[i as int] == t@[i as int]@);
        }
    }
    if is_sym(t, i, '-') {
        match parse_prefix(t, i + 1) {
            Some((e, j)) => Some((Expr::Negate(Box::new(e)), j)),
            None => None,
        }
    } else {
        parse_postfix(t, i)
    }
}

fn count_bangs(t: &Vec<Token>, i: usize) -> (n: usize)
    ensures
        n as int == bang_count(tokens_model(t@), i as int),
        i <= t.len() ==> i + n <= t.len(),
{
    let ghost tm = tokens_model(t@);
    if i >= t.len() {
        return 0;
    }
    let mut k = i;
    while is_sym(t, k, '!')
        invariant
            i <= k <= t.len(),
            tm == tokens_model(t@),
            bang_count(tm, i as int) == (k - i) + bang_count(tm, k as int),
        decreases t.len() - k,
    {
        proof {
            assert(tm[k as int] == t@[k as int]@);
        }
        k = k + 1;
    }
    proof {
        if k < t.len() {
            assert(tm[k as int] == t@[k as int]@);
        }
    }
    k - i
}

fn parse_postfix(t: &Vec<Token>, i: usize) -> (r: Option<(Expr, usize)>)
    ensures
        parsed(r) == p_postfix(tokens_model(t@), i as int),
    decreases t@.len() - i, 2int,
{
    match parse_atom(t, i) {
        Some((a, j)) => {
            let n = count_bangs(t, j);
            if n == 0 {
                Some((a, j))
            } else {
                Some((Expr::Factorial(Box::new(a), #[verifier::truncate] (n as u32)), j + n))
            }
        },
        None => None,
    }
}

fn parse_atom(t: &Vec<Token>, i: usize) -> (r: Option<(Expr, usize)>)
    ensures
        parsed(r) == p_atom(tokens_model(t@), i as int),
        r matches Some((_, j)) ==> j <= t.len(),
    decreases t@.len() - i, 1int,
{
    let ghost tm = tokens_model(t@);
    if i < t.len() {
        proof {
            assert(tm[i as int] == t@[i as int]@);
        }
        match &t[i] {
            Token::Int(n) => Some((Expr::Number(*n), i + 1)),
            Token::Dec(d) => Some((Expr::Decimal(*d), i + 1)),
            Token::True => Some((Expr::Bool(true), i + 1)),
            Token::False => Some((Expr::Bool(false), i + 1)),
            Token::Str(s) => Some((Expr::Text(s.clone()), i + 1)),
            Token::Ident(s) => Some((Expr::Ident(s.clone()), i + 1)),
            Token::Sym('%') => Some((Expr::SelfRef, i + 1)),
            Token::Sym('(') => match parse_sum(t, i + 1) {
                Some((e, j)) => {
                    if i < j && is_sym(t, j, ')') {
                        proof {
                            assert(tm[j as int] == t@[j as int]@);
                        }
                        Some((e, j + 1))
                    } else {
                        proof {
                            if i < j && j < t.len() {
                                assert(tm[j as int] == t@[j as int]@);
                            }
                        }
                        None
                    }
                },
                None => None,
            },
            _ => None,
        }
    } else {
        None
    }
}


/// A statement or a record definition, as the schema holds them.
pub ghost enum ItemModel {
    Stmt(StatementModel),
    Rec(RecDefModel),
}

pub open spec fn word_record() -> Seq<char> {
    seq!['r', 'e', 'c', 'o', 'r', 'd']
}

pub open spec fn word_insert() -> Seq<char> {
    seq!['i', 'n', 's', 'e', 'r', 't']
}

pub open spec fn word_key() -> Seq<char> {
    seq!['k', 'e', 'y']
}

/// The name that word `i` is, if it is one.
pub open spec fn name_at(t: Seq<TokenModel>, i: int) -> Option<Seq<char>> {
    if 0 <= i < t.len() {
        match t[i] {
            TokenModel::Ident(w) => Some(w),
            _ => None,
        }
    } else {
        None
    }
}

/// The type that word `i` names, if it names one.
pub open spec fn type_at(t: Seq<TokenModel>, i: int) -> Option<Type> {
    match name_at(t, i) {
        Some(w) => keyword_type(w),
        None => None,
    }
}

/// Whether word `i` is the symbol `c`.
pub open spec fn sym_at(t: Seq<TokenModel>, i: int, c: char) -> bool {
    0 <= i < t.len() && t[i] == TokenModel::Sym(c)
}

/// A record field starting at word `i`.
pub open spec fn p_field(t: Seq<TokenModel>, i: int) -> Option<(RecFieldModel, int)> {
    let k = if name_at(t, i) == Some(word_key()) { i + 1 } else { i };
    match (type_at(t, k), name_at(t, k + 1)) {
        (Some(typ), Some(name)) => if sym_at(t, k + 2, ';') {
            Some((RecFieldModel { typ, name, is_key: k == i + 1 }, k + 3))
        } else {
            None
        },
        _ => None,
    }
}

/// The fields of a record from word `i` up to its closing brace, after the
/// fields `acc`.
pub open spec fn p_fields(t: Seq<TokenModel>, i: int, acc: Seq<RecFieldModel>) -> Option<(Seq<RecFieldModel>, int)>
    decreases t.len() - i,
{
    if sym_at(t, i, '}') {
        Some((acc, i))
    } else {
        match p_field(t, i) {
            Some((f, j)) => if i < j <= t.len() {
                p_fields(t, j, acc.push(f))
            } else {
                None
            },
            None => None,
        }
    }
}

/// The values of an insertion from word `i` on, after the values `acc`: sums
/// separated by commas.
pub open spec fn p_args(t: Seq<TokenModel>, i: int, acc: Seq<ExprModel>) -> Option<(Seq<ExprModel>, int)>
    decreases t.len() - i,
{
    match p_sum(t, i) {
        Some((e, j)) => if i < j <= t.len() {
            if sym_at(t, j, ',') {
                p_args(t, j + 1, acc.push(e))
            } else {
                Some((acc.push(e), j))
            }
        } else {
            None
        },
        None => None,
    }
}

/// A definition `type name = sum;` starting at word `i`, whose first word names `typ`.
pub open spec fn p_definition(t: Seq<TokenModel>, i: int, typ: Type) -> Option<(ItemModel, int)> {
    match (name_at(t, i + 1), sym_at(t, i + 2, '=')) {
        (Some(name), true) => match p_sum(t, i + 3) {
            Some((e, j)) => if sym_at(t, j, ';') {
                Some((ItemModel::Stmt(StatementModel::Assignment { typ, name, expr: e }), j + 1))
            } else {
                None
            },
            None => None,
        },
        _ => None,
    }
}

/// A record definition starting at word `i` (the word `record`).
pub open spec fn p_record(t: Seq<TokenModel>, i: int) -> Option<(ItemModel, int)> {
    match (name_at(t, i + 1), sym_at(t, i + 2, '{')) {
        (Some(name), true) => match p_fields(t, i + 3, Seq::empty()) {
            Some((fields, j)) => Some((ItemModel::Rec(RecDefModel { name, fields }), j + 1)),
            None => None,
        },
        _ => None,
    }
}

/// An insertion starting at word `i` (the word `insert`).
pub open spec fn p_insertion(t: Seq<TokenModel>, i: int) -> Option<(ItemModel, int)> {
    match (name_at(t, i + 1), sym_at(t, i + 2, '(')) {
        (Some(target), true) => {
            let args = if sym_at(t, i + 3, ')') {
                Some((Seq::<ExprModel>::empty(), i + 3))
            } else {
                p_args(t, i + 3, Seq::empty())
            };
            match args {
                Some((exprs, j)) => if sym_at(t, j, ')') && sym_at(t, j + 1, ';') {
                    Some((ItemModel::Stmt(StatementModel::Insertion { target, exprs }), j + 2))
                } else {
                    None
                },
                None => None,
            }
        },
        _ => None,
    }
}

/// A relationship `name <- sum;` starting at word `i`, the name `name`.
pub open spec fn p_relationship(t: Seq<TokenModel>, i: int, name: Seq<char>) -> Option<(ItemModel, int)> {
    if 0 <= i + 1 < t.len() && t[i + 1] == TokenModel::Arrow {
        match p_sum(t, i + 2) {
            Some((e, j)) => if sym_at(t, j, ';') {
                Some((ItemModel::Stmt(StatementModel::Relationship { name, expr: e }), j + 1))
            } else {
                None
            },
            None => None,
        }
    } else {
        None
    }
}

/// The statement or record definition that starts at word `i`.
pub open spec fn p_item(t: Seq<TokenModel>, i: int) -> Option<(ItemModel, int)> {
    match name_at(t, i) {
        None => None,
        Some(w) => if keyword_type(w) is Some {
            p_definition(t, i, keyword_type(w).unwrap())
        } else if w == word_record() {
            p_record(t, i)
        } else if w == word_insert() {
            p_insertion(t, i)
        } else {
            p_relationship(t, i, w)
        },
    }
}

/// The schema made of the items from word `i` on, after the schema `acc`:
/// statements in order, and record definitions in order.
pub open spec fn p_program(t: Seq<TokenModel>, i: int, acc: ProgramModel) -> Option<ProgramModel>
    decreases t.len() - i,
{
    if i < 0 || i >= t.len() {
        Some(acc)
    } else {
        match p_item(t, i) {
            Some((item, j)) => if i < j <= t.len() {
                p_program(
                    t,
                    j,
                    match item {
                        ItemModel::Stmt(st) => ProgramModel { slf: acc.slf.push(st), rec: acc.rec },
                        ItemModel::Rec(r) => ProgramModel { slf: acc.slf, rec: acc.rec.push(r) },
                    },
                )
            } else {
                None
            },
            None => None,
        }
    }
}


/// A statement or a record definition.
pub enum Item {
    Stmt(Statement),
    Rec(RecDef),
}

impl View for Item {
    type V = ItemModel;

    open spec fn view(&self) -> ItemModel {
        match self {
            Item::Stmt(st) => ItemModel::Stmt(st@),
            Item::Rec(r) => ItemModel::Rec(r@),
        }
    }
}

fn name_at_exec(t: &Vec<Token>, i: usize) -> (r: Option<&String>)
    ensures
        r is Some ==> i < t.len(),
        match r {
            Some(w) => name_at(tokens_model(t@), i as int) == Some(w@),
            None => name_at(tokens_model(t@), i as int) is None,
        },
{
    if i < t.len() {
        proof {
            assert(tokens_model(t@)[i as int] == t@[i as int]@);
        }
        match &t[i] {
            Token::Ident(w) => Some(w),
            _ => None,
        }
    } else {
        None
    }
}

fn sym_at_exec(t: &Vec<Token>, i: usize, c: char) -> (r: bool)
    ensures
        r == sym_at(tokens_model(t@), i as int, c),
{
    proof {
        if i < t.len() {
            assert(tokens_model(t@)[i as int] == t@[i as int]@);
        }
    }
    is_sym(t, i, c)
}

fn type_at_exec(t: &Vec<Token>, i: usize) -> (r: Option<Type>)
    ensures
        r == type_at(tokens_model(t@), i as int),
{
    match name_at_exec(t, i) {
        Some(w) => match Type::try_from(w.as_str()) {
            Ok(ty) => Some(ty),
            Err(_) => None,
        },
        None => None,
    }
}

fn is_word(w: &String, lit: &str, Ghost(expected): Ghost<Seq<char>>) -> (r: bool)
    requires
        lit@ == expected,
    ensures
        r == (w@ == expected),
{
    str_equals(w.as_str(), lit)
}

fn parse_field(t: &Vec<Token>, i: usize) -> (r: Option<(RecField, usize)>)
    ensures
        match r {
            Some((f, j)) => p_field(tokens_model(t@), i as int) == Some((f@, j as int)),
            None => p_field(tokens_model(t@), i as int) is None,
        },
{
    proof {
        reveal_strlit("key");
        assert("key"@ =~= word_key());
    }
    let is_key = match name_at_exec(t, i) {
        Some(w) => is_word(w, "key", Ghost(word_key())),
        None => false,
    };
    let k = if is_key { i + 1 } else { i };
    if k >= t.len() {
        return None;
    }
    match (type_at_exec(t, k), name_at_exec(t, k + 1)) {
        (Some(typ), Some(name)) => if sym_at_exec(t, k + 2, ';') {
            Some((RecField { typ, name: name.clone(), is_key }, k + 3))
        } else {
            None
        },
        _ => None,
    }
}

fn parse_fields(t: &Vec<Token>, i: usize) -> (r: Option<(Vec<RecField>, usize)>)
    ensures
        match r {
            Some((fs, j)) => p_fields(tokens_model(t@), i as int, Seq::empty()) == Some((fs@.map_values(|f: RecField| f@), j as int))
                && j < t.len(),
            None => p_fields(tokens_model(t@), i as int, Seq::empty()) is None,
        },
{
    let ghost tm = tokens_model(t@);
    let mut acc: Vec<RecField> = Vec::new();
    let mut k = i;
    assert(acc@.map_values(|f: RecField| f@) =~= Seq::<RecFieldModel>::empty());
    loop
        invariant
            tm == tokens_model(t@),
            p_fields(tm, i as int, Seq::empty()) == p_fields(tm, k as int, acc@.map_values(|f: RecField| f@)),
        decreases t.len() - k,
    {
        if sym_at_exec(t, k, '}') {
            return Some((acc, k));
        }
        match parse_field(t, k) {
            Some((f, j)) => {
                if k < j && j <= t.len() {
                    let ghost fm = f@;
                    let ghost before = acc@.map_values(|f: RecField| f@);
                    acc.push(f);
                    assert(acc@.map_values(|f: RecField| f@) =~= before.push(fm));
                    k = j;
                } else {
                    return None;
                }
            },
            None => {
                return None;
            },
        }
    }
}

fn parse_args(t: &Vec<Token>, i: usize) -> (r: Option<(Vec<Expr>, usize)>)
    ensures
        match r {
            Some((es, j)) => p_args(tokens_model(t@), i as int, Seq::empty()) == Some((es@.map_values(|e: Expr| e@), j as int)),
            None => p_args(tokens_model(t@), i as int, Seq::empty()) is None,
        },
{
    let ghost tm = tokens_model(t@);
    let mut acc: Vec<Expr> = Vec::new();
    let mut k = i;
    assert(acc@.map_values(|e: Expr| e@) =~= Seq::<ExprModel>::empty());
    loop
        invariant
            tm == tokens_model(t@),
            p_args(tm, i as int, Seq::empty()) == p_args(tm, k as int, acc@.map_values(|e: Expr| e@)),
        decreases t.len() - k,
    {
        match parse_sum(t, k) {
            Some((e, j)) => {
                if k < j && j <= t.len() {
                    let ghost em = e@;
                    let ghost before = acc@.map_values(|e: Expr| e@);
                    acc.push(e);
                    assert(acc@.map_values(|e: Expr| e@) =~= before.push(em));
                    if sym_at_exec(t, j, ',') {
                        k = j + 1;
                    } else {
                        return Some((acc, j));
                    }
                } else {
                    return None;
                }
            },
            None => {
                return None;
            },
        }
    }
}

/// The outcome of parsing an item, for exec results.
pub open spec fn item_parsed(r: Option<(Item, usize)>) -> Option<(ItemModel, int)> {
    match r {
        Some((it, j)) => Some((it@, j as int)),
        None => None,
    }
}

fn parse_definition(t: &Vec<Token>, i: usize, typ: Type) -> (r: Option<(Item, usize)>)
    requires
        i < t.len(),
    ensures
        item_parsed(r) == p_definition(tokens_model(t@), i as int, typ),
{
    if t.len() - i <= 2 {
        return None;
    }
    match (name_at_exec(t, i + 1), sym_at_exec(t, i + 2, '=')) {
        (Some(name), true) => match parse_sum(t, i + 3) {
            Some((e, j)) => if sym_at_exec(t, j, ';') {
                Some((Item::Stmt(Statement::Assignment { typ, name: name.clone(), expr: e }), j + 1))
            } else {
                None
            },
            None => None,
        },
        _ => None,
    }
}

fn parse_record_at(t: &Vec<Token>, i: usize) -> (r: Option<(Item, usize)>)
    requires
        i < t.len(),
    ensures
        item_parsed(r) == p_record(tokens_model(t@), i as int),
{
    if t.len() - i <= 2 {
        return None;
    }
    match (name_at_exec(t, i + 1), sym_at_exec(t, i + 2, '{')) {
        (Some(name), true) => match parse_fields(t, i + 3) {
            Some((fields, j)) => {
                let r = RecDef { name: name.clone(), fields };
                Some((Item::Rec(r), j + 1))
            },
            None => None,
        },
        _ => None,
    }
}

fn parse_insertion_at(t: &Vec<Token>, i: usize) -> (r: Option<(Item, usize)>)
    requires
        i < t.len(),
    ensures
        item_parsed(r) == p_insertion(tokens_model(t@), i as int),
{
    if t.len() - i <= 2 {
        return None;
    }
    match (name_at_exec(t, i + 1), sym_at_exec(t, i + 2, '(')) {
        (Some(target), true) => {
            let args = if sym_at_exec(t, i + 3, ')') {
                let v: Vec<Expr> = Vec::new();
                assert(v@.map_values(|e: Expr| e@) =~= Seq::<ExprModel>::empty());
                Some((v, i + 3))
            } else {
                parse_args(t, i + 3)
            };
            match args {
                Some((exprs, j)) => if sym_at_exec(t, j, ')') && sym_at_exec(t, j + 1, ';') {
                    Some((Item::Stmt(Statement::Insertion { target: target.clone(), exprs }), j + 2))
                } else {
                    None
                },
                None => None,
            }
        },
        _ => None,
    }
}

fn parse_relationship_at(t: &Vec<Token>, i: usize, name: &String) -> (r: Option<(Item, usize)>)
    requires
        i < t.len(),
    ensures
        item_parsed(r) == p_relationship(tokens_model(t@), i as int, name@),
{
    if i + 1 >= t.len() {
        return None;
    }
    proof {
        assert(tokens_model(t@)[i + 1] == t@[i + 1]@);
    }
    let arrow = match &t[i + 1] {
        Token::Arrow => true,
        _ => false,
    };
    if arrow {
        match parse_sum(t, i + 2) {
            Some((e, j)) => if sym_at_exec(t, j, ';') {
                Some((Item::Stmt(Statement::Relationship { name: name.clone(), expr: e }), j + 1))
            } else {
                None
            },
            None => None,
        }
    } else {
        None
    }
}

/// Parses the statement or record definition that starts at word `i`.
pub fn parse_item(t: &Vec<Token>, i: usize) -> (r: Option<(Item, usize)>)
    ensures
        item_parsed(r) == p_item(tokens_model(t@), i as int),
{
    proof {
        reveal_strlit("record");
        reveal_strlit("insert");
        assert("record"@ =~= word_record());
        assert("insert"@ =~= word_insert());
    }
    let w = match name_at_exec(t, i) {
        None => return None,
        Some(w) => w,
    };
    match Type::try_from(w.as_str()) {
        Ok(typ) => parse_definition(t, i, typ),
        Err(_) => {
            if is_word(w, "record", Ghost(word_record())) {
                parse_record_at(t, i)
            } else if is_word(w, "insert", Ghost(word_insert())) {
                parse_insertion_at(t, i)
            } else {
                parse_relationship_at(t, i, w)
            }
        },
    }
}

/// Parses a schema from its words (see `p_program`).
pub fn parse_tokens(t: &Vec<Token>) -> (r: Option<Program>)
    ensures
        match r {
            Some(p) => p_program(tokens_model(t@), 0, ProgramModel { slf: Seq::empty(), rec: Seq::empty() }) == Some(p@),
            None => p_program(tokens_model(t@), 0, ProgramModel { slf: Seq::empty(), rec: Seq::empty() }) is None,
        },
{
    let ghost tm = tokens_model(t@);
    let mut stmts: Vec<Statement> = Vec::new();
    let mut recs: Vec<RecDef> = Vec::new();
    let mut k: usize = 0;
    proof {
        assert(stmts@.map_values(|s: Statement| s@) =~= Seq::<StatementModel>::empty());
        assert(recs@.map_values(|r: RecDef| r@) =~= Seq::<RecDefModel>::empty());
    }
    while k < t.len()
        invariant
            tm == tokens_model(t@),
            k <= t.len(),
            p_program(tm, 0, ProgramModel { slf: Seq::empty(), rec: Seq::empty() })
                == p_program(tm, k as int, ProgramModel {
                    slf: stmts@.map_values(|s: Statement| s@),
                    rec: recs@.map_values(|r: RecDef| r@),
                }),
        decreases t.len() - k,
    {
        match parse_item(t, k) {
            Some((item, j)) => {
                if k < j && j <= t.len() {
                    let ghost im = item@;
                    let ghost s0 = stmts@.map_values(|s: Statement| s@);
                    let ghost r0 = recs@.map_values(|r: RecDef| r@);
                    match item {
                        Item::Stmt(st) => {
                            stmts.push(st);
                            assert(stmts@.map_values(|s: Statement| s@) =~= s0.push(im->Stmt_0));
                        },
                        Item::Rec(r) => {
                            recs.push(r);
                            assert(recs@.map_values(|r: RecDef| r@) =~= r0.push(im->Rec_0));
                        },
                    }
                    k = j;
                } else {
                    return None;
                }
            },
            None => {
                return None;
            },
        }
    }
    let p = Program { slf: stmts, rec: recs };
    Some(p)
}

} // verus!
