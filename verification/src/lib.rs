//! Gravity: a small schema language of typed variables and relationships,
//! with a type checker and an evaluator whose behaviour is stated in contracts.
use vstd::prelude::*;

pub mod cli;
pub mod error;
pub mod parse;
pub mod table;
pub mod text;

pub use parse::ast::{Expr, GravityParser, Op, Parsed, Program, RecDef, RecField, Rule, Statement, Type};
pub use parse::{eval, typecheck};
pub use parse::ast;
pub use parse::eval::{Assignment, State, Value};

use parse::ast::{op_symbol, type_keyword};
use parse::eval::ValueModel;
use text::{hex_char, int_text, push_char, push_hex_byte, push_int, push_str};

verus! {

/// Printing of decimals (IEEE-754 doubles given by their bits) is supplied
/// by the caller as a function from bits to text. It must accept every
/// input and give one text for each.
pub open spec fn decimal_printer<G: Fn(u64) -> String>(g: G) -> bool {
    &&& forall|d: u64| #[trigger] call_requires(g, (d,))
    &&& forall|d: u64, s1: String, s2: String|
        #![trigger call_ensures(g, (d,), s1), call_ensures(g, (d,), s2)]
        call_ensures(g, (d,), s1) && call_ensures(g, (d,), s2) ==> s1@ == s2@
}

/// The text that a decimal printer gives for each decimal.
pub open spec fn decimal_text<G: Fn(u64) -> String>(g: G) -> spec_fn(u64) -> Seq<char> {
    |d: u64| (choose|s: String| call_ensures(g, (d,), s))@
}

/// The words `true` and `false`.
pub open spec fn bool_text(b: bool) -> Seq<char> {
    if b {
        seq!['t', 'r', 'u', 'e']
    } else {
        seq!['f', 'a', 'l', 's', 'e']
    }
}

/// `n` exclamation marks.
pub open spec fn bangs(n: nat) -> Seq<char> {
    Seq::new(n, |i: int| '!')
}

/// The text of an expression: operations in full parentheses, with a space
/// on each side of the operator; texts in double quotes; `%` for the self
/// reference; decimals as `dtext` prints them.
pub open spec fn expr_text(e: Expr, dtext: spec_fn(u64) -> Seq<char>) -> Seq<char>
    decreases e,
{
    match e {
        Expr::Number(n) => int_text(n as int),
        Expr::Decimal(d) => dtext(d),
        Expr::Bool(b) => bool_text(b),
        Expr::Text(s) => seq!['"'] + s@ + seq!['"'],
        Expr::Ident(n) => n@,
        Expr::SelfRef => seq!['%'],
        Expr::Negate(inner) => seq!['-'] + expr_text(*inner, dtext),
        Expr::Factorial(inner, n) => expr_text(*inner, dtext) + bangs(n as nat),
        Expr::BinOp(l, op, r) => seq!['('] + expr_text(*l, dtext) + seq![' ', op_symbol(op), ' '] + expr_text(*r, dtext) + seq![')'],
    }
}

fn push_decimal<G: Fn(u64) -> String>(s: &mut String, d: u64, fmt: &G)
    requires
        decimal_printer(*fmt),
    ensures
        final(s)@ == old(s)@ + decimal_text(*fmt)(d),
{
    let t = fmt(d);
    proof {
        let c = choose|x: String| call_ensures(*fmt, (d,), x);
        assert(call_ensures(*fmt, (d,), c));
    }
    push_str(s, t.as_str());
}

fn push_bool(s: &mut String, b: bool)
    ensures
        final(s)@ == old(s)@ + bool_text(b),
{
    if b {
        push_str(s, "true");
    } else {
        push_str(s, "false");
    }
    proof {
        reveal_strlit("true");
        reveal_strlit("false");
        assert("true"@ =~= seq!['t', 'r', 'u', 'e']);
        assert("false"@ =~= seq!['f', 'a', 'l', 's', 'e']);
    }
}

/// Rust's debug form of a text (`format!("{:?}", ..)`): in double quotes,
/// with quotes, backslashes and control characters escaped.
pub uninterp spec fn debug_text(s: Seq<char>) -> Seq<char>;

/// `<str as Debug>::fmt`, through `format!("{:?}", ..)`: the debug form of `s`.
#[verifier::external_body]
fn debug_string(s: &str) -> (r: String)
    ensures
        r@ == debug_text(s@),
{
    format!("{:?}", s)
}

/// The text of a value as the shell shows it: whole numbers in decimal,
/// decimals as `dtext` prints them, booleans as words, and texts in their
/// debug form.
pub open spec fn value_text(v: ValueModel, dtext: spec_fn(u64) -> Seq<char>) -> Seq<char> {
    match v {
        ValueModel::Number(n) => int_text(n as int),
        ValueModel::Decimal(d) => dtext(d),
        ValueModel::Boolean(b) => bool_text(b),
        ValueModel::Text(t) => debug_text(t),
    }
}

impl Value {
    /// The text of the value (see `value_text`).
    pub fn to_text<G: Fn(u64) -> String>(&self, fmt: &G) -> (r: String)
        requires
            decimal_printer(*fmt),
        ensures
            r@ == value_text(self@, decimal_text(*fmt)),
    {
        match self {
            Value::Text(t) => debug_string(t.as_str()),
            Value::Number(n) => {
                let mut s = String::new();
                push_int(&mut s, *n);
                assert(s@ =~= value_text(self@, decimal_text(*fmt)));
                s
            },
            Value::Decimal(d) => {
                let mut s = String::new();
                push_decimal(&mut s, *d, fmt);
                assert(s@ =~= value_text(self@, decimal_text(*fmt)));
                s
            },
            Value::Boolean(b) => {
                let mut s = String::new();
                push_bool(&mut s, *b);
                assert(s@ =~= value_text(self@, decimal_text(*fmt)));
                s
            },
        }
    }
}

fn push_expr<G: Fn(u64) -> String>(s: &mut String, expr: &Expr, fmt: &G)
    requires
        decimal_printer(*fmt),
    ensures
        final(s)@ == old(s)@ + expr_text(*expr, decimal_text(*fmt)),
    decreases expr,
{
    let ghost dt = decimal_text(*fmt);
    match expr {
        Expr::Number(n) => push_int(s, *n),
        Expr::Decimal(d) => push_decimal(s, *d, fmt),
        Expr::Bool(b) => push_bool(s, *b),
        Expr::Text(t) => {
            push_char(s, '"');
            push_str(s, t.as_str());
            push_char(s, '"');
            assert(final(s)@ =~= old(s)@ + expr_text(*expr, dt));
        },
        Expr::Ident(n) => push_str(s, n.as_str()),
        Expr::SelfRef => {
            push_char(s, '%');
            assert(final(s)@ =~= old(s)@ + expr_text(*expr, dt));
        },
        Expr::Negate(e) => {
            push_char(s, '-');
            push_expr(s, e, fmt);
            assert(final(s)@ =~= old(s)@ + expr_text(*expr, dt));
        },
        Expr::Factorial(e, n) => {
            push_expr(s, e, fmt);
            let ghost mid = s@;
            let mut i: u32 = 0;
            while i < *n
                invariant
                    i <= *n,
                    s@ == mid + bangs(i as nat),
                decreases *n - i,
            {
                push_char(s, '!');
                i = i + 1;
                assert(s@ =~= mid + bangs(i as nat));
            }
            assert(final(s)@ =~= old(s)@ + expr_text(*expr, dt));
        },
        Expr::BinOp(l, op, r) => {
            push_char(s, '(');
            push_expr(s, l, fmt);
            push_char(s, ' ');
            push_str(s, op_to_string(op));
            push_char(s, ' ');
            push_expr(s, r, fmt);
            push_char(s, ')');
            assert(final(s)@ =~= old(s)@ + expr_text(*expr, dt));
        },
    }
}

/// The text of an expression (see `expr_text`).
pub fn expr_to_string<G: Fn(u64) -> String>(expr: &Expr, fmt: &G) -> (r: String)
    requires
        decimal_printer(*fmt),
    ensures
        r@ == expr_text(*expr, decimal_text(*fmt)),
{
    let mut s = String::new();
    push_expr(&mut s, expr, fmt);
    assert(s@ =~= expr_text(*expr, decimal_text(*fmt)));
    s
}

/// The symbol of an operator; the remainder is written `&`.
pub fn op_to_string(op: &Op) -> (r: &'static str)
    ensures
        r@ == seq![op_symbol(*op)],
{
    match op {
        Op::Add => {
            proof {
                reveal_strlit("+");
            }
            "+"
        },
        Op::Sub => {
            proof {
                reveal_strlit("-");
            }
            "-"
        },
        Op::Mul => {
            proof {
                reveal_strlit("*");
            }
            "*"
        },
        Op::Div => {
            proof {
                reveal_strlit("/");
            }
            "/"
        },
        Op::Mod => {
            proof {
                reveal_strlit("&");
            }
            "&"
        },
        Op::Pow => {
            proof {
                reveal_strlit("^");
            }
            "^"
        },
    }
}

/// The line that writes out a definition: `typ name = expr;`.
pub open spec fn assignment_line(typ: Type, name: Seq<char>, expr: Expr, dtext: spec_fn(u64) -> Seq<char>) -> Seq<char> {
    type_keyword(typ) + seq![' '] + name + seq![' ', '=', ' '] + expr_text(expr, dtext) + seq![';']
}

/// The line that writes out a relationship: `name <- expr;`.
pub open spec fn relationship_line(name: Seq<char>, expr: Expr, dtext: spec_fn(u64) -> Seq<char>) -> Seq<char> {
    name + seq![' ', '<', '-', ' '] + expr_text(expr, dtext) + seq![';']
}

/// The line of a definition (see `assignment_line`).
pub fn create_assignment<G: Fn(u64) -> String>(a: &Assignment, fmt: &G) -> (r: String)
    requires
        decimal_printer(*fmt),
    ensures
        r@ == assignment_line(a.typ, a.name@, a.expr, decimal_text(*fmt)),
{
    let mut s = String::new();
    push_str(&mut s, a.typ.name());
    push_char(&mut s, ' ');
    push_str(&mut s, a.name.as_str());
    push_char(&mut s, ' ');
    push_char(&mut s, '=');
    push_char(&mut s, ' ');
    push_expr(&mut s, &a.expr, fmt);
    push_char(&mut s, ';');
    assert(s@ =~= assignment_line(a.typ, a.name@, a.expr, decimal_text(*fmt)));
    s
}

/// The line of a relationship (see `relationship_line`).
pub fn create_relationship<G: Fn(u64) -> String>(name: &String, expr: &Expr, fmt: &G) -> (r: String)
    requires
        decimal_printer(*fmt),
    ensures
        r@ == relationship_line(name@, *expr, decimal_text(*fmt)),
{
    let mut s = String::new();
    push_str(&mut s, name.as_str());
    push_char(&mut s, ' ');
    push_char(&mut s, '<');
    push_char(&mut s, '-');
    push_char(&mut s, ' ');
    push_expr(&mut s, expr, fmt);
    push_char(&mut s, ';');
    assert(s@ =~= relationship_line(name@, *expr, decimal_text(*fmt)));
    s
}


/// The lines that write out a state: its definitions, then its relationships.
pub open spec fn schema_lines(defs: Seq<Assignment>, rels: Seq<(String, Expr)>, dtext: spec_fn(u64) -> Seq<char>) -> Seq<Seq<char>> {
    defs.map_values(|a: Assignment| assignment_line(a.typ, a.name@, a.expr, dtext))
        + rels.map_values(|r: (String, Expr)| relationship_line(r.0@, r.1, dtext))
}

/// Lines joined by line breaks (none after the last).
pub open spec fn join_lines(lines: Seq<Seq<char>>) -> Seq<char>
    decreases lines.len(),
{
    if lines.len() == 0 {
        Seq::empty()
    } else if lines.len() == 1 {
        lines[0]
    } else {
        join_lines(lines.drop_last()) + seq!['\n'] + lines.last()
    }
}

pub(crate) fn push_line(s: &mut String, line: &String, first: bool, lines: Ghost<Seq<Seq<char>>>)
    requires
        old(s)@ == join_lines(lines@),
        first == (lines@.len() == 0),
    ensures
        final(s)@ == join_lines(lines@.push(line@)),
{
    let ghost l2 = lines@.push(line@);
    assert(l2.drop_last() =~= lines@);
    if first {
        push_str(s, line.as_str());
    } else {
        push_char(s, '\n');
        push_str(s, line.as_str());
    }
}

/// The text that writes out a state: one line per definition, then one per
/// relationship, joined by line breaks.
pub fn schema_text<G: Fn(u64) -> String>(state: &State, fmt: &G) -> (r: String)
    requires
        decimal_printer(*fmt),
    ensures
        r@ == join_lines(schema_lines(state.def@, state.rel@, decimal_text(*fmt))),
{
    let ghost dt = decimal_text(*fmt);
    let ghost all = schema_lines(state.def@, state.rel@, dt);
    let mut s = String::new();
    assert(s@ =~= join_lines(Seq::<Seq<char>>::empty()));
    let nd = state.def.len();
    let mut i: usize = 0;
    while i < nd
        invariant
            decimal_printer(*fmt),
            dt == decimal_text(*fmt),
            all == schema_lines(state.def@, state.rel@, dt),
            nd == state.def.len(),
            i <= nd,
            s@ == join_lines(all.take(i as int)),
        decreases nd - i,
    {
        let line = create_assignment(&state.def[i], fmt);
        push_line(&mut s, &line, i == 0, Ghost(all.take(i as int)));
        assert(all.take(i as int).push(line@) =~= all.take(i + 1));
        i = i + 1;
    }
    let nr = state.rel.len();
    let mut j: usize = 0;
    while j < nr
        invariant
            decimal_printer(*fmt),
            dt == decimal_text(*fmt),
            all == schema_lines(state.def@, state.rel@, dt),
            nd == state.def.len(),
            nr == state.rel.len(),
            j <= nr,
            s@ == join_lines(all.take(nd + j)),
        decreases nr - j,
    {
        let line = create_relationship(&state.rel[j].0, &state.rel[j].1, fmt);
        push_line(&mut s, &line, nd == 0 && j == 0, Ghost(all.take(nd + j)));
        assert(all.take(nd + j).push(line@) =~= all.take(nd + j + 1));
        j = j + 1;
    }
    assert(all.take(nd + nr) =~= all);
    s
}

/// The bytes that open a compiled database.
pub open spec fn db_magic() -> Seq<u8> {
    seq![0xffu8, 0xfeu8, 0xc0u8, 0xaau8, 0xabu8, 0x67u8, 0x72u8, 0x61u8, 0x76u8]
}

/// The length of the opening bytes of a compiled database.
pub const MAGIC_LEN: usize = 9;

/// The file extension of a compiled database.
pub const DB_EXT: &'static str = "gravdb";

/// The file extension of a schema written out as text.
pub const SCM_EXT: &'static str = "gravscm";

fn magic_bytes() -> (r: Vec<u8>)
    ensures
        r@ == db_magic(),
{
    let r: Vec<u8> = vec![0xff, 0xfe, 0xc0, 0xaa, 0xab, 0x67, 0x72, 0x61, 0x76];
    assert(r@ =~= db_magic());
    r
}

/// A compiled database: the opening bytes, then the serialised state.
pub fn frame_db(payload: &[u8]) -> (r: Vec<u8>)
    ensures
        r@ == db_magic() + payload@,
{
    let mut r = magic_bytes();
    let n = payload.len();
    let mut i: usize = 0;
    while i < n
        invariant
            n == payload@.len(),
            i <= n,
            r@ == db_magic() + payload@.take(i as int),
        decreases n - i,
    {
        r.push(payload[i]);
        assert(payload@.take(i + 1) =~= payload@.take(i as int).push(payload@[i as int]));
        i = i + 1;
    }
    assert(payload@.take(n as int) =~= payload@);
    r
}

/// The serialised state of a compiled database, or `None` for a file that
/// does not open with the database's opening bytes (a schema in text).
pub open spec fn spec_binary_payload(contents: Seq<u8>) -> Option<Seq<u8>> {
    if contents.len() >= 9 && contents.take(9) == db_magic() {
        Some(contents.skip(9))
    } else {
        None
    }
}

/// Splits off the serialised state of a compiled database (see `spec_binary_payload`).
pub fn binary_payload(contents: &[u8]) -> (r: Option<Vec<u8>>)
    ensures
        match r {
            Some(v) => spec_binary_payload(contents@) == Some(v@),
            None => spec_binary_payload(contents@) is None,
        },
{
    let n = contents.len();
    if n < 9 {
        return None;
    }
    let magic = magic_bytes();
    let mut i: usize = 0;
    while i < 9
        invariant
            n == contents@.len(),
            n >= 9,
            magic@ == db_magic(),
            i <= 9,
            forall|j: int| 0 <= j < i ==> contents@[j] == db_magic()[j],
        decreases 9 - i,
    {
        if contents[i] != magic[i] {
            assert(contents@.take(9)[i as int] != db_magic()[i as int]);
            return None;
        }
        i = i + 1;
    }
    assert(contents@.take(9) =~= db_magic());
    let mut r: Vec<u8> = Vec::new();
    let mut k: usize = 9;
    while k < n
        invariant
            n == contents@.len(),
            9 <= k <= n,
            r@ == contents@.subrange(9, k as int),
        decreases n - k,
    {
        r.push(contents[k]);
        assert(contents@.subrange(9, k + 1) =~= contents@.subrange(9, k as int).push(contents@[k as int]));
        k = k + 1;
    }
    assert(contents@.subrange(9, n as int) =~= contents@.skip(9));
    Some(r)
}

/// A compiled database gives back the state it was compiled from.
pub proof fn lemma_frame_payload(payload: Seq<u8>)
    ensures
        spec_binary_payload(db_magic() + payload) == Some(payload),
{
    let c = db_magic() + payload;
    assert(c.take(9) =~= db_magic());
    assert(c.skip(9) =~= payload);
}

/// The bytes in lower-case hexadecimal, each as two digits and a space.
pub open spec fn hex_text(bytes: Seq<u8>) -> Seq<char>
    decreases bytes.len(),
{
    if bytes.len() == 0 {
        Seq::empty()
    } else {
        let b = bytes.last();
        hex_text(bytes.drop_last()) + seq![hex_char((b / 16) as int), hex_char((b % 16) as int), ' ']
    }
}

/// The bytes in hexadecimal (see `hex_text`).
pub fn hex_dump(bytes: &[u8]) -> (r: String)
    ensures
        r@ == hex_text(bytes@),
{
    let mut s = String::new();
    let n = bytes.len();
    let mut i: usize = 0;
    assert(s@ =~= hex_text(bytes@.take(0)));
    while i < n
        invariant
            n == bytes@.len(),
            i <= n,
            s@ == hex_text(bytes@.take(i as int)),
        decreases n - i,
    {
        push_hex_byte(&mut s, bytes[i]);
        push_char(&mut s, ' ');
        proof {
            let t = bytes@.take(i + 1);
            assert(t.drop_last() =~= bytes@.take(i as int));
            assert(t.last() == bytes@[i as int]);
        }
        i = i + 1;
    }
    assert(bytes@.take(n as int) =~= bytes@);
    s
}

} // verus!
