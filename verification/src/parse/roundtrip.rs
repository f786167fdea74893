//! Reading back what was written: the text of a schema (see
//! `crate::schema_text`) parses to the definitions and relationships it was
//! written from, where every part of it is written in a form that reads
//! back the same.
use vstd::prelude::*;

use crate::parse::lexer::{
    digits_value, in_class, is_blank, is_digit, is_ident_char, is_ident_start, is_symbol, lex_from,
    run_end, scan_token, TokenModel, DIGITS, NAME_CHARS, TEXT_CHARS,
};
use crate::parse::ast::{
    keyword_type, op_symbol, spec_parse_program, type_keyword, Expr, ExprModel, Op, ProgramModel, Statement,
    StatementModel, Type,
};
use crate::parse::eval::Assignment;
use crate::parse::grammar::{
    bang_count, name_at, p_atom, p_item, p_postfix, p_power, p_prefix, p_product, p_product_rest, p_program, p_sum,
    p_sum_rest, product_op, sum_op, sym_at, word_insert, word_record, ItemModel,
};
use crate::text::{digit_char, int_text, nat_text};
use crate::{assignment_line, bangs, bool_text, expr_text, join_lines, relationship_line, schema_lines};

verus! {

/// The words of `w` followed by those of `rest`, where `rest` lexed.
pub open spec fn lexed_then(w: Seq<TokenModel>, rest: Option<Seq<TokenModel>>) -> Option<Seq<TokenModel>> {
    match rest {
        Some(r) => Some(w + r),
        None => None,
    }
}

/// Whether the characters of `w` stand in `s` from `i` on.
pub open spec fn text_at(s: Seq<char>, i: int, w: Seq<char>) -> bool {
    0 <= i && i + w.len() <= s.len() && s.subrange(i, i + w.len()) == w
}

proof fn lemma_char_at(s: Seq<char>, i: int, w: Seq<char>, a: int)
    requires
        text_at(s, i, w),
        0 <= a < w.len(),
    ensures
        s[i + a] == w[a],
{
    assert(s.subrange(i, i + w.len())[a] == s[i + a]);
}

proof fn lemma_text_at_sub(s: Seq<char>, i: int, w: Seq<char>, a: int, b: int)
    requires
        text_at(s, i, w),
        0 <= a <= b <= w.len(),
    ensures
        text_at(s, i + a, w.subrange(a, b)),
{
    assert(s.subrange(i + a, i + b) =~= w.subrange(a, b)) by {
        assert forall|k: int| 0 <= k < b - a implies s.subrange(i + a, i + b)[k] == w.subrange(a, b)[k] by {
            lemma_char_at(s, i, w, a + k);
        }
    }
}

proof fn lemma_lexed_then_assoc(a: Seq<TokenModel>, b: Seq<TokenModel>, r: Option<Seq<TokenModel>>)
    ensures
        lexed_then(a, lexed_then(b, r)) == lexed_then(a + b, r),
{
    if let Some(x) = r {
        assert(a + (b + x) =~= (a + b) + x);
    }
}

/// A run of characters of a class ends where the class does.
proof fn lemma_run_end_at(s: Seq<char>, a: int, b: int, class: int)
    requires
        0 <= a <= b <= s.len(),
        forall|j: int| a <= j < b ==> in_class(class, #[trigger] s[j]),
        b == s.len() || !in_class(class, s[b]),
    ensures
        run_end(s, a, class) == b,
    decreases b - a,
{
    if a < b {
        lemma_run_end_at(s, a + 1, b, class);
    }
}

proof fn lemma_run_end_bounds(s: Seq<char>, i: int, class: int)
    requires
        0 <= i <= s.len(),
    ensures
        i <= run_end(s, i, class) <= s.len(),
        forall|j: int| i <= j < run_end(s, i, class) ==> in_class(class, #[trigger] s[j]),
        run_end(s, i, class) < s.len() ==> !in_class(class, s[run_end(s, i, class)]),
    decreases s.len() - i,
{
    if i < s.len() && in_class(class, s[i]) {
        lemma_run_end_bounds(s, i + 1, class);
    }
}

/// One word, then the rest.
proof fn lemma_lex_word(s: Seq<char>, i: int, tok: TokenModel, j: int, dlit: spec_fn(Seq<char>) -> u64)
    requires
        0 <= i < j <= s.len(),
        !is_blank(s[i]),
        scan_token(s, i, dlit) == Some((tok, j)),
    ensures
        lex_from(s, i, dlit) == lexed_then(seq![tok], lex_from(s, j, dlit)),
{
}

/// Blank space is passed over.
proof fn lemma_lex_blank(s: Seq<char>, i: int, dlit: spec_fn(Seq<char>) -> u64)
    requires
        0 <= i < s.len(),
        is_blank(s[i]),
    ensures
        lex_from(s, i, dlit) == lex_from(s, i + 1, dlit),
{
}

/// A symbol is a word of its own.
proof fn lemma_lex_symbol(s: Seq<char>, i: int, dlit: spec_fn(Seq<char>) -> u64)
    requires
        0 <= i < s.len(),
        is_symbol(s[i]),
    ensures
        lex_from(s, i, dlit) == lexed_then(seq![TokenModel::Sym(s[i])], lex_from(s, i + 1, dlit)),
{
    let c = s[i];
    assert(!is_ident_start(c) && !is_digit(c) && c != '"' && c != '<' && !is_blank(c));
    lemma_lex_word(s, i, TokenModel::Sym(c), i + 1, dlit);
}

/// Whether `n` is written as one name word: letters, digits and `_`,
/// starting with a letter or `_`, and neither `true` nor `false`.
pub open spec fn is_plain_name(n: Seq<char>) -> bool {
    &&& n.len() > 0
    &&& is_ident_start(n[0])
    &&& forall|j: int| 0 <= j < n.len() ==> is_ident_char(#[trigger] n[j])
    &&& n != seq!['t', 'r', 'u', 'e']
    &&& n != seq!['f', 'a', 'l', 's', 'e']
}

/// A name followed by a character that cannot continue it is one word.
proof fn lemma_lex_name(s: Seq<char>, i: int, w: Seq<char>, dlit: spec_fn(Seq<char>) -> u64)
    requires
        is_plain_name(w),
        text_at(s, i, w),
        i + w.len() == s.len() || !is_ident_char(s[i + w.len()]),
    ensures
        lex_from(s, i, dlit) == lexed_then(seq![TokenModel::Ident(w)], lex_from(s, i + w.len(), dlit)),
{
    let e = i + w.len();
    assert forall|j: int| i <= j < e implies in_class(NAME_CHARS as int, #[trigger] s[j]) by {
        lemma_char_at(s, i, w, j - i);
    }
    lemma_run_end_at(s, i, e, NAME_CHARS as int);
    lemma_char_at(s, i, w, 0);
    assert(!is_blank(s[i]));
    lemma_lex_word(s, i, TokenModel::Ident(w), e, dlit);
}

proof fn lemma_digit_char(d: int)
    requires
        0 <= d < 10,
    ensures
        digit_char(d) as int == 48 + d,
        is_digit(digit_char(d)),
{
    assert(((48 + d) as u8) as int == 48 + d);
}

/// The digits of a whole number read back as the number.
proof fn lemma_nat_text(n: nat)
    ensures
        nat_text(n).len() > 0,
        forall|j: int| 0 <= j < nat_text(n).len() ==> is_digit(#[trigger] nat_text(n)[j]),
        digits_value(nat_text(n)) == n,
    decreases n,
{
    if n < 10 {
        lemma_digit_char(n as int);
        assert(nat_text(n) =~= seq![digit_char(n as int)]);
        assert(nat_text(n).drop_last() =~= Seq::<char>::empty());
        assert('0' as int == 48);
        assert(digits_value(Seq::<char>::empty()) == 0);
        assert(digits_value(nat_text(n)) == digits_value(nat_text(n).drop_last()) * 10 + (nat_text(n).last() as int - '0' as int));
    } else {
        lemma_nat_text(n / 10);
        lemma_digit_char((n % 10) as int);
        let t = nat_text(n);
        assert(t.drop_last() =~= nat_text(n / 10));
        assert(t.last() == digit_char((n % 10) as int));
        assert((n / 10) * 10 + n % 10 == n) by (nonlinear_arith);
        assert('0' as int == 48);
        assert(digits_value(t) == digits_value(t.drop_last()) * 10 + (t.last() as int - '0' as int));
    }
}

/// Whether a text is a decimal literal: digits, a point, digits.
pub open spec fn is_decimal_literal(w: Seq<char>) -> bool {
    let k = run_end(w, 0, DIGITS as int);
    &&& 0 < k
    &&& k + 1 < w.len()
    &&& w[k] == '.'
    &&& run_end(w, k + 1, DIGITS as int) == w.len()
}

/// Whether an expression is neither a negation nor a factorial.
pub open spec fn is_atomic(e: Expr) -> bool {
    !(e is Negate) && !(e is Factorial)
}

/// Whether the text of `e` (see `crate::expr_text`, decimals printed by
/// `dtext`) reads back as `e` (decimal literals read by `dlit`): whole
/// numbers are not negative, decimals print as literals that read back as
/// themselves, texts hold no double quote, names are plain names, and a
/// factorial has at least one mark and stands on an expression that is
/// neither a negation nor a factorial.
pub open spec fn prints_back(e: Expr, dtext: spec_fn(u64) -> Seq<char>, dlit: spec_fn(Seq<char>) -> u64) -> bool
    decreases e,
{
    match e {
        Expr::Number(n) => n >= 0,
        Expr::Decimal(d) => is_decimal_literal(dtext(d)) && dlit(dtext(d)) == d,
        Expr::Bool(_) => true,
        Expr::Text(t) => !t@.contains('"'),
        Expr::Ident(n) => is_plain_name(n@),
        Expr::SelfRef => true,
        Expr::Negate(x) => prints_back(*x, dtext, dlit),
        Expr::Factorial(x, n) => n >= 1 && is_atomic(*x) && prints_back(*x, dtext, dlit),
        Expr::BinOp(l, _, r) => prints_back(*l, dtext, dlit) && prints_back(*r, dtext, dlit),
    }
}

/// `n` factorial marks as words.
pub open spec fn bang_tokens(n: nat) -> Seq<TokenModel> {
    Seq::new(n, |j: int| TokenModel::Sym('!'))
}

/// The words of the text of an expression.
pub open spec fn expr_tokens(e: Expr) -> Seq<TokenModel>
    decreases e,
{
    match e {
        Expr::Number(n) => seq![TokenModel::Int(n)],
        Expr::Decimal(d) => seq![TokenModel::Dec(d)],
        Expr::Bool(b) => if b {
            seq![TokenModel::True]
        } else {
            seq![TokenModel::False]
        },
        Expr::Text(t) => seq![TokenModel::Str(t@)],
        Expr::Ident(n) => seq![TokenModel::Ident(n@)],
        Expr::SelfRef => seq![TokenModel::Sym('%')],
        Expr::Negate(x) => seq![TokenModel::Sym('-')] + expr_tokens(*x),
        Expr::Factorial(x, n) => expr_tokens(*x) + bang_tokens(n as nat),
        Expr::BinOp(l, op, r) => seq![TokenModel::Sym('(')] + expr_tokens(*l) + seq![TokenModel::Sym(op_symbol(op))]
            + expr_tokens(*r) + seq![TokenModel::Sym(')')],
    }
}

/// Whether an expression's text may end at `j`: at the end, or before a
/// space, `)`, `!` or `;`.
pub open spec fn ends_expr(s: Seq<char>, j: int) -> bool {
    j == s.len() || (0 <= j < s.len() && (s[j] == ' ' || s[j] == ')' || s[j] == '!' || s[j] == ';'))
}

proof fn lemma_lex_bangs(s: Seq<char>, p: int, k: nat, dlit: spec_fn(Seq<char>) -> u64)
    requires
        0 <= p,
        p + k <= s.len(),
        forall|j: int| p <= j < p + k ==> #[trigger] s[j] == '!',
    ensures
        lex_from(s, p, dlit) == lexed_then(bang_tokens(k), lex_from(s, p + k, dlit)),
    decreases k,
{
    let rest = lex_from(s, p + k, dlit);
    if k == 0 {
        if let Some(x) = rest {
            assert(bang_tokens(0) + x =~= x);
        }
    } else {
        assert(s[p] == '!');
        lemma_lex_symbol(s, p, dlit);
        lemma_lex_bangs(s, p + 1, (k - 1) as nat, dlit);
        lemma_lexed_then_assoc(seq![TokenModel::Sym('!')], bang_tokens((k - 1) as nat), rest);
        assert(seq![TokenModel::Sym('!')] + bang_tokens((k - 1) as nat) =~= bang_tokens(k));
    }
}

proof fn lemma_lex_number(s: Seq<char>, i: int, n: i64, dlit: spec_fn(Seq<char>) -> u64)
    requires
        n >= 0,
        text_at(s, i, nat_text(n as nat)),
        ends_expr(s, i + nat_text(n as nat).len()),
    ensures
        lex_from(s, i, dlit) == lexed_then(seq![TokenModel::Int(n)], lex_from(s, i + nat_text(n as nat).len(), dlit)),
{
    let w = nat_text(n as nat);
    let m = w.len() as int;
    lemma_nat_text(n as nat);
    assert forall|j: int| i <= j < i + m implies in_class(DIGITS as int, #[trigger] s[j]) by {
        lemma_char_at(s, i, w, j - i);
    }
    lemma_run_end_at(s, i, i + m, DIGITS as int);
    lemma_char_at(s, i, w, 0);
    assert(s.subrange(i, i + m) == w);
    assert(scan_token(s, i, dlit) == Some((TokenModel::Int(n), i + m)));
    lemma_lex_word(s, i, TokenModel::Int(n), i + m, dlit);
}

proof fn lemma_lex_decimal(s: Seq<char>, i: int, w: Seq<char>, d: u64, dlit: spec_fn(Seq<char>) -> u64)
    requires
        is_decimal_literal(w),
        dlit(w) == d,
        text_at(s, i, w),
        ends_expr(s, i + w.len()),
    ensures
        lex_from(s, i, dlit) == lexed_then(seq![TokenModel::Dec(d)], lex_from(s, i + w.len(), dlit)),
{
    let m = w.len() as int;
    let k = run_end(w, 0, DIGITS as int);
    lemma_run_end_bounds(w, 0, DIGITS as int);
    lemma_run_end_bounds(w, k + 1, DIGITS as int);
    assert forall|j: int| i <= j < i + k implies in_class(DIGITS as int, #[trigger] s[j]) by {
        lemma_char_at(s, i, w, j - i);
    }
    lemma_char_at(s, i, w, k);
    lemma_run_end_at(s, i, i + k, DIGITS as int);
    assert forall|j: int| i + k + 1 <= j < i + m implies in_class(DIGITS as int, #[trigger] s[j]) by {
        lemma_char_at(s, i, w, j - i);
    }
    lemma_run_end_at(s, i + k + 1, i + m, DIGITS as int);
    lemma_char_at(s, i, w, k + 1);
    lemma_char_at(s, i, w, 0);
    assert(s.subrange(i, i + m) == w);
    assert(scan_token(s, i, dlit) == Some((TokenModel::Dec(d), i + m)));
    lemma_lex_word(s, i, TokenModel::Dec(d), i + m, dlit);
}

proof fn lemma_lex_bool(s: Seq<char>, i: int, b: bool, dlit: spec_fn(Seq<char>) -> u64)
    requires
        text_at(s, i, bool_text(b)),
        ends_expr(s, i + bool_text(b).len()),
    ensures
        lex_from(s, i, dlit) == lexed_then(
            seq![if b { TokenModel::True } else { TokenModel::False }],
            lex_from(s, i + bool_text(b).len(), dlit),
        ),
{
    let w = bool_text(b);
    let m = w.len() as int;
    assert forall|j: int| i <= j < i + m implies in_class(NAME_CHARS as int, #[trigger] s[j]) by {
        lemma_char_at(s, i, w, j - i);
    }
    lemma_run_end_at(s, i, i + m, NAME_CHARS as int);
    lemma_char_at(s, i, w, 0);
    let tok = if b { TokenModel::True } else { TokenModel::False };
    assert(scan_token(s, i, dlit) == Some((tok, i + m)));
    lemma_lex_word(s, i, tok, i + m, dlit);
}

/// The text between double quotes.
pub open spec fn quoted(t: Seq<char>) -> Seq<char> {
    seq!['"'] + t + seq!['"']
}

proof fn lemma_lex_text(s: Seq<char>, i: int, t: Seq<char>, dlit: spec_fn(Seq<char>) -> u64)
    requires
        !t.contains('"'),
        text_at(s, i, quoted(t)),
    ensures
        lex_from(s, i, dlit) == lexed_then(seq![TokenModel::Str(t)], lex_from(s, i + t.len() + 2, dlit)),
{
    let w = quoted(t);
    let n = t.len() as int;
    assert forall|j: int| i + 1 <= j < i + 1 + n implies in_class(TEXT_CHARS as int, #[trigger] s[j]) by {
        lemma_char_at(s, i, w, j - i);
        assert(t[j - i - 1] != '"');
    }
    lemma_char_at(s, i, w, 1 + n);
    lemma_run_end_at(s, i + 1, i + 1 + n, TEXT_CHARS as int);
    lemma_char_at(s, i, w, 0);
    lemma_text_at_sub(s, i, w, 1, 1 + n);
    assert(w.subrange(1, 1 + n) =~= t);
    assert(scan_token(s, i, dlit) == Some((TokenModel::Str(t), i + n + 2)));
    lemma_lex_word(s, i, TokenModel::Str(t), i + n + 2, dlit);
}

#[verifier::spinoff_prover]
proof fn lemma_lex_binop(
    s: Seq<char>,
    i: int,
    l: Expr,
    op: Op,
    r: Expr,
    dtext: spec_fn(u64) -> Seq<char>,
    dlit: spec_fn(Seq<char>) -> u64,
)
    requires
        prints_back(l, dtext, dlit),
        prints_back(r, dtext, dlit),
        text_at(s, i, expr_text(Expr::BinOp(Box::new(l), op, Box::new(r)), dtext)),
    ensures
        lex_from(s, i, dlit) == lexed_then(
            expr_tokens(Expr::BinOp(Box::new(l), op, Box::new(r))),
            lex_from(s, i + expr_text(Expr::BinOp(Box::new(l), op, Box::new(r)), dtext).len(), dlit),
        ),
    decreases Expr::BinOp(Box::new(l), op, Box::new(r)), 0int,
{
    let e = Expr::BinOp(Box::new(l), op, Box::new(r));
    let w = expr_text(e, dtext);
    let m = w.len() as int;
    let rest = lex_from(s, i + m, dlit);
    let tl = expr_text(l, dtext);
    let tr = expr_text(r, dtext);
    let a = i + 1;
    let b = a + tl.len() as int;
    let c = b + 3;
    let d = c + tr.len() as int;
    assert(d + 1 == i + m);
    lemma_char_at(s, i, w, 0);
    lemma_lex_symbol(s, i, dlit);
    lemma_text_at_sub(s, i, w, 1, 1 + tl.len() as int);
    assert(w.subrange(1, 1 + tl.len() as int) =~= tl);
    lemma_char_at(s, i, w, b - i);
    lemma_lex_expr(s, a, l, dtext, dlit);
    lemma_lex_blank(s, b, dlit);
    lemma_char_at(s, i, w, b + 1 - i);
    lemma_lex_symbol(s, b + 1, dlit);
    lemma_char_at(s, i, w, b + 2 - i);
    lemma_lex_blank(s, b + 2, dlit);
    lemma_text_at_sub(s, i, w, c - i, d - i);
    assert(w.subrange(c - i, d - i) =~= tr);
    lemma_char_at(s, i, w, d - i);
    lemma_lex_expr(s, c, r, dtext, dlit);
    lemma_lex_symbol(s, d, dlit);
    let tks_l = expr_tokens(l);
    let tks_r = expr_tokens(r);
    let close = seq![TokenModel::Sym(')')];
    let opt = seq![TokenModel::Sym(op_symbol(op))];
    lemma_lexed_then_assoc(tks_r, close, rest);
    lemma_lexed_then_assoc(opt, tks_r + close, rest);
    lemma_lexed_then_assoc(tks_l, opt + (tks_r + close), rest);
    lemma_lexed_then_assoc(seq![TokenModel::Sym('(')], tks_l + (opt + (tks_r + close)), rest);
    assert(seq![TokenModel::Sym('(')] + (tks_l + (opt + (tks_r + close))) =~= expr_tokens(e));
}

/// The text of an expression that prints back lexes to its words.
proof fn lemma_lex_expr(s: Seq<char>, i: int, e: Expr, dtext: spec_fn(u64) -> Seq<char>, dlit: spec_fn(Seq<char>) -> u64)
    requires
        prints_back(e, dtext, dlit),
        text_at(s, i, expr_text(e, dtext)),
        ends_expr(s, i + expr_text(e, dtext).len()),
    ensures
        lex_from(s, i, dlit) == lexed_then(expr_tokens(e), lex_from(s, i + expr_text(e, dtext).len(), dlit)),
    decreases e, 1int,
{
    let w = expr_text(e, dtext);
    let m = w.len() as int;
    let rest = lex_from(s, i + m, dlit);
    match e {
        Expr::Number(n) => {
            lemma_lex_number(s, i, n, dlit);
        },
        Expr::Decimal(d) => {
            lemma_lex_decimal(s, i, w, d, dlit);
        },
        Expr::Bool(b) => {
            assert(w == bool_text(b));
            lemma_lex_bool(s, i, b, dlit);
        },
        Expr::Text(t) => {
            assert(w == quoted(t@));
            lemma_lex_text(s, i, t@, dlit);
        },
        Expr::Ident(n) => {
            lemma_lex_name(s, i, n@, dlit);
        },
        Expr::SelfRef => {
            lemma_char_at(s, i, w, 0);
            lemma_lex_symbol(s, i, dlit);
        },
        Expr::Negate(x) => {
            let tx = expr_text(*x, dtext);
            lemma_char_at(s, i, w, 0);
            lemma_lex_symbol(s, i, dlit);
            lemma_text_at_sub(s, i, w, 1, m);
            assert(w.subrange(1, m) =~= tx);
            lemma_lex_expr(s, i + 1, *x, dtext, dlit);
            lemma_lexed_then_assoc(seq![TokenModel::Sym('-')], expr_tokens(*x), rest);
        },
        Expr::Factorial(x, n) => {
            let tx = expr_text(*x, dtext);
            let p = i + tx.len() as int;
            lemma_text_at_sub(s, i, w, 0, tx.len() as int);
            assert(w.subrange(0, tx.len() as int) =~= tx);
            lemma_char_at(s, i, w, tx.len() as int);
            lemma_lex_expr(s, i, *x, dtext, dlit);
            assert forall|j: int| p <= j < p + n implies #[trigger] s[j] == '!' by {
                lemma_char_at(s, i, w, j - i);
            }
            lemma_lex_bangs(s, p, n as nat, dlit);
            lemma_lexed_then_assoc(expr_tokens(*x), bang_tokens(n as nat), rest);
        },
        Expr::BinOp(l, op, r) => {
            lemma_lex_binop(s, i, *l, op, *r, dtext, dlit);
        },
    }
}

/// Whether the words `w` stand in `t` from `i` on.
pub open spec fn tokens_at(t: Seq<TokenModel>, i: int, w: Seq<TokenModel>) -> bool {
    0 <= i && i + w.len() <= t.len() && t.subrange(i, i + w.len()) == w
}

proof fn lemma_token_at(t: Seq<TokenModel>, i: int, w: Seq<TokenModel>, a: int)
    requires
        tokens_at(t, i, w),
        0 <= a < w.len(),
    ensures
        t[i + a] == w[a],
{
    assert(t.subrange(i, i + w.len())[a] == t[i + a]);
}

proof fn lemma_tokens_at_sub(t: Seq<TokenModel>, i: int, w: Seq<TokenModel>, a: int, b: int)
    requires
        tokens_at(t, i, w),
        0 <= a <= b <= w.len(),
    ensures
        tokens_at(t, i + a, w.subrange(a, b)),
{
    assert(t.subrange(i + a, i + b) =~= w.subrange(a, b)) by {
        assert forall|k: int| 0 <= k < b - a implies t.subrange(i + a, i + b)[k] == w.subrange(a, b)[k] by {
            lemma_token_at(t, i, w, a + k);
        }
    }
}

proof fn lemma_bang_count(t: Seq<TokenModel>, j: int, n: nat)
    requires
        0 <= j,
        j + n <= t.len(),
        forall|k: int| j <= k < j + n ==> #[trigger] t[k] == TokenModel::Sym('!'),
        !sym_at(t, j + n, '!'),
    ensures
        bang_count(t, j) == n,
    decreases n,
{
    if n > 0 {
        lemma_bang_count(t, j + 1, (n - 1) as nat);
    }
}

/// The words of an operation between parentheses, from inside the opening
/// one up to the closing one, make a sum that is that operation.
#[verifier::spinoff_prover]
proof fn lemma_p_inner(t: Seq<TokenModel>, a: int, j: int, k: int, lm: ExprModel, op: Op, rm: ExprModel)
    requires
        0 <= a < j,
        j + 1 < k < t.len(),
        p_prefix(t, a) == Some((lm, j)),
        p_prefix(t, j + 1) == Some((rm, k)),
        t[j] == TokenModel::Sym(op_symbol(op)),
        t[k] == TokenModel::Sym(')'),
    ensures
        p_sum(t, a) == Some((ExprModel::BinOp(Box::new(lm), op, Box::new(rm)), k)),
{
    let bin = ExprModel::BinOp(Box::new(lm), op, Box::new(rm));
    assert(p_power(t, j + 1) == Some((rm, k)));
    assert(p_product_rest(t, k, rm) == Some((rm, k)));
    assert(p_product(t, j + 1) == Some((rm, k)));
    assert(p_product_rest(t, k, bin) == Some((bin, k)));
    assert(p_sum_rest(t, k, bin) == Some((bin, k)));
    match op {
        Op::Pow => {
            assert(p_power(t, a) == Some((bin, k)));
            assert(p_product(t, a) == Some((bin, k)));
        },
        Op::Mul | Op::Div | Op::Mod => {
            assert(p_power(t, a) == Some((lm, j)));
            assert(product_op(t[j]) == Some(op));
            assert(p_product_rest(t, j, lm) == Some((bin, k)));
            assert(p_product(t, a) == Some((bin, k)));
        },
        Op::Add | Op::Sub => {
            assert(p_power(t, a) == Some((lm, j)));
            assert(product_op(t[j]) is None);
            assert(p_product_rest(t, j, lm) == Some((lm, j)));
            assert(p_product(t, a) == Some((lm, j)));
            assert(sum_op(t[j]) == Some(op));
            assert(p_sum_rest(t, j, lm) == Some((bin, k)));
        },
    }
}

#[verifier::spinoff_prover]
proof fn lemma_p_paren(
    t: Seq<TokenModel>,
    i: int,
    l: Expr,
    op: Op,
    r: Expr,
    dtext: spec_fn(u64) -> Seq<char>,
    dlit: spec_fn(Seq<char>) -> u64,
)
    requires
        prints_back(l, dtext, dlit),
        prints_back(r, dtext, dlit),
        tokens_at(t, i, expr_tokens(Expr::BinOp(Box::new(l), op, Box::new(r)))),
    ensures
        p_atom(t, i) == Some((
            Expr::BinOp(Box::new(l), op, Box::new(r))@,
            i + expr_tokens(Expr::BinOp(Box::new(l), op, Box::new(r))).len(),
        )),
    decreases Expr::BinOp(Box::new(l), op, Box::new(r)), 0int,
{
    let e = Expr::BinOp(Box::new(l), op, Box::new(r));
    let w = expr_tokens(e);
    let wl = expr_tokens(l);
    let wr = expr_tokens(r);
    let a = i + 1;
    let j = a + wl.len() as int;
    let k = j + 1 + wr.len() as int;
    assert(k + 1 == i + w.len());
    lemma_tokens_at_sub(t, i, w, 1, 1 + wl.len() as int);
    assert(w.subrange(1, 1 + wl.len() as int) =~= wl);
    lemma_tokens_at_sub(t, i, w, j + 1 - i, k - i);
    assert(w.subrange(j + 1 - i, k - i) =~= wr);
    lemma_token_at(t, i, w, 0);
    lemma_token_at(t, i, w, j - i);
    lemma_token_at(t, i, w, k - i);
    lemma_p_prefix(t, a, l, dtext, dlit);
    lemma_p_prefix(t, j + 1, r, dtext, dlit);
    lemma_p_inner(t, a, j, k, l@, op, r@);
}

/// An atomic expression that prints back parses from its words as an atom.
proof fn lemma_p_atom(t: Seq<TokenModel>, i: int, e: Expr, dtext: spec_fn(u64) -> Seq<char>, dlit: spec_fn(Seq<char>) -> u64)
    requires
        prints_back(e, dtext, dlit),
        is_atomic(e),
        tokens_at(t, i, expr_tokens(e)),
    ensures
        p_atom(t, i) == Some((e@, i + expr_tokens(e).len())),
    decreases e, 1int,
{
    lemma_token_at(t, i, expr_tokens(e), 0);
    match e {
        Expr::BinOp(l, op, r) => {
            lemma_p_paren(t, i, *l, op, *r, dtext, dlit);
        },
        _ => {},
    }
}

/// An expression that prints back parses from its words as a prefix
/// expression, where no `!` follows them.
proof fn lemma_p_prefix(t: Seq<TokenModel>, i: int, e: Expr, dtext: spec_fn(u64) -> Seq<char>, dlit: spec_fn(Seq<char>) -> u64)
    requires
        prints_back(e, dtext, dlit),
        tokens_at(t, i, expr_tokens(e)),
        !sym_at(t, i + expr_tokens(e).len(), '!'),
    ensures
        p_prefix(t, i) == Some((e@, i + expr_tokens(e).len())),
    decreases e, 2int,
{
    let w = expr_tokens(e);
    lemma_token_at(t, i, w, 0);
    match e {
        Expr::Negate(x) => {
            lemma_tokens_at_sub(t, i, w, 1, w.len() as int);
            assert(w.subrange(1, w.len() as int) =~= expr_tokens(*x));
            lemma_p_prefix(t, i + 1, *x, dtext, dlit);
        },
        Expr::Factorial(x, n) => {
            let wx = expr_tokens(*x);
            let j = i + wx.len();
            lemma_tokens_at_sub(t, i, w, 0, wx.len() as int);
            assert(w.subrange(0, wx.len() as int) =~= wx);
            lemma_token_at(t, i, wx, 0);
            lemma_p_atom(t, i, *x, dtext, dlit);
            assert forall|k: int| j <= k < j + n implies #[trigger] t[k] == TokenModel::Sym('!') by {
                lemma_token_at(t, i, w, k - i);
            }
            lemma_bang_count(t, j, n as nat);
            assert(p_postfix(t, i) == Some((e@, j + n)));
        },
        _ => {
            lemma_p_atom(t, i, e, dtext, dlit);
            lemma_bang_count(t, i + w.len(), 0);
            assert(p_postfix(t, i) == Some((e@, i + w.len())));
        },
    }
}

/// An expression that prints back parses from its words as a sum, where a
/// `)` or `;` follows them.
proof fn lemma_p_sum_closed(t: Seq<TokenModel>, i: int, e: Expr, dtext: spec_fn(u64) -> Seq<char>, dlit: spec_fn(Seq<char>) -> u64)
    requires
        prints_back(e, dtext, dlit),
        tokens_at(t, i, expr_tokens(e)),
        i + expr_tokens(e).len() < t.len(),
        t[i + expr_tokens(e).len()] == TokenModel::Sym(';') || t[i + expr_tokens(e).len()] == TokenModel::Sym(')'),
    ensures
        p_sum(t, i) == Some((e@, i + expr_tokens(e).len())),
{
    let j = i + expr_tokens(e).len();
    lemma_p_prefix(t, i, e, dtext, dlit);
    lemma_token_at(t, i, expr_tokens(e), 0);
    assert(p_power(t, i) == Some((e@, j)));
    assert(p_product_rest(t, j, e@) == Some((e@, j)));
    assert(p_product(t, i) == Some((e@, j)));
    assert(p_sum_rest(t, j, e@) == Some((e@, j)));
}

/// Whether a name may open a relationship: a plain name that is neither a
/// type's keyword nor `record` nor `insert`.
pub open spec fn is_relationship_name(n: Seq<char>) -> bool {
    &&& is_plain_name(n)
    &&& keyword_type(n) is None
    &&& n != word_record()
    &&& n != word_insert()
}

/// The statements that the text of a state is written from: its
/// definitions, then its relationships.
pub open spec fn schema_statements(defs: Seq<Assignment>, rels: Seq<(String, Expr)>) -> Seq<Statement> {
    defs.map_values(|a: Assignment| Statement::Assignment { typ: a.typ, name: a.name, expr: a.expr })
        + rels.map_values(|r: (String, Expr)| Statement::Relationship { name: r.0, expr: r.1 })
}

/// The line that writes out a definition or a relationship.
pub open spec fn statement_line(st: Statement, dtext: spec_fn(u64) -> Seq<char>) -> Seq<char> {
    match st {
        Statement::Assignment { typ, name, expr } => assignment_line(typ, name@, expr, dtext),
        Statement::Relationship { name, expr } => relationship_line(name@, expr, dtext),
        Statement::Insertion { .. } => Seq::empty(),
    }
}

/// Whether the line of a statement reads back as the statement.
pub open spec fn statement_prints_back(st: Statement, dtext: spec_fn(u64) -> Seq<char>, dlit: spec_fn(Seq<char>) -> u64) -> bool {
    match st {
        Statement::Assignment { typ: _, name, expr } => is_plain_name(name@) && prints_back(expr, dtext, dlit),
        Statement::Relationship { name, expr } => is_relationship_name(name@) && prints_back(expr, dtext, dlit),
        Statement::Insertion { .. } => false,
    }
}

/// The words of the line of a statement.
pub open spec fn statement_tokens(st: Statement) -> Seq<TokenModel> {
    match st {
        Statement::Assignment { typ, name, expr } => seq![
            TokenModel::Ident(type_keyword(typ)),
            TokenModel::Ident(name@),
            TokenModel::Sym('='),
        ] + expr_tokens(expr) + seq![TokenModel::Sym(';')],
        Statement::Relationship { name, expr } => seq![TokenModel::Ident(name@), TokenModel::Arrow] + expr_tokens(
            expr,
        ) + seq![TokenModel::Sym(';')],
        Statement::Insertion { .. } => Seq::empty(),
    }
}

/// The words of the lines of statements, one after the other.
pub open spec fn statements_tokens(stmts: Seq<Statement>) -> Seq<TokenModel>
    decreases stmts.len(),
{
    if stmts.len() == 0 {
        Seq::empty()
    } else {
        statement_tokens(stmts[0]) + statements_tokens(stmts.skip(1))
    }
}

proof fn lemma_type_keyword(t: Type)
    ensures
        is_plain_name(type_keyword(t)),
        keyword_type(type_keyword(t)) == Some(t),
{
    let n = type_keyword(Type::Number);
    let d = type_keyword(Type::Decimal);
    let b = type_keyword(Type::Bool);
    let x = type_keyword(Type::Text);
    assert(n[0] != d[0] && n[0] != b[0] && n[0] != x[0] && d[0] != b[0] && d[0] != x[0] && b[0] != x[0]);
    assert(n != seq!['t', 'r', 'u', 'e'] && x != seq!['t', 'r', 'u', 'e'] && x[1] != 'r');
}

#[verifier::spinoff_prover]
proof fn lemma_lex_definition(
    s: Seq<char>,
    i: int,
    typ: Type,
    name: Seq<char>,
    e: Expr,
    dtext: spec_fn(u64) -> Seq<char>,
    dlit: spec_fn(Seq<char>) -> u64,
)
    requires
        is_plain_name(name),
        prints_back(e, dtext, dlit),
        text_at(s, i, assignment_line(typ, name, e, dtext)),
    ensures
        lex_from(s, i, dlit) == lexed_then(
            seq![TokenModel::Ident(type_keyword(typ)), TokenModel::Ident(name), TokenModel::Sym('=')] + expr_tokens(e)
                + seq![TokenModel::Sym(';')],
            lex_from(s, i + assignment_line(typ, name, e, dtext).len(), dlit),
        ),
{
    let w = assignment_line(typ, name, e, dtext);
    let kw = type_keyword(typ);
    let te = expr_text(e, dtext);
    let rest = lex_from(s, i + w.len(), dlit);
    let p = i + kw.len() + 1;
    let q = p + name.len();
    let c = q + 3;
    let d = c + te.len();
    assert(d + 1 == i + w.len());
    lemma_type_keyword(typ);
    lemma_text_at_sub(s, i, w, 0, kw.len() as int);
    assert(w.subrange(0, kw.len() as int) =~= kw);
    lemma_char_at(s, i, w, kw.len() as int);
    lemma_lex_name(s, i, kw, dlit);
    lemma_lex_blank(s, p - 1, dlit);
    lemma_text_at_sub(s, i, w, p - i, q - i);
    assert(w.subrange(p - i, q - i) =~= name);
    lemma_char_at(s, i, w, q - i);
    lemma_lex_name(s, p, name, dlit);
    lemma_lex_blank(s, q, dlit);
    lemma_char_at(s, i, w, q + 1 - i);
    lemma_lex_symbol(s, q + 1, dlit);
    lemma_char_at(s, i, w, q + 2 - i);
    lemma_lex_blank(s, q + 2, dlit);
    lemma_text_at_sub(s, i, w, c - i, d - i);
    assert(w.subrange(c - i, d - i) =~= te);
    lemma_char_at(s, i, w, d - i);
    lemma_lex_expr(s, c, e, dtext, dlit);
    lemma_lex_symbol(s, d, dlit);
    let semi = seq![TokenModel::Sym(';')];
    let et = expr_tokens(e);
    lemma_lexed_then_assoc(et, semi, rest);
    lemma_lexed_then_assoc(seq![TokenModel::Sym('=')], et + semi, rest);
    lemma_lexed_then_assoc(seq![TokenModel::Ident(name)], seq![TokenModel::Sym('=')] + (et + semi), rest);
    lemma_lexed_then_assoc(
        seq![TokenModel::Ident(kw)],
        seq![TokenModel::Ident(name)] + (seq![TokenModel::Sym('=')] + (et + semi)),
        rest,
    );
    assert(seq![TokenModel::Ident(kw)] + (seq![TokenModel::Ident(name)] + (seq![TokenModel::Sym('=')] + (et + semi)))
        =~= seq![TokenModel::Ident(kw), TokenModel::Ident(name), TokenModel::Sym('=')] + et + semi);
}

#[verifier::spinoff_prover]
proof fn lemma_lex_relationship(
    s: Seq<char>,
    i: int,
    name: Seq<char>,
    e: Expr,
    dtext: spec_fn(u64) -> Seq<char>,
    dlit: spec_fn(Seq<char>) -> u64,
)
    requires
        is_plain_name(name),
        prints_back(e, dtext, dlit),
        text_at(s, i, relationship_line(name, e, dtext)),
    ensures
        lex_from(s, i, dlit) == lexed_then(
            seq![TokenModel::Ident(name), TokenModel::Arrow] + expr_tokens(e) + seq![TokenModel::Sym(';')],
            lex_from(s, i + relationship_line(name, e, dtext).len(), dlit),
        ),
{
    let w = relationship_line(name, e, dtext);
    let te = expr_text(e, dtext);
    let rest = lex_from(s, i + w.len(), dlit);
    let q = i + name.len();
    let c = q + 4;
    let d = c + te.len();
    assert(d + 1 == i + w.len());
    lemma_text_at_sub(s, i, w, 0, name.len() as int);
    assert(w.subrange(0, name.len() as int) =~= name);
    lemma_char_at(s, i, w, q - i);
    lemma_lex_name(s, i, name, dlit);
    lemma_lex_blank(s, q, dlit);
    lemma_char_at(s, i, w, q + 1 - i);
    lemma_char_at(s, i, w, q + 2 - i);
    assert(scan_token(s, q + 1, dlit) == Some((TokenModel::Arrow, q + 3)));
    lemma_lex_word(s, q + 1, TokenModel::Arrow, q + 3, dlit);
    lemma_char_at(s, i, w, q + 3 - i);
    lemma_lex_blank(s, q + 3, dlit);
    lemma_text_at_sub(s, i, w, c - i, d - i);
    assert(w.subrange(c - i, d - i) =~= te);
    lemma_char_at(s, i, w, d - i);
    lemma_lex_expr(s, c, e, dtext, dlit);
    lemma_lex_symbol(s, d, dlit);
    let semi = seq![TokenModel::Sym(';')];
    let et = expr_tokens(e);
    lemma_lexed_then_assoc(et, semi, rest);
    lemma_lexed_then_assoc(seq![TokenModel::Arrow], et + semi, rest);
    lemma_lexed_then_assoc(seq![TokenModel::Ident(name)], seq![TokenModel::Arrow] + (et + semi), rest);
    assert(seq![TokenModel::Ident(name)] + (seq![TokenModel::Arrow] + (et + semi)) =~= seq![
        TokenModel::Ident(name),
        TokenModel::Arrow,
    ] + et + semi);
}

proof fn lemma_lex_statement(s: Seq<char>, i: int, st: Statement, dtext: spec_fn(u64) -> Seq<char>, dlit: spec_fn(Seq<char>) -> u64)
    requires
        statement_prints_back(st, dtext, dlit),
        text_at(s, i, statement_line(st, dtext)),
    ensures
        lex_from(s, i, dlit) == lexed_then(statement_tokens(st), lex_from(s, i + statement_line(st, dtext).len(), dlit)),
{
    match st {
        Statement::Assignment { typ, name, expr } => lemma_lex_definition(s, i, typ, name@, expr, dtext, dlit),
        Statement::Relationship { name, expr } => lemma_lex_relationship(s, i, name@, expr, dtext, dlit),
        Statement::Insertion { .. } => {},
    }
}

proof fn lemma_p_definition_parts(t: Seq<TokenModel>, i: int, typ: Type, name: Seq<char>, em: ExprModel, j: int)
    requires
        name_at(t, i + 1) == Some(name),
        sym_at(t, i + 2, '='),
        p_sum(t, i + 3) == Some((em, j)),
        sym_at(t, j, ';'),
    ensures
        crate::parse::grammar::p_definition(t, i, typ) == Some((
            ItemModel::Stmt(StatementModel::Assignment { typ, name, expr: em }),
            j + 1,
        )),
{
}

proof fn lemma_p_item_definition(t: Seq<TokenModel>, i: int, typ: Type)
    requires
        name_at(t, i) == Some(type_keyword(typ)),
    ensures
        p_item(t, i) == crate::parse::grammar::p_definition(t, i, typ),
{
    lemma_type_keyword(typ);
}

#[verifier::spinoff_prover]
proof fn lemma_p_definition(
    t: Seq<TokenModel>,
    i: int,
    typ: Type,
    name: Seq<char>,
    e: Expr,
    dtext: spec_fn(u64) -> Seq<char>,
    dlit: spec_fn(Seq<char>) -> u64,
)
    requires
        prints_back(e, dtext, dlit),
        tokens_at(
            t,
            i,
            seq![TokenModel::Ident(type_keyword(typ)), TokenModel::Ident(name), TokenModel::Sym('=')] + expr_tokens(e)
                + seq![TokenModel::Sym(';')],
        ),
    ensures
        p_item(t, i) == Some((
            ItemModel::Stmt(StatementModel::Assignment { typ, name, expr: e@ }),
            i + expr_tokens(e).len() + 4,
        )),
{
    let et = expr_tokens(e);
    let w = seq![TokenModel::Ident(type_keyword(typ)), TokenModel::Ident(name), TokenModel::Sym('=')] + et + seq![
        TokenModel::Sym(';'),
    ];
    let j = i + 3 + et.len();
    lemma_token_at(t, i, w, 0);
    lemma_token_at(t, i, w, 1);
    lemma_token_at(t, i, w, 2);
    lemma_tokens_at_sub(t, i, w, 3, 3 + et.len() as int);
    assert(w.subrange(3, 3 + et.len() as int) =~= et);
    lemma_token_at(t, i, w, 3 + et.len() as int);
    lemma_p_sum_closed(t, i + 3, e, dtext, dlit);
    lemma_p_definition_parts(t, i, typ, name, e@, j);
    lemma_p_item_definition(t, i, typ);
}

proof fn lemma_p_item_relationship(t: Seq<TokenModel>, i: int, name: Seq<char>)
    requires
        is_relationship_name(name),
        name_at(t, i) == Some(name),
    ensures
        p_item(t, i) == crate::parse::grammar::p_relationship(t, i, name),
{
}

proof fn lemma_p_relationship_parts(t: Seq<TokenModel>, i: int, name: Seq<char>, em: ExprModel, j: int)
    requires
        0 <= i,
        i + 1 < t.len(),
        t[i + 1] == TokenModel::Arrow,
        p_sum(t, i + 2) == Some((em, j)),
        sym_at(t, j, ';'),
    ensures
        crate::parse::grammar::p_relationship(t, i, name) == Some((
            ItemModel::Stmt(StatementModel::Relationship { name, expr: em }),
            j + 1,
        )),
{
}

#[verifier::spinoff_prover]
proof fn lemma_p_relationship(
    t: Seq<TokenModel>,
    i: int,
    name: Seq<char>,
    e: Expr,
    dtext: spec_fn(u64) -> Seq<char>,
    dlit: spec_fn(Seq<char>) -> u64,
)
    requires
        prints_back(e, dtext, dlit),
        tokens_at(t, i, seq![TokenModel::Ident(name), TokenModel::Arrow] + expr_tokens(e) + seq![TokenModel::Sym(';')]),
    ensures
        crate::parse::grammar::p_relationship(t, i, name) == Some((
            ItemModel::Stmt(StatementModel::Relationship { name, expr: e@ }),
            i + expr_tokens(e).len() + 3,
        )),
{
    let et = expr_tokens(e);
    let w = seq![TokenModel::Ident(name), TokenModel::Arrow] + et + seq![TokenModel::Sym(';')];
    let j = i + 2 + et.len();
    lemma_token_at(t, i, w, 1);
    lemma_tokens_at_sub(t, i, w, 2, 2 + et.len() as int);
    assert(w.subrange(2, 2 + et.len() as int) =~= et);
    lemma_token_at(t, i, w, 2 + et.len() as int);
    lemma_p_sum_closed(t, i + 2, e, dtext, dlit);
    lemma_p_relationship_parts(t, i, name, e@, j);
}

/// The words of a statement that prints back parse as that statement.
#[verifier::spinoff_prover]
proof fn lemma_p_statement(t: Seq<TokenModel>, i: int, st: Statement, dtext: spec_fn(u64) -> Seq<char>, dlit: spec_fn(Seq<char>) -> u64)
    requires
        statement_prints_back(st, dtext, dlit),
        tokens_at(t, i, statement_tokens(st)),
    ensures
        p_item(t, i) == Some((ItemModel::Stmt(st@), i + statement_tokens(st).len())),
{
    match st {
        Statement::Assignment { typ, name, expr } => lemma_p_definition(t, i, typ, name@, expr, dtext, dlit),
        Statement::Relationship { name, expr } => {
            lemma_p_relationship(t, i, name@, expr, dtext, dlit);
            lemma_token_at(t, i, statement_tokens(st), 0);
            lemma_p_item_relationship(t, i, name@);
        },
        Statement::Insertion { .. } => {},
    }
}

/// The lines of statements.
pub open spec fn statement_lines(stmts: Seq<Statement>, dtext: spec_fn(u64) -> Seq<char>) -> Seq<Seq<char>> {
    stmts.map_values(|st: Statement| statement_line(st, dtext))
}

/// The statements as the parser gives them.
pub open spec fn statement_models(stmts: Seq<Statement>) -> Seq<StatementModel> {
    stmts.map_values(|st: Statement| st@)
}

/// Lines joined by line breaks, taken from the front.
proof fn lemma_join_lines_front(lines: Seq<Seq<char>>)
    requires
        lines.len() >= 2,
    ensures
        join_lines(lines) == lines[0] + seq!['\n'] + join_lines(lines.skip(1)),
    decreases lines.len(),
{
    let d = lines.drop_last();
    let k = lines.skip(1);
    assert(k.len() >= 1);
    if lines.len() == 2 {
        assert(join_lines(d) == d[0]);
        assert(join_lines(k) == k[0]);
    } else {
        lemma_join_lines_front(d);
        assert(d.skip(1) =~= k.drop_last());
        assert(join_lines(k) == join_lines(k.drop_last()) + seq!['\n'] + k.last());
        assert(join_lines(lines) =~= lines[0] + seq!['\n'] + join_lines(k));
    }
}

#[verifier::spinoff_prover]
proof fn lemma_lex_statements(s: Seq<char>, i: int, stmts: Seq<Statement>, dtext: spec_fn(u64) -> Seq<char>, dlit: spec_fn(Seq<char>) -> u64)
    requires
        forall|j: int| 0 <= j < stmts.len() ==> statement_prints_back(#[trigger] stmts[j], dtext, dlit),
        text_at(s, i, join_lines(statement_lines(stmts, dtext))),
        i + join_lines(statement_lines(stmts, dtext)).len() == s.len(),
    ensures
        lex_from(s, i, dlit) == Some(statements_tokens(stmts)),
    decreases stmts.len(),
{
    let lines = statement_lines(stmts, dtext);
    if stmts.len() == 0 {
        assert(lex_from(s, i, dlit) == Some(Seq::<TokenModel>::empty()));
    } else {
        let st = stmts[0];
        let l0 = statement_line(st, dtext);
        let rest = stmts.skip(1);
        assert(statement_prints_back(st, dtext, dlit));
        assert(lines[0] == l0);
        assert(lines.skip(1) =~= statement_lines(rest, dtext));
        if stmts.len() == 1 {
            assert(join_lines(lines) == l0);
            lemma_lex_statement(s, i, st, dtext, dlit);
            assert(lex_from(s, s.len() as int, dlit) == Some(Seq::<TokenModel>::empty()));
            assert(statements_tokens(rest) =~= Seq::<TokenModel>::empty());
            assert(statement_tokens(st) + Seq::<TokenModel>::empty() =~= statement_tokens(st));
        } else {
            let w = join_lines(lines);
            lemma_join_lines_front(lines);
            let p = i + l0.len();
            lemma_text_at_sub(s, i, w, 0, l0.len() as int);
            assert(w.subrange(0, l0.len() as int) =~= l0);
            lemma_lex_statement(s, i, st, dtext, dlit);
            lemma_char_at(s, i, w, l0.len() as int);
            lemma_lex_blank(s, p, dlit);
            lemma_text_at_sub(s, i, w, l0.len() as int + 1, w.len() as int);
            assert(w.subrange(l0.len() as int + 1, w.len() as int) =~= join_lines(statement_lines(rest, dtext)));
            assert forall|j: int| 0 <= j < rest.len() implies statement_prints_back(#[trigger] rest[j], dtext, dlit) by {
                assert(rest[j] == stmts[j + 1]);
            }
            lemma_lex_statements(s, p + 1, rest, dtext, dlit);
        }
    }
}

#[verifier::spinoff_prover]
proof fn lemma_p_statements(
    t: Seq<TokenModel>,
    i: int,
    stmts: Seq<Statement>,
    acc: ProgramModel,
    dtext: spec_fn(u64) -> Seq<char>,
    dlit: spec_fn(Seq<char>) -> u64,
)
    requires
        forall|j: int| 0 <= j < stmts.len() ==> statement_prints_back(#[trigger] stmts[j], dtext, dlit),
        tokens_at(t, i, statements_tokens(stmts)),
        i + statements_tokens(stmts).len() == t.len(),
    ensures
        p_program(t, i, acc) == Some(ProgramModel { slf: acc.slf + statement_models(stmts), rec: acc.rec }),
    decreases stmts.len(),
{
    if stmts.len() == 0 {
        assert(acc.slf + statement_models(stmts) =~= acc.slf);
    } else {
        let st = stmts[0];
        let w0 = statement_tokens(st);
        let all = statements_tokens(stmts);
        let rest = stmts.skip(1);
        assert(statement_prints_back(st, dtext, dlit));
        lemma_tokens_at_sub(t, i, all, 0, w0.len() as int);
        assert(all.subrange(0, w0.len() as int) =~= w0);
        lemma_p_statement(t, i, st, dtext, dlit);
        lemma_tokens_at_sub(t, i, all, w0.len() as int, all.len() as int);
        assert(all.subrange(w0.len() as int, all.len() as int) =~= statements_tokens(rest));
        assert forall|j: int| 0 <= j < rest.len() implies statement_prints_back(#[trigger] rest[j], dtext, dlit) by {
            assert(rest[j] == stmts[j + 1]);
        }
        let acc2 = ProgramModel { slf: acc.slf.push(st@), rec: acc.rec };
        lemma_p_statements(t, i + w0.len(), rest, acc2, dtext, dlit);
        assert(acc.slf.push(st@) + statement_models(rest) =~= acc.slf + statement_models(stmts));
    }
}

/// Whether the line of a definition reads back as it.
pub open spec fn def_prints_back(a: Assignment, dtext: spec_fn(u64) -> Seq<char>, dlit: spec_fn(Seq<char>) -> u64) -> bool {
    is_plain_name(a.name@) && prints_back(a.expr, dtext, dlit)
}

/// Whether the line of a relationship reads back as it.
pub open spec fn rel_prints_back(r: (String, Expr), dtext: spec_fn(u64) -> Seq<char>, dlit: spec_fn(Seq<char>) -> u64) -> bool {
    is_relationship_name(r.0@) && prints_back(r.1, dtext, dlit)
}

/// The text of a state's schema (see `crate::schema_text`) parses back to
/// its definitions followed by its relationships, and no record definition,
/// where each of them is written in a form that reads back (see
/// `prints_back`): with decimals printed by `dtext` and read by `dlit`.
pub proof fn lemma_schema_text_reads_back(
    defs: Seq<Assignment>,
    rels: Seq<(String, Expr)>,
    dtext: spec_fn(u64) -> Seq<char>,
    dlit: spec_fn(Seq<char>) -> u64,
)
    requires
        forall|j: int| 0 <= j < defs.len() ==> def_prints_back(#[trigger] defs[j], dtext, dlit),
        forall|j: int| 0 <= j < rels.len() ==> rel_prints_back(#[trigger] rels[j], dtext, dlit),
    ensures
        spec_parse_program(join_lines(schema_lines(defs, rels, dtext)), dlit) == Some(ProgramModel {
            slf: statement_models(schema_statements(defs, rels)),
            rec: Seq::empty(),
        }),
{
    let stmts = schema_statements(defs, rels);
    let nd = defs.len() as int;
    assert forall|j: int| 0 <= j < stmts.len() implies statement_prints_back(#[trigger] stmts[j], dtext, dlit) by {
        if j < nd {
            assert(def_prints_back(defs[j], dtext, dlit));
        } else {
            assert(rel_prints_back(rels[j - nd], dtext, dlit));
        }
    }
    assert(schema_lines(defs, rels, dtext) =~= statement_lines(stmts, dtext));
    let s = join_lines(schema_lines(defs, rels, dtext));
    assert(s.subrange(0, s.len() as int) =~= s);
    lemma_lex_statements(s, 0, stmts, dtext, dlit);
    let t = statements_tokens(stmts);
    assert(t.subrange(0, t.len() as int) =~= t);
    let acc = ProgramModel { slf: Seq::empty(), rec: Seq::empty() };
    lemma_p_statements(t, 0, stmts, acc, dtext, dlit);
    assert(acc.slf + statement_models(stmts) =~= statement_models(stmts));
}

} // verus!
