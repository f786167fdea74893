//! The words of the schema language. Between words any amount of blank
//! space (space, tab, line breaks) may stand.
use vstd::prelude::*;

use crate::error::GravityError;
use crate::text::push_char;

verus! {

/// A word of the language, with its text as characters.
pub ghost enum TokenModel {
    Int(i64),
    Dec(u64),
    Str(Seq<char>),
    Ident(Seq<char>),
    True,
    False,
    Sym(char),
    Arrow,
}

/// A word of the language.
#[derive(Debug, PartialEq)]
pub enum Token {
    Int(i64),
    Dec(u64),
    Str(String),
    Ident(String),
    True,
    False,
    Sym(char),
    Arrow,
}

impl View for Token {
    type V = TokenModel;

    open spec fn view(&self) -> TokenModel {
        match self {
            Token::Int(n) => TokenModel::Int(*n),
            Token::Dec(d) => TokenModel::Dec(*d),
            Token::Str(s) => TokenModel::Str(s@),
            Token::Ident(s) => TokenModel::Ident(s@),
            Token::True => TokenModel::True,
            Token::False => TokenModel::False,
            Token::Sym(c) => TokenModel::Sym(*c),
            Token::Arrow => TokenModel::Arrow,
        }
    }
}

/// The models of a sequence of words.
pub open spec fn tokens_model(t: Seq<Token>) -> Seq<TokenModel> {
    t.map_values(|x: Token| x@)
}

pub open spec fn is_blank(c: char) -> bool {
    c == ' ' || c == '\t' || c == '\n' || c == '\r'
}

pub open spec fn is_digit(c: char) -> bool {
    '0' <= c <= '9'
}

pub open spec fn is_ident_start(c: char) -> bool {
    ('a' <= c <= 'z') || ('A' <= c <= 'Z') || c == '_'
}

pub open spec fn is_ident_char(c: char) -> bool {
    is_ident_start(c) || is_digit(c)
}

/// The characters that stand as words of their own.
pub open spec fn is_symbol(c: char) -> bool {
    c == '(' || c == ')' || c == '+' || c == '-' || c == '*' || c == '/' || c == '&' || c == '^' || c == '!'
        || c == '=' || c == ';' || c == '{' || c == '}' || c == ',' || c == '%'
}

/// The classes of characters that make up runs: characters of names,
/// digits, and the characters of a text (all but the double quote).
pub open spec fn in_class(class: int, c: char) -> bool {
    if class == NAME_CHARS {
        is_ident_char(c)
    } else if class == DIGITS {
        is_digit(c)
    } else {
        c != '"'
    }
}

pub const NAME_CHARS: u8 = 0;

pub const DIGITS: u8 = 1;

pub const TEXT_CHARS: u8 = 2;

/// The end of the run of characters of class `class` from `i` on.
pub open spec fn run_end(s: Seq<char>, i: int, class: int) -> int
    decreases s.len() - i,
{
    if 0 <= i < s.len() && in_class(class, s[i]) {
        run_end(s, i + 1, class)
    } else {
        i
    }
}

/// The value of a string of decimal digits.
pub open spec fn digits_value(ds: Seq<char>) -> int
    decreases ds.len(),
{
    if ds.len() == 0 {
        0
    } else {
        digits_value(ds.drop_last()) * 10 + (ds.last() as int - '0' as int)
    }
}

/// The word that starts at `i` and where it ends, or `None` where no word
/// starts there. A run of letters, digits and `_` starting with a letter or
/// `_` is a name (`true` and `false` are the booleans); digits, a point and
/// digits make a decimal, whose value is `dlit` of its text; digits alone
/// make a whole number, which must fit in `i64`; text stands between double
/// quotes; `<-` is the arrow.
pub open spec fn scan_token(s: Seq<char>, i: int, dlit: spec_fn(Seq<char>) -> u64) -> Option<(TokenModel, int)> {
    let c = s[i];
    if is_ident_start(c) {
        let e = run_end(s, i, NAME_CHARS as int);
        let w = s.subrange(i, e);
        if w == seq!['t', 'r', 'u', 'e'] {
            Some((TokenModel::True, e))
        } else if w == seq!['f', 'a', 'l', 's', 'e'] {
            Some((TokenModel::False, e))
        } else {
            Some((TokenModel::Ident(w), e))
        }
    } else if is_digit(c) {
        let e1 = run_end(s, i, DIGITS as int);
        if e1 + 1 < s.len() && s[e1] == '.' && is_digit(s[e1 + 1]) {
            let e2 = run_end(s, e1 + 1, DIGITS as int);
            Some((TokenModel::Dec(dlit(s.subrange(i, e2))), e2))
        } else {
            let v = digits_value(s.subrange(i, e1));
            if v <= i64::MAX {
                Some((TokenModel::Int(v as i64), e1))
            } else {
                None
            }
        }
    } else if c == '"' {
        let e = run_end(s, i + 1, TEXT_CHARS as int);
        if e < s.len() {
            Some((TokenModel::Str(s.subrange(i + 1, e)), e + 1))
        } else {
            None
        }
    } else if c == '<' {
        if i + 1 < s.len() && s[i + 1] == '-' {
            Some((TokenModel::Arrow, i + 2))
        } else {
            None
        }
    } else if is_symbol(c) {
        Some((TokenModel::Sym(c), i + 1))
    } else {
        None
    }
}

proof fn lemma_run_end(s: Seq<char>, i: int, class: int)
    requires
        0 <= i <= s.len(),
    ensures
        i <= run_end(s, i, class) <= s.len(),
        forall|j: int| i <= j < run_end(s, i, class) ==> in_class(class, #[trigger] s[j]),
        run_end(s, i, class) < s.len() ==> !in_class(class, s[run_end(s, i, class)]),
    decreases s.len() - i,
{
    if i < s.len() && in_class(class, s[i]) {
        lemma_run_end(s, i + 1, class);
    }
}

/// The words of `s` from `i` on, or `None` where some character starts no word.
pub open spec fn lex_from(s: Seq<char>, i: int, dlit: spec_fn(Seq<char>) -> u64) -> Option<Seq<TokenModel>>
    decreases s.len() - i,
{
    if i < 0 || i >= s.len() {
        Some(Seq::empty())
    } else if is_blank(s[i]) {
        lex_from(s, i + 1, dlit)
    } else {
        match scan_token(s, i, dlit) {
            Some((tok, j)) => if i < j <= s.len() {
                match lex_from(s, j, dlit) {
                    Some(rest) => Some(seq![tok] + rest),
                    None => None,
                }
            } else {
                None
            },
            None => None,
        }
    }
}

/// The words of a text.
pub open spec fn spec_lex(s: Seq<char>, dlit: spec_fn(Seq<char>) -> u64) -> Option<Seq<TokenModel>> {
    lex_from(s, 0, dlit)
}

/// Reading of decimal literals (digits, a point, digits) into IEEE-754
/// doubles is supplied by the caller as a function from the literal's text
/// to the bits of the double. It must accept every input and give one
/// result for each text.
pub open spec fn decimal_reader<L: Fn(String) -> u64>(l: L) -> bool {
    &&& forall|x: String| #[trigger] call_requires(l, (x,))
    &&& forall|x1: String, x2: String, b1: u64, b2: u64|
        #![trigger call_ensures(l, (x1,), b1), call_ensures(l, (x2,), b2)]
        x1@ == x2@ && call_ensures(l, (x1,), b1) && call_ensures(l, (x2,), b2) ==> b1 == b2
}

/// Whether the reader can give `b` for the text `t`.
pub open spec fn reads_as<L: Fn(String) -> u64>(l: L, t: Seq<char>, b: u64) -> bool {
    exists|x: String| x@ == t && #[trigger] call_ensures(l, (x,), b)
}

/// The double that a decimal reader gives for each text.
pub open spec fn decimal_reading<L: Fn(String) -> u64>(l: L) -> spec_fn(Seq<char>) -> u64 {
    |t: Seq<char>| choose|b: u64| reads_as(l, t, b)
}

fn in_class_exec(class: u8, c: char) -> (r: bool)
    ensures
        r == in_class(class as int, c),
{
    if class == NAME_CHARS {
        ('a' <= c && c <= 'z') || ('A' <= c && c <= 'Z') || c == '_' || ('0' <= c && c <= '9')
    } else if class == DIGITS {
        '0' <= c && c <= '9'
    } else {
        c != '"'
    }
}

fn run_end_exec(s: &Vec<char>, i: usize, class: u8) -> (e: usize)
    requires
        i <= s.len(),
    ensures
        e == run_end(s@, i as int, class as int),
        i <= e <= s.len(),
{
    let mut e = i;
    while e < s.len() && in_class_exec(class, s[e])
        invariant
            i <= e <= s.len(),
            run_end(s@, i as int, class as int) == run_end(s@, e as int, class as int),
        decreases s.len() - e,
    {
        e = e + 1;
    }
    e
}

fn chars_to_string(s: &Vec<char>, from: usize, to: usize) -> (r: String)
    requires
        from <= to <= s.len(),
    ensures
        r@ == s@.subrange(from as int, to as int),
{
    let mut r = String::new();
    let mut k = from;
    while k < to
        invariant
            from <= k <= to,
            to <= s.len(),
            r@ == s@.subrange(from as int, k as int),
        decreases to - k,
    {
        push_char(&mut r, s[k]);
        assert(s@.subrange(from as int, k + 1) =~= s@.subrange(from as int, k as int).push(s@[k as int]));
        k = k + 1;
    }
    r
}

fn digits_value_exec(s: &Vec<char>, from: usize, to: usize) -> (r: Option<i64>)
    requires
        from <= to <= s.len(),
        forall|j: int| from <= j < to ==> is_digit(#[trigger] s@[j]),
    ensures
        r matches Some(v) ==> v as int == digits_value(s@.subrange(from as int, to as int)),
        r is None ==> digits_value(s@.subrange(from as int, to as int)) > i64::MAX,
{
    let mut acc: i64 = 0;
    let mut k = from;
    while k < to
        invariant
            from <= k <= to,
            to <= s.len(),
            forall|j: int| from <= j < to ==> is_digit(#[trigger] s@[j]),
            acc >= 0,
            acc as int == digits_value(s@.subrange(from as int, k as int)),
        decreases to - k,
    {
        let d = (s[k] as u32 - '0' as u32) as i64;
        proof {
            let sub = s@.subrange(from as int, k + 1);
            assert(sub.drop_last() =~= s@.subrange(from as int, k as int));
            assert(is_digit(s@[k as int]));
        }
        match acc.checked_mul(10) {
            Some(a10) => match a10.checked_add(d) {
                Some(v) => {
                    acc = v;
                },
                None => {
                    proof {
                        lemma_digits_value_grows(s@.subrange(from as int, to as int), (k + 1 - from) as int);
                        assert(s@.subrange(from as int, to as int).take((k + 1 - from) as int) =~= s@.subrange(from as int, k + 1));
                    }
                    return None;
                },
            },
            None => {
                proof {
                    lemma_digits_value_grows(s@.subrange(from as int, to as int), (k + 1 - from) as int);
                    assert(s@.subrange(from as int, to as int).take((k + 1 - from) as int) =~= s@.subrange(from as int, k + 1));
                }
                return None;
            },
        }
        k = k + 1;
    }
    Some(acc)
}

proof fn lemma_digits_value_grows(ds: Seq<char>, n: int)
    requires
        0 <= n <= ds.len(),
        forall|j: int| 0 <= j < ds.len() ==> is_digit(#[trigger] ds[j]),
    ensures
        digits_value(ds) >= digits_value(ds.take(n)),
        digits_value(ds.take(n)) >= 0,
    decreases ds.len(),
{
    if n < ds.len() {
        lemma_digits_value_grows(ds.drop_last(), n);
        assert(ds.drop_last().take(n) =~= ds.take(n));
        assert(is_digit(ds.last()));
        lemma_digits_value_grows(ds.drop_last(), ds.len() - 1);
        assert(ds.drop_last().take(ds.len() - 1) =~= ds.drop_last());
    } else {
        assert(ds.take(n) =~= ds);
        if ds.len() > 0 {
            lemma_digits_value_grows(ds.drop_last(), ds.len() - 1);
            assert(ds.drop_last().take(ds.len() - 1) =~= ds.drop_last());
            assert(is_digit(ds.last()));
        }
    }
}


fn read_decimal<L: Fn(String) -> u64>(dlit: &L, text: String) -> (b: u64)
    requires
        decimal_reader(*dlit),
    ensures
        b == decimal_reading(*dlit)(text@),
{
    let ghost t = text@;
    let b = dlit(text);
    proof {
        assert(reads_as(*dlit, t, b));
        let c = choose|c: u64| reads_as(*dlit, t, c);
        assert(reads_as(*dlit, t, c));
        let x = choose|x: String| x@ == t && #[trigger] call_ensures(*dlit, (x,), c);
        let y = choose|y: String| y@ == t && #[trigger] call_ensures(*dlit, (y,), b);
        assert(call_ensures(*dlit, (x,), c) && call_ensures(*dlit, (y,), b));
    }
    b
}

fn scan_token_exec<L: Fn(String) -> u64>(s: &Vec<char>, i: usize, dlit: &L) -> (r: Option<(Token, usize)>)
    requires
        decimal_reader(*dlit),
        i < s.len(),
    ensures
        match r {
            Some((t, j)) => scan_token(s@, i as int, decimal_reading(*dlit)) == Some((t@, j as int)),
            None => scan_token(s@, i as int, decimal_reading(*dlit)) is None,
        },
{
    let c = s[i];
    if ('a' <= c && c <= 'z') || ('A' <= c && c <= 'Z') || c == '_' {
        let e = run_end_exec(s, i, NAME_CHARS);
        let w = chars_to_string(s, i, e);
        proof {
            lemma_run_end(s@, i as int, NAME_CHARS as int);
        }
        let n = e - i;
        if n == 4 && s[i] == 't' && s[i + 1] == 'r' && s[i + 2] == 'u' && s[i + 3] == 'e' {
            assert(w@ =~= seq!['t', 'r', 'u', 'e']);
            Some((Token::True, e))
        } else if n == 5 && s[i] == 'f' && s[i + 1] == 'a' && s[i + 2] == 'l' && s[i + 3] == 's' && s[i + 4] == 'e' {
            assert(w@ =~= seq!['f', 'a', 'l', 's', 'e']);
            Some((Token::False, e))
        } else {
            proof {
                if w@ == seq!['t', 'r', 'u', 'e'] {
                    assert(w@[0] == 't' && w@[1] == 'r' && w@[2] == 'u' && w@[3] == 'e');
                }
                if w@ == seq!['f', 'a', 'l', 's', 'e'] {
                    assert(w@[0] == 'f' && w@[1] == 'a' && w@[2] == 'l' && w@[3] == 's' && w@[4] == 'e');
                }
            }
            Some((Token::Ident(w), e))
        }
    } else if '0' <= c && c <= '9' {
        let e1 = run_end_exec(s, i, DIGITS);
        proof {
            lemma_run_end(s@, i as int, DIGITS as int);
        }
        if e1 < s.len() && s.len() - e1 > 1 && s[e1] == '.' && '0' <= s[e1 + 1] && s[e1 + 1] <= '9' {
            let e2 = run_end_exec(s, e1 + 1, DIGITS);
            let text = chars_to_string(s, i, e2);
            let b = read_decimal(dlit, text);
            Some((Token::Dec(b), e2))
        } else {
            match digits_value_exec(s, i, e1) {
                Some(v) => Some((Token::Int(v), e1)),
                None => None,
            }
        }
    } else if c == '"' {
        let e = run_end_exec(s, i + 1, TEXT_CHARS);
        if e < s.len() {
            let w = chars_to_string(s, i + 1, e);
            Some((Token::Str(w), e + 1))
        } else {
            None
        }
    } else if c == '<' {
        if i + 1 < s.len() && s[i + 1] == '-' {
            Some((Token::Arrow, i + 2))
        } else {
            None
        }
    } else if c == '(' || c == ')' || c == '+' || c == '-' || c == '*' || c == '/' || c == '&' || c == '^' || c == '!'
        || c == '=' || c == ';' || c == '{' || c == '}' || c == ',' || c == '%' {
        Some((Token::Sym(c), i + 1))
    } else {
        None
    }
}

/// Splits a text into words (see `spec_lex`); `None` where some character starts no word.
pub fn lex<L: Fn(String) -> u64>(s: &Vec<char>, dlit: &L) -> (r: Option<Vec<Token>>)
    requires
        decimal_reader(*dlit),
    ensures
        match r {
            Some(t) => spec_lex(s@, decimal_reading(*dlit)) == Some(tokens_model(t@)),
            None => spec_lex(s@, decimal_reading(*dlit)) is None,
        },
{
    let ghost sem = decimal_reading(*dlit);
    let mut out: Vec<Token> = Vec::new();
    let mut i: usize = 0;
    let n = s.len();
    while i < n
        invariant
            decimal_reader(*dlit),
            sem == decimal_reading(*dlit),
            n == s.len(),
            i <= n,
            spec_lex(s@, sem) == match lex_from(s@, i as int, sem) {
                Some(rest) => Some(tokens_model(out@) + rest),
                None => None,
            },
        decreases n - i,
    {
        let c = s[i];
        if c == ' ' || c == '\t' || c == '\n' || c == '\r' {
            i = i + 1;
        } else {
            match scan_token_exec(s, i, dlit) {
                Some((t, j)) => {
                    if i < j && j <= n {
                        let ghost tm = t@;
                        let ghost before = out@;
                        out.push(t);
                        proof {
                            assert(tokens_model(out@) =~= tokens_model(before).push(tm));
                            match lex_from(s@, j as int, sem) {
                                Some(rest) => {
                                    assert(tokens_model(out@) + rest =~= tokens_model(before) + (seq![tm] + rest));
                                },
                                None => {},
                            }
                        }
                        i = j;
                    } else {
                        return None;
                    }
                },
                None => {
                    return None;
                },
            }
        }
    }
    proof {
        assert(tokens_model(out@) + Seq::<TokenModel>::empty() =~= tokens_model(out@));
    }
    Some(out)
}

/// The characters of a text, in order.
pub fn chars_of(s: &str) -> (r: Vec<char>)
    ensures
        r@ == s@,
{
    let mut r: Vec<char> = Vec::new();
    let ghost all = s@;
    for c in it: s.chars()
        invariant
            it.seq() == all,
            r@ == all.take(it.index() as int),
    {
        proof {
            assert(all.take(it.index() + 1) =~= all.take(it.index() as int).push(c));
        }
        r.push(c);
    }
    assert(all.take(all.len() as int) =~= all);
    r
}

} // verus!
