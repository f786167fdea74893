use vstd::prelude::*;

use indexmap::IndexMap;

use crate::error::GravityError;
use crate::parse::arith::{checked_factorial, checked_int_op, spec_factorial, spec_int_op};
use crate::parse::ast::{Expr, Op, Program, Statement, Type};
use crate::parse::store::{var_entries, vars_get, vars_insert, vars_new};
use crate::table::{index_of, insert_entry, lemma_index_of, lemma_index_of_absent, lemma_index_of_at, lemma_index_of_same_names, lookup};

verus! {

/// A computed value. A decimal is the bit pattern of an IEEE-754 double.
#[derive(Debug, Clone, PartialEq)]
pub enum Value {
    Number(i64),
    Decimal(u64),
    Text(String),
    Boolean(bool),
}

/// What a value is, with text as its characters.
pub ghost enum ValueModel {
    Number(i64),
    Decimal(u64),
    Text(Seq<char>),
    Boolean(bool),
}

impl View for Value {
    type V = ValueModel;

    open spec fn view(&self) -> ValueModel {
        match self {
            Value::Number(n) => ValueModel::Number(*n),
            Value::Decimal(d) => ValueModel::Decimal(*d),
            Value::Text(s) => ValueModel::Text(s@),
            Value::Boolean(b) => ValueModel::Boolean(*b),
        }
    }
}

/// The type of a value.
pub open spec fn model_type(v: ValueModel) -> Type {
    match v {
        ValueModel::Number(_) => Type::Number,
        ValueModel::Decimal(_) => Type::Decimal,
        ValueModel::Text(_) => Type::Text,
        ValueModel::Boolean(_) => Type::Bool,
    }
}

impl Value {
    /// The type of the value.
    pub fn to_type(&self) -> (t: Type)
        ensures
            t == model_type(self@),
    {
        match self {
            Self::Number(_) => Type::Number,
            Self::Decimal(_) => Type::Decimal,
            Self::Text(_) => Type::Text,
            Self::Boolean(_) => Type::Bool,
        }
    }

    /// A copy of the value.
    pub fn duplicate(&self) -> (r: Value)
        ensures
            r == *self,
    {
        match self {
            Value::Number(n) => Value::Number(*n),
            Value::Decimal(d) => Value::Decimal(*d),
            Value::Text(s) => Value::Text(s.clone()),
            Value::Boolean(b) => Value::Boolean(*b),
        }
    }
}

/// The variable store seen as (name, value) pairs in order.
pub open spec fn vars_model(m: IndexMap<String, Value>) -> Seq<(Seq<char>, ValueModel)> {
    var_entries(m).map_values(|e: (Seq<char>, Value)| (e.0, e.1@))
}

/// An evaluation that may have no outcome, with values seen through their models.
pub open spec fn option_model(r: Option<Result<Value, GravityError>>) -> Option<Result<ValueModel, GravityError>> {
    match r {
        Some(x) => Some(result_model(x)),
        None => None,
    }
}

/// The outcome of an evaluation, with values seen through their models.
pub open spec fn result_model(r: Result<Value, GravityError>) -> Result<ValueModel, GravityError> {
    match r {
        Ok(v) => Ok(v@),
        Err(err) => Err(err),
    }
}

/// Arithmetic on decimals (IEEE-754 doubles given by their bits) is supplied
/// by the caller as a function `f(op, l, r)`. It must accept every input and
/// give one result for each.
pub open spec fn decimal_backend<F: Fn(Op, u64, u64) -> u64>(f: F) -> bool {
    &&& forall|o: Op, a: u64, b: u64| #[trigger] call_requires(f, (o, a, b))
    &&& forall|o: Op, a: u64, b: u64, r1: u64, r2: u64|
        #![trigger call_ensures(f, (o, a, b), r1), call_ensures(f, (o, a, b), r2)]
        call_ensures(f, (o, a, b), r1) && call_ensures(f, (o, a, b), r2) ==> r1 == r2
}

/// The decimal arithmetic that a backend computes.
pub open spec fn decimal_semantics<F: Fn(Op, u64, u64) -> u64>(f: F) -> spec_fn(Op, u64, u64) -> u64 {
    |o: Op, a: u64, b: u64| choose|r: u64| call_ensures(f, (o, a, b), r)
}

/// The sign bit of an IEEE-754 double.
pub const SIGN_BIT: u64 = 0x8000_0000_0000_0000u64;

/// Negation of a value: whole numbers are negated (no value for the least
/// `i64`); a decimal has its sign bit flipped, which is IEEE-754 negation.
/// Other values cannot be negated.
pub open spec fn spec_negate(v: ValueModel) -> Option<ValueModel> {
    match v {
        ValueModel::Number(n) => if n == i64::MIN {
            None
        } else {
            Some(ValueModel::Number((-n) as i64))
        },
        ValueModel::Decimal(d) => Some(ValueModel::Decimal(d ^ SIGN_BIT)),
        _ => None,
    }
}

/// `l op r` on two values: whole numbers by `spec_int_op`, decimals by the
/// decimal arithmetic `dec`, texts only joined by `+`. Operands of different
/// kinds (or two booleans) are a type mismatch. `None` where there is no result.
pub open spec fn spec_combine(l: ValueModel, op: Op, r: ValueModel, dec: spec_fn(Op, u64, u64) -> u64) -> Option<Result<ValueModel, GravityError>> {
    match (l, r) {
        (ValueModel::Number(a), ValueModel::Number(b)) => match spec_int_op(op, a, b) {
            Some(n) => Some(Ok(ValueModel::Number(n))),
            None => None,
        },
        (ValueModel::Decimal(a), ValueModel::Decimal(b)) => Some(Ok(ValueModel::Decimal(dec(op, a, b)))),
        (ValueModel::Text(a), ValueModel::Text(b)) => if op == Op::Add {
            Some(Ok(ValueModel::Text(a + b)))
        } else {
            None
        },
        _ => Some(Err(GravityError::TypeMismatch(model_type(l), model_type(r)))),
    }
}

/// The value of an expression where `%` has no meaning, given the variables
/// `vars`: `Some(Ok(v))` for a value, `Some(Err(e))` for an error, and `None`
/// where the expression has no value at all (arithmetic without a result, or
/// an operator applied to values it does not apply to). Operands are
/// evaluated left to right and the first error is the outcome.
pub open spec fn spec_eval_nameless(e: Expr, vars: Seq<(Seq<char>, ValueModel)>, dec: spec_fn(Op, u64, u64) -> u64) -> Option<Result<ValueModel, GravityError>>
    decreases e,
{
    match e {
        Expr::Number(n) => Some(Ok(ValueModel::Number(n))),
        Expr::Decimal(d) => Some(Ok(ValueModel::Decimal(d))),
        Expr::Bool(b) => Some(Ok(ValueModel::Boolean(b))),
        Expr::Text(s) => Some(Ok(ValueModel::Text(s@))),
        Expr::Ident(n) => match lookup(vars, n@) {
            Some(v) => Some(Ok(v)),
            None => Some(Err(GravityError::UndefinedVariable(n))),
        },
        Expr::Negate(inner) => match spec_eval_nameless(*inner, vars, dec) {
            Some(Ok(v)) => match spec_negate(v) {
                Some(nv) => Some(Ok(nv)),
                None => None,
            },
            other => other,
        },
        Expr::Factorial(inner, bangs) => match spec_eval_nameless(*inner, vars, dec) {
            Some(Ok(ValueModel::Number(v))) => match spec_factorial(v, bangs) {
                Some(n) => Some(Ok(ValueModel::Number(n))),
                None => None,
            },
            Some(Ok(_)) => None,
            other => other,
        },
        Expr::BinOp(lhs, op, rhs) => match spec_eval_nameless(*lhs, vars, dec) {
            Some(Ok(l)) => match spec_eval_nameless(*rhs, vars, dec) {
                Some(Ok(r)) => spec_combine(l, op, r, dec),
                other => other,
            },
            other => other,
        },
        Expr::SelfRef => Some(Err(GravityError::SelfRef)),
    }
}

fn call_decimal<F: Fn(Op, u64, u64) -> u64>(dec: &F, op: Op, a: u64, b: u64) -> (r: u64)
    requires
        decimal_backend(*dec),
    ensures
        r == decimal_semantics(*dec)(op, a, b),
{
    let r = dec(op, a, b);
    proof {
        let c = choose|x: u64| call_ensures(*dec, (op, a, b), x);
        assert(call_ensures(*dec, (op, a, b), c));
    }
    r
}

fn combine<F: Fn(Op, u64, u64) -> u64>(lhs: Value, op: Op, rhs: Value, dec: &F) -> (r: Option<Result<Value, GravityError>>)
    requires
        decimal_backend(*dec),
    ensures
        option_model(r) == spec_combine(lhs@, op, rhs@, decimal_semantics(*dec)),
{
    let lhs_t = lhs.to_type();
    let rhs_t = rhs.to_type();
    match (lhs, rhs) {
        (Value::Number(l), Value::Number(r)) => match checked_int_op(op, l, r) {
            Some(n) => Some(Ok(Value::Number(n))),
            None => None,
        },
        (Value::Decimal(l), Value::Decimal(r)) => Some(Ok(Value::Decimal(call_decimal(dec, op, l, r)))),
        (Value::Text(l), Value::Text(r)) => match op {
            Op::Add => Some(Ok(Value::Text(l.concat(r.as_str())))),
            _ => None,
        },
        _ => Some(Err(GravityError::TypeMismatch(lhs_t, rhs_t))),
    }
}

pub(crate) fn lookup_var(vars: &IndexMap<String, Value>, n: &String) -> (r: Option<Value>)
    ensures
        r is None <==> lookup(vars_model(*vars), n@) is None,
        r matches Some(v) ==> lookup(vars_model(*vars), n@) == Some(v@),
{
    proof {
        lemma_index_of_same_names(var_entries(*vars), vars_model(*vars), n@);
        lemma_index_of(var_entries(*vars), n@);
        match index_of(var_entries(*vars), n@) {
            Some(i) => {
                assert(vars_model(*vars)[i] == (var_entries(*vars)[i].0, var_entries(*vars)[i].1@));
            },
            None => {},
        }
    }
    match vars_get(vars, n) {
        Some(v) => Some(v.duplicate()),
        None => None,
    }
}

fn eval_nameless_in<F: Fn(Op, u64, u64) -> u64>(expr: &Expr, vars: &IndexMap<String, Value>, dec: &F) -> (r: Option<Result<Value, GravityError>>)
    requires
        decimal_backend(*dec),
    ensures
        option_model(r) == spec_eval_nameless(*expr, vars_model(*vars), decimal_semantics(*dec)),
    decreases expr,
{
    match expr {
        Expr::Number(n) => Some(Ok(Value::Number(*n))),
        Expr::Decimal(d) => Some(Ok(Value::Decimal(*d))),
        Expr::Bool(b) => Some(Ok(Value::Boolean(*b))),
        Expr::Text(s) => Some(Ok(Value::Text(s.clone()))),
        Expr::Ident(n) => match lookup_var(vars, n) {
            Some(v) => Some(Ok(v)),
            None => Some(Err(GravityError::UndefinedVariable(n.clone()))),
        },
        Expr::Negate(e) => match eval_nameless_in(e, vars, dec) {
            Some(Ok(Value::Number(n))) => if n == i64::MIN {
                None
            } else {
                Some(Ok(Value::Number(-n)))
            },
            Some(Ok(Value::Decimal(d))) => Some(Ok(Value::Decimal(d ^ SIGN_BIT))),
            Some(Ok(_)) => None,
            other => other,
        },
        Expr::Factorial(e, bangs) => match eval_nameless_in(e, vars, dec) {
            Some(Ok(Value::Number(v))) => match checked_factorial(v, *bangs) {
                Some(n) => Some(Ok(Value::Number(n))),
                None => None,
            },
            Some(Ok(_)) => None,
            other => other,
        },
        Expr::BinOp(left, op, right) => match eval_nameless_in(left, vars, dec) {
            Some(Ok(lhs)) => match eval_nameless_in(right, vars, dec) {
                Some(Ok(rhs)) => combine(lhs, *op, rhs, dec),
                other => other,
            },
            other => other,
        },
        Expr::SelfRef => Some(Err(GravityError::SelfRef)),
    }
}

/// A definition `typ name = expr;` as the state keeps it.
#[derive(Debug, PartialEq)]
pub struct Assignment {
    pub typ: Type,
    pub name: String,
    pub expr: Expr,
}

impl Assignment {
    /// The definition that an assignment statement makes.
    pub fn from_statement(stmt: Statement) -> (r: Assignment)
        requires
            stmt is Assignment,
        ensures
            stmt matches Statement::Assignment { typ, name, expr } && r == (Assignment { typ, name, expr }),
    {
        match stmt {
            Statement::Assignment { typ, name, expr } => Assignment { typ, name, expr },
            _ => {
                proof {
                    assert(false);
                }
                Assignment { typ: Type::Bool, name: String::new(), expr: Expr::SelfRef }
            },
        }
    }
}

/// The state of a schema: its definitions and relationships in order, and
/// the values computed from them.
#[derive(Debug)]
pub struct State {
    pub vars: IndexMap<String, Value>,
    pub def: Vec<Assignment>,
    pub rel: Vec<(String, Expr)>,
}

impl State {
    /// A state with nothing in it.
    pub fn new() -> (r: State)
        ensures
            vars_model(r.vars) == Seq::<(Seq<char>, ValueModel)>::empty(),
            r.def@ == Seq::<Assignment>::empty(),
            r.rel@ == Seq::<(String, Expr)>::empty(),
    {
        let r = State { vars: vars_new(), def: Vec::new(), rel: Vec::new() };
        assert(vars_model(r.vars) =~= Seq::<(Seq<char>, ValueModel)>::empty());
        r
    }
}

impl Default for State {
    fn default() -> (r: State)
        ensures
            vars_model(r.vars) == Seq::<(Seq<char>, ValueModel)>::empty(),
            r.def@ == Seq::<Assignment>::empty(),
            r.rel@ == Seq::<(String, Expr)>::empty(),
    {
        State::new()
    }
}

/// Evaluates an expression where `%` has no meaning against the variables
/// of `state` (see `spec_eval_nameless`).
pub fn eval_expr_nameless<F: Fn(Op, u64, u64) -> u64>(expr: &Expr, state: &State, dec: &F) -> (r: Result<Value, GravityError>)
    requires
        decimal_backend(*dec),
        spec_eval_nameless(*expr, vars_model(state.vars), decimal_semantics(*dec)) is Some,
    ensures
        Some(result_model(r)) == spec_eval_nameless(*expr, vars_model(state.vars), decimal_semantics(*dec)),
{
    match eval_nameless_in(expr, &state.vars, dec) {
        Some(r) => r,
        None => {
            proof {
                assert(false);
            }
            Err(GravityError::SelfRef)
        },
    }
}

/// Evaluates an expression where `%` has no meaning, or gives `None` where
/// it has no value at all (see `spec_eval_nameless`).
pub fn eval_expr_nameless_checked<F: Fn(Op, u64, u64) -> u64>(expr: &Expr, state: &State, dec: &F) -> (r: Option<Result<Value, GravityError>>)
    requires
        decimal_backend(*dec),
    ensures
        option_model(r) == spec_eval_nameless(*expr, vars_model(state.vars), decimal_semantics(*dec)),
{
    eval_nameless_in(expr, &state.vars, dec)
}

/// The index of the first definition of `name`.
pub open spec fn def_index(defs: Seq<Assignment>, name: Seq<char>) -> Option<int> {
    index_of(defs.map_values(|a: Assignment| (a.name@, a)), name)
}

/// The value of an expression of the definition or relationship of `name`,
/// as the state computes it; `None` where there is none (a variable not
/// computed yet, arithmetic without a result, values of the wrong kind).
/// `%` stands for the value of `name` computed so far or, before there is
/// one, for the value of the first definition of `name`; a `%` inside that
/// definition itself has no value.
pub open spec fn spec_eval(e: Expr, vars: Seq<(Seq<char>, ValueModel)>, defs: Seq<Assignment>, name: Seq<char>, dec: spec_fn(Op, u64, u64) -> u64, in_def: bool) -> Option<ValueModel>
    decreases (if in_def { 0int } else { 1int }), e,
{
    match e {
        Expr::Number(n) => Some(ValueModel::Number(n)),
        Expr::Decimal(d) => Some(ValueModel::Decimal(d)),
        Expr::Bool(b) => Some(ValueModel::Boolean(b)),
        Expr::Text(s) => Some(ValueModel::Text(s@)),
        Expr::Ident(n) => lookup(vars, n@),
        Expr::SelfRef => match lookup(vars, name) {
            Some(v) => Some(v),
            None => if in_def {
                None
            } else {
                match def_index(defs, name) {
                    Some(i) => spec_eval(defs[i].expr, vars, defs, name, dec, true),
                    None => None,
                }
            },
        },
        Expr::Negate(inner) => match spec_eval(*inner, vars, defs, name, dec, in_def) {
            Some(v) => spec_negate(v),
            None => None,
        },
        Expr::Factorial(inner, bangs) => match spec_eval(*inner, vars, defs, name, dec, in_def) {
            Some(ValueModel::Number(v)) => match spec_factorial(v, bangs) {
                Some(n) => Some(ValueModel::Number(n)),
                None => None,
            },
            _ => None,
        },
        Expr::BinOp(lhs, op, rhs) => match spec_eval(*lhs, vars, defs, name, dec, in_def) {
            Some(l) => match spec_eval(*rhs, vars, defs, name, dec, in_def) {
                Some(r) => match spec_combine(l, op, r, dec) {
                    Some(Ok(v)) => Some(v),
                    _ => None,
                },
                None => None,
            },
            None => None,
        },
    }
}

pub(crate) fn find_def(defs: &Vec<Assignment>, name: &String) -> (r: Option<usize>)
    ensures
        r matches Some(i) ==> def_index(defs@, name@) == Some(i as int) && i < defs.len(),
        r is None ==> def_index(defs@, name@) is None,
{
    let ghost keyed = defs@.map_values(|a: Assignment| (a.name@, a));
    let n = defs.len();
    let mut i: usize = 0;
    while i < n
        invariant
            n == defs.len(),
            i <= n,
            keyed == defs@.map_values(|a: Assignment| (a.name@, a)),
            forall|j: int| 0 <= j < i ==> (#[trigger] keyed[j]).0 != name@,
        decreases n - i,
    {
        if defs[i].name == *name {
            proof {
                lemma_index_of_at(keyed, name@, i as int);
            }
            return Some(i);
        }
        i = i + 1;
    }
    proof {
        lemma_index_of_absent(keyed, name@);
    }
    None
}

fn eval_expr<F: Fn(Op, u64, u64) -> u64>(
    expr: &Expr,
    vars: &IndexMap<String, Value>,
    defs: &Vec<Assignment>,
    name: &String,
    dec: &F,
    in_def: bool,
) -> (r: Option<Value>)
    requires
        decimal_backend(*dec),
    ensures
        spec_eval(*expr, vars_model(*vars), defs@, name@, decimal_semantics(*dec), in_def) == match r {
            Some(v) => Some(v@),
            None => None,
        },
    decreases (if in_def { 0int } else { 1int }), expr,
{
    match expr {
        Expr::Number(n) => Some(Value::Number(*n)),
        Expr::Decimal(d) => Some(Value::Decimal(*d)),
        Expr::Bool(b) => Some(Value::Boolean(*b)),
        Expr::Text(s) => Some(Value::Text(s.clone())),
        Expr::Ident(n) => lookup_var(vars, n),
        Expr::SelfRef => match lookup_var(vars, name) {
            Some(v) => Some(v),
            None => match find_def(defs, name) {
                Some(i) => {
                    if in_def {
                        None
                    } else {
                        eval_expr(&defs[i].expr, vars, defs, name, dec, true)
                    }
                },
                None => None,
            },
        },
        Expr::Negate(e) => match eval_expr(e, vars, defs, name, dec, in_def) {
            Some(Value::Number(n)) => if n == i64::MIN {
                None
            } else {
                Some(Value::Number(-n))
            },
            Some(Value::Decimal(d)) => Some(Value::Decimal(d ^ SIGN_BIT)),
            _ => None,
        },
        Expr::Factorial(e, bangs) => match eval_expr(e, vars, defs, name, dec, in_def) {
            Some(Value::Number(v)) => match checked_factorial(v, *bangs) {
                Some(n) => Some(Value::Number(n)),
                None => None,
            },
            _ => None,
        },
        Expr::BinOp(left, op, right) => match eval_expr(left, vars, defs, name, dec, in_def) {
            Some(lhs) => match eval_expr(right, vars, defs, name, dec, in_def) {
                Some(rhs) => match combine(lhs, *op, rhs, dec) {
                    Some(Ok(v)) => Some(v),
                    _ => None,
                },
                None => None,
            },
            None => None,
        },
    }
}

/// The variables after computing the first `n` definitions in order, each
/// stored under its name; `None` where one of them has no value.
pub open spec fn compute_defs(defs: Seq<Assignment>, n: int, dec: spec_fn(Op, u64, u64) -> u64) -> Option<Seq<(Seq<char>, ValueModel)>>
    decreases n,
{
    if n <= 0 {
        Some(Seq::empty())
    } else {
        match compute_defs(defs, n - 1, dec) {
            None => None,
            Some(vars) => match spec_eval(defs[n - 1].expr, vars, defs, defs[n - 1].name@, dec, false) {
                Some(v) => Some(insert_entry(vars, defs[n - 1].name@, v)),
                None => None,
            },
        }
    }
}

/// The variables after computing, from `vars`, the first `n` relationships
/// in order, each storing its value under its name.
pub open spec fn compute_rels(rels: Seq<(String, Expr)>, n: int, vars: Seq<(Seq<char>, ValueModel)>, defs: Seq<Assignment>, dec: spec_fn(Op, u64, u64) -> u64) -> Option<Seq<(Seq<char>, ValueModel)>>
    decreases n,
{
    if n <= 0 {
        Some(vars)
    } else {
        match compute_rels(rels, n - 1, vars, defs, dec) {
            None => None,
            Some(vs) => match spec_eval(rels[n - 1].1, vs, defs, rels[n - 1].0@, dec, false) {
                Some(v) => Some(insert_entry(vs, rels[n - 1].0@, v)),
                None => None,
            },
        }
    }
}

/// The variables of a state with definitions `defs` and relationships
/// `rels`: the definitions are computed first, then the relationships.
pub open spec fn spec_compute(defs: Seq<Assignment>, rels: Seq<(String, Expr)>, dec: spec_fn(Op, u64, u64) -> u64) -> Option<Seq<(Seq<char>, ValueModel)>> {
    match compute_defs(defs, defs.len() as int, dec) {
        None => None,
        Some(vars) => compute_rels(rels, rels.len() as int, vars, defs, dec),
    }
}

proof fn lemma_model_insert(m: Seq<(Seq<char>, Value)>, k: Seq<char>, v: Value)
    ensures
        insert_entry(m, k, v).map_values(|e: (Seq<char>, Value)| (e.0, e.1@))
            == insert_entry(m.map_values(|e: (Seq<char>, Value)| (e.0, e.1@)), k, v@),
{
    let mm = m.map_values(|e: (Seq<char>, Value)| (e.0, e.1@));
    lemma_index_of_same_names(m, mm, k);
    let a = insert_entry(m, k, v).map_values(|e: (Seq<char>, Value)| (e.0, e.1@));
    let b = insert_entry(mm, k, v@);
    lemma_index_of(m, k);
    match index_of(m, k) {
        Some(i) => {
            assert(a =~= b);
        },
        None => {
            assert(a =~= b);
        },
    }
}

fn store_var(vars: &mut IndexMap<String, Value>, name: String, v: Value)
    ensures
        vars_model(*final(vars)) == insert_entry(vars_model(*old(vars)), name@, v@),
{
    proof {
        lemma_model_insert(var_entries(*vars), name@, v);
    }
    vars_insert(vars, name, v);
}

impl State {
    /// Recomputes every variable: each definition is evaluated and stored in
    /// order, then each relationship. Where one of them has no value, the
    /// state is left as it was and `false` is returned.
    pub fn compute_checked<F: Fn(Op, u64, u64) -> u64>(&mut self, dec: &F) -> (ok: bool)
        requires
            decimal_backend(*dec),
        ensures
            ok == spec_compute(old(self).def@, old(self).rel@, decimal_semantics(*dec)) is Some,
            final(self).def@ == old(self).def@,
            final(self).rel@ == old(self).rel@,
            ok ==> Some(vars_model(final(self).vars)) == spec_compute(old(self).def@, old(self).rel@, decimal_semantics(*dec)),
            !ok ==> var_entries(final(self).vars) == var_entries(old(self).vars),
    {
        let ghost sem = decimal_semantics(*dec);
        let mut vars = vars_new();
        proof {
            assert(vars_model(vars) =~= Seq::<(Seq<char>, ValueModel)>::empty());
        }
        let nd = self.def.len();
        let mut i: usize = 0;
        while i < nd
            invariant
                decimal_backend(*dec),
                sem == decimal_semantics(*dec),
                nd == self.def.len(),
                i <= nd,
                compute_defs(self.def@, i as int, sem) == Some(vars_model(vars)),
            decreases nd - i,
        {
            match eval_expr(&self.def[i].expr, &vars, &self.def, &self.def[i].name, dec, false) {
                Some(val) => {
                    let name = self.def[i].name.clone();
                    store_var(&mut vars, name, val);
                },
                None => {
                    proof {
                        lemma_compute_defs_failure(self.def@, (i + 1) as int, nd as int, sem);
                    }
                    return false;
                },
            }
            i = i + 1;
        }
        let nr = self.rel.len();
        let ghost start = vars_model(vars);
        let mut j: usize = 0;
        while j < nr
            invariant
                decimal_backend(*dec),
                sem == decimal_semantics(*dec),
                nr == self.rel.len(),
                j <= nr,
                compute_defs(self.def@, self.def@.len() as int, sem) == Some(start),
                compute_rels(self.rel@, j as int, start, self.def@, sem) == Some(vars_model(vars)),
            decreases nr - j,
        {
            match eval_expr(&self.rel[j].1, &vars, &self.def, &self.rel[j].0, dec, false) {
                Some(val) => {
                    let name = self.rel[j].0.clone();
                    store_var(&mut vars, name, val);
                },
                None => {
                    proof {
                        lemma_compute_rels_failure(self.rel@, (j + 1) as int, nr as int, start, self.def@, sem);
                    }
                    return false;
                },
            }
            j = j + 1;
        }
        self.vars = vars;
        true
    }

    /// Recomputes every variable: each definition is evaluated and stored in
    /// order, then each relationship (see `spec_compute`).
    pub fn compute<F: Fn(Op, u64, u64) -> u64>(&mut self, dec: &F)
        requires
            decimal_backend(*dec),
            spec_compute(old(self).def@, old(self).rel@, decimal_semantics(*dec)) is Some,
        ensures
            final(self).def@ == old(self).def@,
            final(self).rel@ == old(self).rel@,
            Some(vars_model(final(self).vars)) == spec_compute(old(self).def@, old(self).rel@, decimal_semantics(*dec)),
    {
        self.compute_checked(dec);
    }
}

proof fn lemma_compute_defs_failure(defs: Seq<Assignment>, k: int, n: int, dec: spec_fn(Op, u64, u64) -> u64)
    requires
        k <= n,
        compute_defs(defs, k, dec) is None,
    ensures
        compute_defs(defs, n, dec) is None,
    decreases n - k,
{
    if k < n {
        lemma_compute_defs_failure(defs, k, n - 1, dec);
    }
}

proof fn lemma_compute_rels_failure(rels: Seq<(String, Expr)>, k: int, n: int, vars: Seq<(Seq<char>, ValueModel)>, defs: Seq<Assignment>, dec: spec_fn(Op, u64, u64) -> u64)
    requires
        k <= n,
        compute_rels(rels, k, vars, defs, dec) is None,
    ensures
        compute_rels(rels, n, vars, defs, dec) is None,
    decreases n - k,
{
    if k < n {
        lemma_compute_rels_failure(rels, k, n - 1, vars, defs, dec);
    }
}

/// Where all definitions have values, so do the first `k` of them.
pub proof fn lemma_compute_defs_prefix(defs: Seq<Assignment>, k: int, n: int, dec: spec_fn(Op, u64, u64) -> u64)
    requires
        k <= n,
        compute_defs(defs, n, dec) is Some,
    ensures
        compute_defs(defs, k, dec) is Some,
    decreases n - k,
{
    if k < n {
        lemma_compute_defs_prefix(defs, k, n - 1, dec);
    }
}

/// Where all relationships have values, so do the first `k` of them.
pub proof fn lemma_compute_rels_prefix(rels: Seq<(String, Expr)>, k: int, n: int, vars: Seq<(Seq<char>, ValueModel)>, defs: Seq<Assignment>, dec: spec_fn(Op, u64, u64) -> u64)
    requires
        k <= n,
        compute_rels(rels, n, vars, defs, dec) is Some,
    ensures
        compute_rels(rels, k, vars, defs, dec) is Some,
    decreases n - k,
{
    if k < n {
        lemma_compute_rels_prefix(rels, k, n - 1, vars, defs, dec);
    }
}


/// The definitions that the first `n` statements make, in order.
pub open spec fn program_defs(stmts: Seq<Statement>, n: int) -> Seq<Assignment>
    decreases n,
{
    if n <= 0 {
        Seq::empty()
    } else {
        match stmts[n - 1] {
            Statement::Assignment { typ, name, expr } => program_defs(stmts, n - 1).push(Assignment { typ, name, expr }),
            _ => program_defs(stmts, n - 1),
        }
    }
}

/// The relationships that the first `n` statements make, in order.
pub open spec fn program_rels(stmts: Seq<Statement>, n: int) -> Seq<(String, Expr)>
    decreases n,
{
    if n <= 0 {
        Seq::empty()
    } else {
        match stmts[n - 1] {
            Statement::Relationship { name, expr } => program_rels(stmts, n - 1).push((name, expr)),
            _ => program_rels(stmts, n - 1),
        }
    }
}

fn collect_state(prg: Program) -> (st: State)
    ensures
        st.def@ == program_defs(prg.slf@, prg.slf@.len() as int),
        st.rel@ == program_rels(prg.slf@, prg.slf@.len() as int),
        vars_model(st.vars) == Seq::<(Seq<char>, ValueModel)>::empty(),
{
    let mut state = State::new();
    let ghost stmts = prg.slf@;

    for stmt in it: prg.slf.into_iter()
        invariant
            it.seq() == stmts,
            state.def@ == program_defs(stmts, it.index() as int),
            state.rel@ == program_rels(stmts, it.index() as int),
            vars_model(state.vars) == Seq::<(Seq<char>, ValueModel)>::empty(),
    {
        match stmt {
            Statement::Assignment { name, expr, typ } => state.def.push(Assignment { name, expr, typ }),
            Statement::Relationship { name, expr } => {
                state.rel.push((name, expr));
            },
            Statement::Insertion { .. } => {},
        };
    }
    state
}

/// Builds the state of a schema: its definitions and relationships in the
/// order of its statements (insertions make neither), then computes every
/// variable.
pub fn eval_program<F: Fn(Op, u64, u64) -> u64>(prg: Program, dec: &F) -> (r: Result<State, GravityError>)
    requires
        decimal_backend(*dec),
        spec_compute(
            program_defs(prg.slf@, prg.slf@.len() as int),
            program_rels(prg.slf@, prg.slf@.len() as int),
            decimal_semantics(*dec),
        ) is Some,
    ensures
        r matches Ok(st) && st.def@ == program_defs(prg.slf@, prg.slf@.len() as int) && st.rel@ == program_rels(
            prg.slf@,
            prg.slf@.len() as int,
        ) && Some(vars_model(st.vars)) == spec_compute(st.def@, st.rel@, decimal_semantics(*dec)),
{
    let mut state = collect_state(prg);
    state.compute(dec);
    Ok(state)
}

/// Builds and computes the state of a schema as `eval_program` does, or
/// gives `None` where some variable has no value.
pub fn eval_program_checked<F: Fn(Op, u64, u64) -> u64>(prg: Program, dec: &F) -> (r: Option<State>)
    requires
        decimal_backend(*dec),
    ensures
        match spec_compute(
            program_defs(prg.slf@, prg.slf@.len() as int),
            program_rels(prg.slf@, prg.slf@.len() as int),
            decimal_semantics(*dec),
        ) {
            Some(vars) => r matches Some(st) && st.def@ == program_defs(prg.slf@, prg.slf@.len() as int)
                && st.rel@ == program_rels(prg.slf@, prg.slf@.len() as int) && vars_model(st.vars) == vars,
            None => r is None,
        },
{
    let mut state = collect_state(prg);
    if state.compute_checked(dec) {
        Some(state)
    } else {
        None
    }
}

proof fn lemma_sign_flip(d: u64)
    ensures
        (d ^ SIGN_BIT) ^ d == 0x8000_0000_0000_0000u64,
        (d ^ SIGN_BIT) ^ SIGN_BIT == d,
{
    assert((d ^ 0x8000_0000_0000_0000u64) ^ d == 0x8000_0000_0000_0000u64) by (bit_vector);
    assert((d ^ 0x8000_0000_0000_0000u64) ^ 0x8000_0000_0000_0000u64 == d) by (bit_vector);
}

/// Negation in a state: the negation of a whole number `n` (other than the
/// least) is the number that added to `n` gives zero; the negation of a
/// decimal differs from it in the sign bit alone; and negating twice gives
/// the value back.
pub proof fn lemma_negation_value(
    x: Expr,
    vars: Seq<(Seq<char>, ValueModel)>,
    defs: Seq<Assignment>,
    name: Seq<char>,
    dec: spec_fn(Op, u64, u64) -> u64,
    in_def: bool,
)
    ensures
        spec_eval(x, vars, defs, name, dec, in_def) matches Some(ValueModel::Number(n)) ==> (n != i64::MIN ==> (
        spec_eval(Expr::Negate(Box::new(x)), vars, defs, name, dec, in_def) matches Some(ValueModel::Number(m))
            && m + n == 0)),
        spec_eval(x, vars, defs, name, dec, in_def) matches Some(ValueModel::Decimal(d)) ==> (spec_eval(
            Expr::Negate(Box::new(x)),
            vars,
            defs,
            name,
            dec,
            in_def,
        ) matches Some(ValueModel::Decimal(e)) && e ^ d == 0x8000_0000_0000_0000u64),
        (spec_eval(x, vars, defs, name, dec, in_def) matches Some(ValueModel::Number(n)) && n != i64::MIN)
            || (spec_eval(x, vars, defs, name, dec, in_def) matches Some(ValueModel::Decimal(_))) ==> spec_eval(
            Expr::Negate(Box::new(Expr::Negate(Box::new(x)))),
            vars,
            defs,
            name,
            dec,
            in_def,
        ) == spec_eval(x, vars, defs, name, dec, in_def),
{
    if let Some(ValueModel::Decimal(d)) = spec_eval(x, vars, defs, name, dec, in_def) {
        lemma_sign_flip(d);
    }
}

/// The same for an expression where `%` has no meaning.
pub proof fn lemma_negation_value_nameless(x: Expr, vars: Seq<(Seq<char>, ValueModel)>, dec: spec_fn(Op, u64, u64) -> u64)
    ensures
        spec_eval_nameless(x, vars, dec) matches Some(Ok(ValueModel::Number(n))) ==> (n != i64::MIN ==> (
        spec_eval_nameless(Expr::Negate(Box::new(x)), vars, dec) matches Some(Ok(ValueModel::Number(m))) && m + n
            == 0)),
        spec_eval_nameless(x, vars, dec) matches Some(Ok(ValueModel::Decimal(d))) ==> (spec_eval_nameless(
            Expr::Negate(Box::new(x)),
            vars,
            dec,
        ) matches Some(Ok(ValueModel::Decimal(e))) && e ^ d == 0x8000_0000_0000_0000u64),
        (spec_eval_nameless(x, vars, dec) matches Some(Ok(ValueModel::Number(n))) && n != i64::MIN)
            || (spec_eval_nameless(x, vars, dec) matches Some(Ok(ValueModel::Decimal(_)))) ==> spec_eval_nameless(
            Expr::Negate(Box::new(Expr::Negate(Box::new(x)))),
            vars,
            dec,
        ) == spec_eval_nameless(x, vars, dec),
{
    if let Some(Ok(ValueModel::Decimal(d))) = spec_eval_nameless(x, vars, dec) {
        lemma_sign_flip(d);
    }
}

} // verus!
