//! What the type checker guarantees of evaluation, and what it accepts.
use vstd::prelude::*;

use crate::error::GravityError;
use crate::parse::ast::{Expr, Op, Program, RecDef, RecField, Statement, Type};
use crate::parse::eval::{compute_defs, compute_rels, model_type, program_defs, program_rels, spec_combine, spec_compute, spec_eval, spec_eval_nameless, Assignment, ValueModel};
use crate::parse::typecheck::{field_error, first_field_error, key_before, name_before, record_index, records_after, spec_check_record_def, spec_check_relationship, spec_check_statement, spec_expr_type, spec_run, state_env, statements_after};
use crate::table::{index_of, insert_entry, lemma_index_of, lemma_insert_absent, lemma_lookup_insert, lemma_lookup_prefix, lookup};

verus! {

/// Whether every name declared in `env` holds, in `vars`, a value of its declared type.
pub open spec fn vars_agree(env: Seq<(Seq<char>, Type)>, vars: Seq<(Seq<char>, ValueModel)>) -> bool {
    forall|k: Seq<char>| #[trigger] lookup(env, k) is Some ==> {
        &&& lookup(vars, k) is Some
        &&& model_type(lookup(vars, k).unwrap()) == lookup(env, k).unwrap()
    }
}

proof fn lemma_combine_type(l: ValueModel, op: Op, r: ValueModel, dec: spec_fn(Op, u64, u64) -> u64)
    requires
        model_type(l) == model_type(r),
    ensures
        spec_combine(l, op, r, dec) matches Some(Ok(v)) ==> model_type(v) == model_type(l),
{
}

/// Evaluation keeps the type that the checker gives: where `e` has type `t`
/// (with `%` standing for `name`) and every declared name holds a value of
/// its declared type, any value that evaluating `e` yields has type `t`.
pub proof fn lemma_eval_has_checked_type(
    e: Expr,
    env: Seq<(Seq<char>, Type)>,
    vars: Seq<(Seq<char>, ValueModel)>,
    defs: Seq<Assignment>,
    name: String,
    dec: spec_fn(Op, u64, u64) -> u64,
    in_def: bool,
    t: Type,
)
    requires
        spec_expr_type(e, env, Some(name)) == Ok::<Type, GravityError>(t),
        vars_agree(env, vars),
        spec_eval(e, vars, defs, name@, dec, in_def) is Some,
    ensures
        model_type(spec_eval(e, vars, defs, name@, dec, in_def).unwrap()) == t,
    decreases e,
{
    match e {
        Expr::Ident(n) => {
            assert(lookup(env, n@) is Some);
        },
        Expr::SelfRef => {
            assert(lookup(env, name@) is Some);
        },
        Expr::Negate(inner) => {
            let it = spec_expr_type(*inner, env, Some(name)).unwrap();
            lemma_eval_has_checked_type(*inner, env, vars, defs, name, dec, in_def, it);
        },
        Expr::Factorial(inner, _) => {
            let it = spec_expr_type(*inner, env, Some(name)).unwrap();
            lemma_eval_has_checked_type(*inner, env, vars, defs, name, dec, in_def, it);
        },
        Expr::BinOp(lhs, op, rhs) => {
            let lt = spec_expr_type(*lhs, env, Some(name)).unwrap();
            let rt = spec_expr_type(*rhs, env, Some(name)).unwrap();
            lemma_eval_has_checked_type(*lhs, env, vars, defs, name, dec, in_def, lt);
            lemma_eval_has_checked_type(*rhs, env, vars, defs, name, dec, in_def, rt);
            let lv = spec_eval(*lhs, vars, defs, name@, dec, in_def).unwrap();
            let rv = spec_eval(*rhs, vars, defs, name@, dec, in_def).unwrap();
            lemma_combine_type(lv, op, rv, dec);
        },
        _ => {},
    }
}

/// The same for an expression where `%` has no meaning: any value that it
/// evaluates to has the type that the checker gives it.
pub proof fn lemma_eval_nameless_has_checked_type(
    e: Expr,
    env: Seq<(Seq<char>, Type)>,
    vars: Seq<(Seq<char>, ValueModel)>,
    dec: spec_fn(Op, u64, u64) -> u64,
    t: Type,
)
    requires
        spec_expr_type(e, env, None) == Ok::<Type, GravityError>(t),
        vars_agree(env, vars),
    ensures
        spec_eval_nameless(e, vars, dec) matches Some(Ok(v)) ==> model_type(v) == t,
    decreases e,
{
    match e {
        Expr::Ident(n) => {
            assert(lookup(env, n@) is Some);
        },
        Expr::Negate(inner) => {
            let it = spec_expr_type(*inner, env, None).unwrap();
            lemma_eval_nameless_has_checked_type(*inner, env, vars, dec, it);
        },
        Expr::Factorial(inner, _) => {
            let it = spec_expr_type(*inner, env, None).unwrap();
            lemma_eval_nameless_has_checked_type(*inner, env, vars, dec, it);
        },
        Expr::BinOp(lhs, op, rhs) => {
            let lt = spec_expr_type(*lhs, env, None).unwrap();
            let rt = spec_expr_type(*rhs, env, None).unwrap();
            lemma_eval_nameless_has_checked_type(*lhs, env, vars, dec, lt);
            lemma_eval_nameless_has_checked_type(*rhs, env, vars, dec, rt);
            match spec_eval_nameless(*lhs, vars, dec) {
                Some(Ok(lv)) => match spec_eval_nameless(*rhs, vars, dec) {
                    Some(Ok(rv)) => lemma_combine_type(lv, op, rv, dec),
                    _ => {},
                },
                _ => {},
            }
        },
        _ => {},
    }
}


/// Exactly one field is a key.
pub open spec fn one_key(fields: Seq<RecField>) -> bool {
    exists|i: int| 0 <= i < fields.len() && (#[trigger] fields[i]).is_key
        && forall|j: int| 0 <= j < fields.len() && j != i ==> !(#[trigger] fields[j]).is_key
}

/// Every key field is of type num or text.
pub open spec fn keys_typed(fields: Seq<RecField>) -> bool {
    forall|i: int| 0 <= i < fields.len() && (#[trigger] fields[i]).is_key ==> fields[i].typ == Type::Number || fields[i].typ == Type::Text
}

/// No two fields share a name.
pub open spec fn distinct_field_names(fields: Seq<RecField>) -> bool {
    forall|i: int, j: int| 0 <= i < j < fields.len() ==> (#[trigger] fields[i]).name@ != (#[trigger] fields[j]).name@
}

proof fn lemma_first_field_error_none(fields: Seq<RecField>, k: int, rec: String)
    requires
        0 <= k <= fields.len(),
    ensures
        first_field_error(fields, k, rec) is None <==> forall|i: int| k <= i < fields.len() ==> (#[trigger] field_error(fields, i, rec)) is None,
    decreases fields.len() - k,
{
    if k < fields.len() {
        lemma_first_field_error_none(fields, k + 1, rec);
        if first_field_error(fields, k, rec) is None {
            assert forall|i: int| k <= i < fields.len() implies (#[trigger] field_error(fields, i, rec)) is None by {
                if i > k {
                }
            }
        }
    }
}

proof fn lemma_fields_ok_distinct(fields: Seq<RecField>, rec: String)
    requires
        forall|i: int| 0 <= i < fields.len() ==> (#[trigger] field_error(fields, i, rec)) is None,
    ensures
        distinct_field_names(fields),
{
    assert forall|i: int, j: int| 0 <= i < j < fields.len() implies (#[trigger] fields[i]).name@ != (#[trigger] fields[j]).name@ by {
        assert(field_error(fields, j, rec) is None);
        if fields[i].name@ == fields[j].name@ {
            assert(name_before(fields, j));
        }
    }
}

proof fn lemma_fields_ok_typed(fields: Seq<RecField>, rec: String)
    requires
        forall|i: int| 0 <= i < fields.len() ==> (#[trigger] field_error(fields, i, rec)) is None,
    ensures
        keys_typed(fields),
{
    assert forall|i: int| 0 <= i < fields.len() && (#[trigger] fields[i]).is_key implies fields[i].typ == Type::Number || fields[i].typ == Type::Text by {
        assert(field_error(fields, i, rec) is None);
    }
}

proof fn lemma_fields_ok_second_key(fields: Seq<RecField>, rec: String, i: int, j: int)
    requires
        forall|k: int| 0 <= k < fields.len() ==> (#[trigger] field_error(fields, k, rec)) is None,
        0 <= i < j < fields.len(),
        fields[i].is_key,
    ensures
        !fields[j].is_key,
{
    assert(field_error(fields, j, rec) is None);
    if fields[j].is_key {
        assert(key_before(fields, j));
    }
}

proof fn lemma_fields_ok_one_key(fields: Seq<RecField>, rec: String)
    requires
        forall|i: int| 0 <= i < fields.len() ==> (#[trigger] field_error(fields, i, rec)) is None,
    ensures
        key_before(fields, fields.len() as int) <==> one_key(fields),
{
    if key_before(fields, fields.len() as int) {
        let i = choose|i: int| 0 <= i < fields.len() && (#[trigger] fields[i]).is_key;
        assert forall|j: int| 0 <= j < fields.len() && j != i implies !(#[trigger] fields[j]).is_key by {
            if j < i {
                if fields[j].is_key {
                    lemma_fields_ok_second_key(fields, rec, j, i);
                }
            } else {
                lemma_fields_ok_second_key(fields, rec, i, j);
            }
        }
        assert(one_key(fields));
    } else if one_key(fields) {
        let i = choose|i: int| 0 <= i < fields.len() && (#[trigger] fields[i]).is_key
            && forall|j: int| 0 <= j < fields.len() && j != i ==> !(#[trigger] fields[j]).is_key;
        assert(key_before(fields, fields.len() as int));
    }
}

proof fn lemma_properties_fields_ok(fields: Seq<RecField>, rec: String, i: int)
    requires
        0 <= i < fields.len(),
        distinct_field_names(fields),
        keys_typed(fields),
        one_key(fields),
    ensures
        field_error(fields, i, rec) is None,
{
    if name_before(fields, i) {
        let j = choose|j: int| 0 <= j < i && (#[trigger] fields[j]).name@ == fields[i].name@;
        assert(fields[j].name@ != fields[i].name@);
    }
    if fields[i].is_key && key_before(fields, i) {
        let j = choose|j: int| 0 <= j < i && (#[trigger] fields[j]).is_key;
        let k = choose|k: int| 0 <= k < fields.len() && (#[trigger] fields[k]).is_key
            && forall|j2: int| 0 <= j2 < fields.len() && j2 != k ==> !(#[trigger] fields[j2]).is_key;
        assert(j == k);
        assert(i == k);
    }
    if fields[i].is_key {
        assert(fields[i].typ == Type::Number || fields[i].typ == Type::Text);
    }
}

/// A record definition is accepted exactly when its name is not taken, no
/// two of its fields share a name, exactly one field is a key and the key is
/// of type num or text; the accepted record is added after the others, and
/// a refused one leaves them as they were.
pub proof fn lemma_record_accepted(recd: RecDef, defs: Seq<RecDef>)
    ensures
        spec_check_record_def(recd, defs).0 is Ok <==> {
            &&& record_index(defs, recd.name@) is None
            &&& distinct_field_names(recd.fields@)
            &&& one_key(recd.fields@)
            &&& keys_typed(recd.fields@)
        },
        spec_check_record_def(recd, defs).1 == (if spec_check_record_def(recd, defs).0 is Ok {
            defs.push(recd)
        } else {
            defs
        }),
{
    let fields = recd.fields@;
    let rec = recd.name;
    lemma_first_field_error_none(fields, 0, rec);
    if first_field_error(fields, 0, rec) is None {
        lemma_fields_ok_distinct(fields, rec);
        lemma_fields_ok_typed(fields, rec);
        lemma_fields_ok_one_key(fields, rec);
    } else if distinct_field_names(fields) && one_key(fields) && keys_typed(fields) {
        assert forall|i: int| 0 <= i < fields.len() implies (#[trigger] field_error(fields, i, rec)) is None by {
            lemma_properties_fields_ok(fields, rec, i);
        }
    }
}


/// Definition `j` of `defs` is well typed under the definitions before it,
/// and its name is not among theirs.
pub open spec fn def_checked(defs: Seq<Assignment>, j: int) -> bool {
    &&& spec_expr_type(defs[j].expr, state_env(defs.take(j)), Some(defs[j].name)) == Ok::<Type, GravityError>(defs[j].typ)
    &&& lookup(state_env(defs.take(j)), defs[j].name@) is None
}

/// Relationship `r` was accepted under the first `m` definitions.
pub open spec fn rel_checked_under(defs: Seq<Assignment>, m: int, r: (String, Expr)) -> bool {
    &&& 0 <= m <= defs.len()
    &&& spec_check_relationship(r.0, r.1, state_env(defs.take(m))) == Ok::<(), GravityError>(())
}

/// Relationship `r` was accepted under some prefix of the definitions.
pub open spec fn rel_checked(defs: Seq<Assignment>, r: (String, Expr)) -> bool {
    exists|m: int| #[trigger] rel_checked_under(defs, m, r)
}

proof fn lemma_state_env_push(defs: Seq<Assignment>, a: Assignment)
    ensures
        state_env(defs.push(a)) == state_env(defs).push((a.name@, a.typ)),
{
    assert(state_env(defs.push(a)) =~= state_env(defs).push((a.name@, a.typ)));
}

proof fn lemma_checked_statements(stmts: Seq<Statement>, n: int, recs: Seq<RecDef>)
    requires
        0 <= n <= stmts.len(),
        statements_after(stmts, n, recs) is Ok,
    ensures
        statements_after(stmts, n, recs) == Ok::<Seq<(Seq<char>, Type)>, GravityError>(state_env(program_defs(stmts, n))),
        forall|j: int| 0 <= j < program_defs(stmts, n).len() ==> #[trigger] def_checked(program_defs(stmts, n), j),
        forall|j: int| 0 <= j < program_rels(stmts, n).len() ==> #[trigger] rel_checked(program_defs(stmts, n), program_rels(stmts, n)[j]),
    decreases n,
{
    if n == 0 {
        assert(state_env(program_defs(stmts, 0)) =~= Seq::<(Seq<char>, Type)>::empty());
    } else {
        lemma_checked_statements(stmts, n - 1, recs);
        let defs = program_defs(stmts, n - 1);
        let rels = program_rels(stmts, n - 1);
        let env = state_env(defs);
        assert(spec_check_statement(stmts[n - 1], env, recs).0 is Ok);
        match stmts[n - 1] {
            Statement::Assignment { typ, name, expr } => {
                let a = Assignment { typ, name, expr };
                assert(lookup(env, name@) is None);
                let defs2 = defs.push(a);
                lemma_insert_absent(env, name@, typ);
                lemma_state_env_push(defs, a);
                assert(defs2.take(defs.len() as int) =~= defs);
                assert forall|j: int| 0 <= j < defs2.len() implies #[trigger] def_checked(defs2, j) by {
                    if j < defs.len() {
                        assert(defs2.take(j) =~= defs.take(j));
                        assert(def_checked(defs, j));
                    }
                }
                assert forall|j: int| 0 <= j < rels.len() implies #[trigger] rel_checked(defs2, rels[j]) by {
                    assert(rel_checked(defs, rels[j]));
                    let m = choose|m: int| #[trigger] rel_checked_under(defs, m, rels[j]);
                    assert(defs2.take(m) =~= defs.take(m));
                    assert(rel_checked_under(defs2, m, rels[j]));
                }
            },
            Statement::Relationship { name, expr } => {
                let rels2 = rels.push((name, expr));
                assert(defs.take(defs.len() as int) =~= defs);
                assert forall|j: int| 0 <= j < rels2.len() implies #[trigger] rel_checked(defs, rels2[j]) by {
                    if j < rels.len() {
                        assert(rel_checked(defs, rels[j]));
                        let m = choose|m: int| #[trigger] rel_checked_under(defs, m, rels[j]);
                        assert(rel_checked_under(defs, m, rels2[j]));
                    } else {
                        assert(rel_checked_under(defs, defs.len() as int, rels2[j]));
                    }
                }
            },
            Statement::Insertion { .. } => {},
        }
    }
}

proof fn lemma_agree_insert(
    env: Seq<(Seq<char>, Type)>,
    vars: Seq<(Seq<char>, ValueModel)>,
    k: Seq<char>,
    t: Type,
    v: ValueModel,
)
    requires
        vars_agree(env, vars),
        model_type(v) == t,
    ensures
        vars_agree(insert_entry(env, k, t), insert_entry(vars, k, v)),
{
    assert forall|k2: Seq<char>| #[trigger] lookup(insert_entry(env, k, t), k2) is Some implies {
        &&& lookup(insert_entry(vars, k, v), k2) is Some
        &&& model_type(lookup(insert_entry(vars, k, v), k2).unwrap()) == lookup(insert_entry(env, k, t), k2).unwrap()
    } by {
        lemma_lookup_insert(env, k, t, k2);
        lemma_lookup_insert(vars, k, v, k2);
        if k2 != k {
            assert(lookup(env, k2) is Some);
        }
    }
}

proof fn lemma_agree_prefix(env: Seq<(Seq<char>, Type)>, m: int, vars: Seq<(Seq<char>, ValueModel)>)
    requires
        0 <= m <= env.len(),
        vars_agree(env, vars),
    ensures
        vars_agree(env.take(m), vars),
{
    assert forall|k: Seq<char>| #[trigger] lookup(env.take(m), k) is Some implies {
        &&& lookup(vars, k) is Some
        &&& model_type(lookup(vars, k).unwrap()) == lookup(env.take(m), k).unwrap()
    } by {
        lemma_lookup_prefix(env, m, k);
        assert(lookup(env, k) is Some);
    }
}

proof fn lemma_state_env_take(defs: Seq<Assignment>, m: int)
    requires
        0 <= m <= defs.len(),
    ensures
        state_env(defs.take(m)) == state_env(defs).take(m),
{
    assert(state_env(defs.take(m)) =~= state_env(defs).take(m));
}

proof fn lemma_defs_agree(defs: Seq<Assignment>, k: int, dec: spec_fn(Op, u64, u64) -> u64)
    requires
        0 <= k <= defs.len(),
        forall|j: int| 0 <= j < defs.len() ==> #[trigger] def_checked(defs, j),
        compute_defs(defs, k, dec) is Some,
    ensures
        vars_agree(state_env(defs.take(k)), compute_defs(defs, k, dec).unwrap()),
    decreases k,
{
    if k == 0 {
        assert(state_env(defs.take(0)) =~= Seq::<(Seq<char>, Type)>::empty());
    } else {
        lemma_defs_agree(defs, k - 1, dec);
        let vars = compute_defs(defs, k - 1, dec).unwrap();
        let env = state_env(defs.take(k - 1));
        let a = defs[k - 1];
        assert(def_checked(defs, k - 1));
        lemma_eval_has_checked_type(a.expr, env, vars, defs, a.name, dec, false, a.typ);
        let v = spec_eval(a.expr, vars, defs, a.name@, dec, false).unwrap();
        lemma_agree_insert(env, vars, a.name@, a.typ, v);
        lemma_insert_absent(env, a.name@, a.typ);
        assert(defs.take(k) =~= defs.take(k - 1).push(a));
        lemma_state_env_push(defs.take(k - 1), a);
    }
}

proof fn lemma_rels_agree(
    defs: Seq<Assignment>,
    rels: Seq<(String, Expr)>,
    k: int,
    start: Seq<(Seq<char>, ValueModel)>,
    dec: spec_fn(Op, u64, u64) -> u64,
)
    requires
        0 <= k <= rels.len(),
        vars_agree(state_env(defs), start),
        forall|j: int| 0 <= j < rels.len() ==> #[trigger] rel_checked(defs, rels[j]),
        compute_rels(rels, k, start, defs, dec) is Some,
    ensures
        vars_agree(state_env(defs), compute_rels(rels, k, start, defs, dec).unwrap()),
    decreases k,
{
    if k > 0 {
        lemma_rels_agree(defs, rels, k - 1, start, dec);
        let vars = compute_rels(rels, k - 1, start, defs, dec).unwrap();
        let r = rels[k - 1];
        assert(rel_checked(defs, r));
        let m = choose|m: int| #[trigger] rel_checked_under(defs, m, r);
        let env = state_env(defs);
        lemma_state_env_take(defs, m);
        let envm = env.take(m);
        lemma_agree_prefix(env, m, vars);
        let t = lookup(envm, r.0@).unwrap();
        lemma_eval_has_checked_type(r.1, envm, vars, defs, r.0, dec, false, t);
        let v = spec_eval(r.1, vars, defs, r.0@, dec, false).unwrap();
        lemma_lookup_prefix(env, m, r.0@);
        lemma_agree_insert(env, vars, r.0@, t, v);
        lemma_index_of(env, r.0@);
        assert(insert_entry(env, r.0@, t) =~= env);
    }
}

/// Once a schema that the checker accepts has been computed, every variable
/// that it defines holds a value of its declared type.
pub proof fn lemma_checked_schema_values_typed(prg: Program, dec: spec_fn(Op, u64, u64) -> u64)
    requires
        spec_run(prg) == Ok::<(), GravityError>(()),
        spec_compute(
            program_defs(prg.slf@, prg.slf@.len() as int),
            program_rels(prg.slf@, prg.slf@.len() as int),
            dec,
        ) is Some,
    ensures
        vars_agree(
            state_env(program_defs(prg.slf@, prg.slf@.len() as int)),
            spec_compute(
                program_defs(prg.slf@, prg.slf@.len() as int),
                program_rels(prg.slf@, prg.slf@.len() as int),
                dec,
            ).unwrap(),
        ),
{
    let stmts = prg.slf@;
    let n = stmts.len() as int;
    let recs = records_after(prg.rec@, prg.rec@.len() as int).unwrap();
    lemma_checked_statements(stmts, n, recs);
    let defs = program_defs(stmts, n);
    let rels = program_rels(stmts, n);
    lemma_defs_agree(defs, defs.len() as int, dec);
    assert(defs.take(defs.len() as int) =~= defs);
    let start = compute_defs(defs, defs.len() as int, dec).unwrap();
    lemma_rels_agree(defs, rels, rels.len() as int, start, dec);
}

} // verus!
