//! The decisions of the interactive shell: what each command does to a
//! state, given the statement that the user's text parsed to. Where the
//! command has no outcome at all (a definition that names a variable that
//! is no longer defined), the result is `None`.
use vstd::prelude::*;

use crate::error::GravityError;
use crate::parse::ast::{keyword_type, Expr, Statement, Type};
use crate::parse::eval::{def_index, find_def, lookup_var, vars_model, Assignment, State};
use crate::parse::typecheck::{
    check_assignment, check_relationship, expr_type_state, refs_defined, refs_resolved, spec_check_assignment,
    spec_check_relationship, spec_expr_type, state_env, TypeEnv,
};
use crate::table::{insert_entry, lemma_index_of_absent, lookup};

verus! {

/// Whether every definition of a state names only defined variables and holds no `%`.
pub open spec fn defs_resolved(defs: Seq<Assignment>) -> bool {
    forall|j: int| 0 <= j < defs.len() ==> #[trigger] refs_resolved(defs[j].expr, state_env(defs))
}

/// The types of the first `n` definitions as their expressions give them
/// (not as they were declared), or the first error.
pub open spec fn computed_env(defs: Seq<Assignment>, n: int) -> Result<Seq<(Seq<char>, Type)>, GravityError>
    decreases n,
{
    if n <= 0 {
        Ok(Seq::empty())
    } else {
        match computed_env(defs, n - 1) {
            Err(err) => Err(err),
            Ok(env) => match spec_expr_type(defs[n - 1].expr, state_env(defs), None) {
                Err(err) => Err(err),
                Ok(t) => Ok(insert_entry(env, defs[n - 1].name@, t)),
            },
        }
    }
}

proof fn lemma_computed_env_failure(defs: Seq<Assignment>, k: int, n: int)
    requires
        k <= n,
        computed_env(defs, k) is Err,
    ensures
        computed_env(defs, n) == computed_env(defs, k),
    decreases n - k,
{
    if k < n {
        lemma_computed_env_failure(defs, k, n - 1);
    }
}

/// Whether every definition of the state names only defined variables and
/// holds no `%`.
pub fn definitions_resolved(state: &State) -> (r: bool)
    ensures
        r == defs_resolved(state.def@),
{
    let n = state.def.len();
    let mut i: usize = 0;
    while i < n
        invariant
            n == state.def.len(),
            i <= n,
            forall|j: int| 0 <= j < i ==> #[trigger] refs_resolved(state.def@[j].expr, state_env(state.def@)),
        decreases n - i,
    {
        if !refs_defined(&state.def[i].expr, &state.def) {
            return false;
        }
        i = i + 1;
    }
    true
}

fn computed_types(state: &State) -> (r: Result<TypeEnv, GravityError>)
    requires
        defs_resolved(state.def@),
    ensures
        match r {
            Ok(env) => computed_env(state.def@, state.def@.len() as int) == Ok::<Seq<(Seq<char>, Type)>, GravityError>(env@),
            Err(err) => computed_env(state.def@, state.def@.len() as int) == Err::<Seq<(Seq<char>, Type)>, GravityError>(err),
        },
{
    let mut env = TypeEnv::new();
    let n = state.def.len();
    let mut i: usize = 0;
    while i < n
        invariant
            n == state.def.len(),
            i <= n,
            defs_resolved(state.def@),
            computed_env(state.def@, i as int) == Ok::<Seq<(Seq<char>, Type)>, GravityError>(env@),
        decreases n - i,
    {
        let d = &state.def[i];
        assert(refs_resolved(state.def@[i as int].expr, state_env(state.def@)));
        match expr_type_state(&d.expr, state) {
            Ok(t) => {
                env.insert(d.name.clone(), t);
            },
            Err(err) => {
                proof {
                    lemma_computed_env_failure(state.def@, i + 1, n as int);
                }
                return Err(err);
            },
        }
        i = i + 1;
    }
    Ok(env)
}

/// What adding the definition `stmt` (parsed from `typ ident = ...;`) does:
/// `None` where a definition of the state names an undefined variable;
/// otherwise the outcome and the definitions afterwards. The new definition
/// is checked against the types that the state's expressions compute, must
/// not name a variable that has a value, and goes last.
pub open spec fn spec_add(defs: Seq<Assignment>, has_value: bool, typ: Seq<char>, ident: String, stmt: Statement) -> Option<(Result<(), GravityError>, Seq<Assignment>)> {
    if !defs_resolved(defs) {
        None
    } else {
        match computed_env(defs, defs.len() as int) {
            Err(err) => Some((Err(err), defs)),
            Ok(env) => match keyword_type(typ) {
                None => Some((Err(GravityError::InvalidString), defs)),
                Some(t) => match stmt {
                    Statement::Assignment { typ: styp, name, expr } => match spec_check_assignment(t, ident, expr, env).0 {
                        Err(err) => Some((Err(err), defs)),
                        Ok(()) => if has_value {
                            Some((Err(GravityError::Duplication(ident)), defs))
                        } else {
                            Some((Ok(()), defs.push(Assignment { typ: styp, name, expr })))
                        },
                    },
                    _ => None,
                },
            },
        }
    }
}

/// Adds a definition (the shell's `add`). `stmt` is the definition that
/// the text `typ ident = value;` parsed to.
pub fn add_definition(state: &mut State, typ: &str, ident: &String, stmt: Statement) -> (r: Option<Result<(), GravityError>>)
    requires
        stmt is Assignment,
    ensures
        final(state).rel@ == old(state).rel@,
        final(state).vars == old(state).vars,
        match spec_add(old(state).def@, lookup(vars_model(old(state).vars), ident@) is Some, typ@, *ident, stmt) {
            None => r is None && final(state).def@ == old(state).def@,
            Some((res, defs)) => r == Some(res) && final(state).def@ == defs,
        },
{
    if !definitions_resolved(state) {
        return None;
    }
    let mut defined = match computed_types(state) {
        Ok(env) => env,
        Err(err) => return Some(Err(err)),
    };
    let t = match Type::try_from(typ) {
        Ok(t) => t,
        Err(err) => return Some(Err(err)),
    };
    let a = Assignment::from_statement(stmt);
    match check_assignment(&t, ident, &a.expr, &mut defined) {
        Ok(()) => {},
        Err(err) => return Some(Err(err)),
    }
    if lookup_var(&state.vars, ident).is_some() {
        return Some(Err(GravityError::Duplication(ident.clone())));
    }
    state.def.push(a);
    Some(Ok(()))
}

/// The definitions without those of `ident`.
pub open spec fn defs_without(defs: Seq<Assignment>, ident: Seq<char>) -> Seq<Assignment> {
    defs.filter(|d: Assignment| d.name@ != ident)
}

/// The relationships without those of `ident`.
pub open spec fn rels_without(rels: Seq<(String, Expr)>, ident: Seq<char>) -> Seq<(String, Expr)> {
    rels.filter(|r: (String, Expr)| r.0@ != ident)
}

/// Removes every definition and every relationship of `ident` (the shell's `remove`).
pub fn remove_variable(state: &mut State, ident: &String)
    ensures
        final(state).def@ == defs_without(old(state).def@, ident@),
        final(state).rel@ == rels_without(old(state).rel@, ident@),
        final(state).vars == old(state).vars,
{
    let mut defs: Vec<Assignment> = Vec::new();
    let ghost od = state.def@;
    let mut old_defs: Vec<Assignment> = Vec::new();
    std::mem::swap(&mut old_defs, &mut state.def);
    for d in it: old_defs.into_iter()
        invariant
            it.seq() == od,
            defs@ == defs_without(od.take(it.index() as int), ident@),
    {
        proof {
            let k = it.index() as int;
            assert(od.take(k + 1).drop_last() =~= od.take(k));
            assert(od.take(k + 1).last() == d);
            lemma_filter_push(od.take(k), d, |x: Assignment| x.name@ != ident@);
            assert(od.take(k).push(d) =~= od.take(k + 1));
        }
        if d.name != *ident {
            defs.push(d);
        }
    }
    assert(od.take(od.len() as int) =~= od);
    state.def = defs;

    let ghost orl = state.rel@;
    let mut rels: Vec<(String, Expr)> = Vec::new();
    let mut old_rels: Vec<(String, Expr)> = Vec::new();
    std::mem::swap(&mut old_rels, &mut state.rel);
    for r in it: old_rels.into_iter()
        invariant
            it.seq() == orl,
            rels@ == rels_without(orl.take(it.index() as int), ident@),
    {
        proof {
            let k = it.index() as int;
            lemma_filter_push(orl.take(k), r, |x: (String, Expr)| x.0@ != ident@);
            assert(orl.take(k).push(r) =~= orl.take(k + 1));
        }
        if r.0 != *ident {
            rels.push(r);
        }
    }
    assert(orl.take(orl.len() as int) =~= orl);
    state.rel = rels;
}

proof fn lemma_filter_push<A>(s: Seq<A>, x: A, p: spec_fn(A) -> bool)
    ensures
        s.push(x).filter(p) == (if p(x) { s.filter(p).push(x) } else { s.filter(p) }),
{
    reveal_with_fuel(Seq::filter, 1);
    assert(s.push(x).drop_last() =~= s);
}


/// Whether `ident` has a definition.
pub open spec fn has_def(defs: Seq<Assignment>, ident: Seq<char>) -> bool {
    def_index(defs, ident) is Some
}

/// What relating `ident` to the relationship `parsed` (the outcome of
/// parsing the text `ident <- ...;`) does: `None` where a definition names
/// an undefined variable; otherwise the outcome and the relationships
/// afterwards. `ident` must be defined, the text must have parsed, and the
/// expression must check against the types that the state's expressions
/// compute; the relationship then goes last.
pub open spec fn spec_relate(defs: Seq<Assignment>, rels: Seq<(String, Expr)>, ident: String, parsed: Result<Statement, GravityError>) -> Option<(Result<(), GravityError>, Seq<(String, Expr)>)> {
    if !has_def(defs, ident@) {
        Some((Err(GravityError::UndefinedVariable(ident)), rels))
    } else {
        match parsed {
            Err(err) => Some((Err(err), rels)),
            Ok(Statement::Relationship { name, expr }) => if !defs_resolved(defs) {
                None
            } else {
                match computed_env(defs, defs.len() as int) {
                    Err(err) => Some((Err(err), rels)),
                    Ok(env) => match spec_check_relationship(ident, expr, env) {
                        Err(err) => Some((Err(err), rels)),
                        Ok(()) => Some((Ok(()), rels.push((ident, expr)))),
                    },
                }
            },
            Ok(_) => None,
        }
    }
}

/// Adds a relationship (the shell's `relate`). `parsed` is the outcome of
/// parsing the text `ident <- expr;`.
pub fn relate_variable(state: &mut State, ident: &String, parsed: Result<Statement, GravityError>) -> (r: Option<Result<(), GravityError>>)
    requires
        parsed is Ok ==> parsed->Ok_0 is Relationship,
    ensures
        final(state).def@ == old(state).def@,
        final(state).vars == old(state).vars,
        match spec_relate(old(state).def@, old(state).rel@, *ident, parsed) {
            None => r is None && final(state).rel@ == old(state).rel@,
            Some((res, rels)) => r == Some(res) && final(state).rel@ == rels,
        },
{
    if find_def(&state.def, ident).is_none() {
        return Some(Err(GravityError::UndefinedVariable(ident.clone())));
    }
    let stmt = match parsed {
        Ok(st) => st,
        Err(err) => return Some(Err(err)),
    };
    let expr = match stmt {
        Statement::Relationship { name: _, expr } => expr,
        _ => {
            proof {
                assert(false);
            }
            return None;
        },
    };
    if !definitions_resolved(state) {
        return None;
    }
    let mut defined = match computed_types(state) {
        Ok(env) => env,
        Err(err) => return Some(Err(err)),
    };
    match check_relationship(ident, &expr, &mut defined) {
        Ok(()) => {},
        Err(err) => return Some(Err(err)),
    }
    state.rel.push((ident.clone(), expr));
    Some(Ok(()))
}

/// The expressions of the relationships of `ident`, in order.
pub open spec fn rel_exprs(rels: Seq<(String, Expr)>, ident: Seq<char>) -> Seq<Expr> {
    rels_of(rels, ident).map_values(|r: (String, Expr)| r.1)
}

/// The relationships of `ident`, in order.
pub open spec fn rels_of(rels: Seq<(String, Expr)>, ident: Seq<char>) -> Seq<(String, Expr)> {
    rels.filter(|r: (String, Expr)| r.0@ == ident)
}

/// What the shell's `rels` shows for `ident`: the texts of its
/// relationships, one per line, or nothing where it has none. `ident` must
/// be defined.
pub open spec fn spec_relates(defs: Seq<Assignment>, rels: Seq<(String, Expr)>, ident: String, dtext: spec_fn(u64) -> Seq<char>) -> Result<Option<Seq<char>>, GravityError> {
    if !has_def(defs, ident@) {
        Err(GravityError::UndefinedVariable(ident))
    } else if rels_of(rels, ident@).len() == 0 {
        Ok(None)
    } else {
        Ok(Some(crate::join_lines(rel_exprs(rels, ident@).map_values(|e: Expr| crate::expr_text(e, dtext)))))
    }
}

/// The relationships of `ident` as text (the shell's `rels`).
pub fn relates<G: Fn(u64) -> String>(state: &State, ident: &String, fmt: &G) -> (r: Result<Option<String>, GravityError>)
    requires
        crate::decimal_printer(*fmt),
    ensures
        match spec_relates(state.def@, state.rel@, *ident, crate::decimal_text(*fmt)) {
            Ok(Some(t)) => r matches Ok(Some(s)) && s@ == t,
            Ok(None) => r == Ok::<Option<String>, GravityError>(None),
            Err(err) => r == Err::<Option<String>, GravityError>(err),
        },
{
    if find_def(&state.def, ident).is_none() {
        return Err(GravityError::UndefinedVariable(ident.clone()));
    }
    let ghost dt = crate::decimal_text(*fmt);
    let ghost rs = state.rel@;
    let mut out = String::new();
    let mut count: usize = 0;
    let n = state.rel.len();
    let mut i: usize = 0;
    while i < n
        invariant
            crate::decimal_printer(*fmt),
            dt == crate::decimal_text(*fmt),
            rs == state.rel@,
            n == rs.len(),
            i <= n,
            count == rels_of(rs.take(i as int), ident@).len(),
            out@ == crate::join_lines(rel_exprs(rs.take(i as int), ident@).map_values(|e: Expr| crate::expr_text(e, dt))),
        decreases n - i,
    {
        let ghost lines = rel_exprs(rs.take(i as int), ident@).map_values(|e: Expr| crate::expr_text(e, dt));
        proof {
            lemma_filter_push(rs.take(i as int), rs[i as int], |r: (String, Expr)| r.0@ == ident@);
            assert(rs.take(i as int).push(rs[i as int]) =~= rs.take(i + 1));
        }
        if state.rel[i].0 == *ident {
            let line = crate::expr_to_string(&state.rel[i].1, fmt);
            proof {
                assert(rel_exprs(rs.take(i + 1), ident@).map_values(|e: Expr| crate::expr_text(e, dt)) =~= lines.push(line@));
            }
            crate::push_line(&mut out, &line, count == 0, Ghost(lines));
            count = count + 1;
        } else {
            proof {
                assert(rel_exprs(rs.take(i + 1), ident@).map_values(|e: Expr| crate::expr_text(e, dt)) =~= lines);
            }
        }
        i = i + 1;
    }
    assert(rs.take(n as int) =~= rs);
    if count == 0 {
        Ok(None)
    } else {
        Ok(Some(out))
    }
}

/// What setting `ident` to the value of the definition `parsed` (the
/// outcome of parsing the text `num _d = ...;`) does: `None` where the new
/// expression names an undefined variable or holds `%`; otherwise the
/// outcome and the definitions afterwards. The expression replaces that of
/// the first definition of `ident` when its type is that definition's type.
pub open spec fn spec_set(defs: Seq<Assignment>, ident: String, parsed: Result<Statement, GravityError>) -> Option<(Result<(), GravityError>, Seq<Assignment>)> {
    match def_index(defs, ident@) {
        None => Some((Err(GravityError::UndefinedVariable(ident)), defs)),
        Some(i) => match parsed {
            Err(err) => Some((Err(err), defs)),
            Ok(Statement::Assignment { typ: _, name: _, expr }) => if !refs_resolved(expr, state_env(defs)) {
                None
            } else {
                match spec_expr_type(expr, state_env(defs), None) {
                    Err(err) => Some((Err(err), defs)),
                    Ok(t) => if t != defs[i].typ {
                        Some((Err(GravityError::AssignmentMismatch(ident, defs[i].typ, t)), defs))
                    } else {
                        Some((Ok(()), defs.update(i, Assignment { typ: defs[i].typ, name: defs[i].name, expr })))
                    },
                }
            },
            Ok(_) => None,
        },
    }
}

/// Changes the expression of a definition (the shell's `set`). `parsed` is
/// the outcome of parsing the text `num _d = value;`.
pub fn set_variable(state: &mut State, ident: &String, parsed: Result<Statement, GravityError>) -> (r: Option<Result<(), GravityError>>)
    requires
        parsed is Ok ==> parsed->Ok_0 is Assignment,
    ensures
        final(state).rel@ == old(state).rel@,
        final(state).vars == old(state).vars,
        match spec_set(old(state).def@, *ident, parsed) {
            None => r is None && final(state).def@ == old(state).def@,
            Some((res, defs)) => r == Some(res) && final(state).def@ == defs,
        },
{
    let i = match find_def(&state.def, ident) {
        None => return Some(Err(GravityError::UndefinedVariable(ident.clone()))),
        Some(i) => i,
    };
    let stmt = match parsed {
        Ok(st) => st,
        Err(err) => return Some(Err(err)),
    };
    let new_expr = match stmt {
        Statement::Assignment { typ: _, name: _, expr } => expr,
        _ => {
            proof {
                assert(false);
            }
            return None;
        },
    };
    if !refs_defined(&new_expr, &state.def) {
        return None;
    }
    let expr_type = match expr_type_state(&new_expr, state) {
        Ok(t) => t,
        Err(err) => return Some(Err(err)),
    };
    let typ = state.def[i].typ;
    if expr_type != typ {
        return Some(Err(GravityError::AssignmentMismatch(ident.clone(), typ, expr_type)));
    }
    let name = state.def[i].name.clone();
    state.def.set(i, Assignment { typ, name, expr: new_expr });
    Some(Ok(()))
}

/// Once a relationship of a variable is accepted, the shell's `rels` for
/// that variable shows what it showed before, then the new relationship on
/// a line of its own.
pub proof fn lemma_relate_then_relates(
    defs: Seq<Assignment>,
    rels: Seq<(String, Expr)>,
    ident: String,
    parsed: Result<Statement, GravityError>,
    dtext: spec_fn(u64) -> Seq<char>,
)
    requires
        spec_relate(defs, rels, ident, parsed) matches Some((Ok(()), _)),
    ensures
        parsed matches Ok(Statement::Relationship { name: _, expr }) && spec_relates(
            defs,
            spec_relate(defs, rels, ident, parsed).unwrap().1,
            ident,
            dtext,
        ) == Ok::<Option<Seq<char>>, GravityError>(Some(match spec_relates(defs, rels, ident, dtext) {
            Ok(Some(before)) => before + seq!['\n'] + crate::expr_text(expr, dtext),
            _ => crate::expr_text(expr, dtext),
        })),
{
    let expr = parsed->Ok_0->Relationship_expr;
    let rels2 = rels.push((ident, expr));
    assert(spec_relate(defs, rels, ident, parsed).unwrap().1 == rels2);
    let p = |r: (String, Expr)| r.0@ == ident@;
    lemma_filter_push(rels, (ident, expr), p);
    assert(rels_of(rels2, ident@) == rels_of(rels, ident@).push((ident, expr)));
    let before = rel_exprs(rels, ident@).map_values(|e: Expr| crate::expr_text(e, dtext));
    let after = rel_exprs(rels2, ident@).map_values(|e: Expr| crate::expr_text(e, dtext));
    assert(after =~= before.push(crate::expr_text(expr, dtext)));
    assert(after.drop_last() =~= before);
    if rels_of(rels, ident@).len() == 0 {
        assert(crate::join_lines(after) == after[0]);
    }
}

/// Once a variable is removed, no definition and no relationship of it is
/// left, and the shell's `rels` answers that it is not defined.
pub proof fn lemma_remove_then_relates(
    defs: Seq<Assignment>,
    rels: Seq<(String, Expr)>,
    ident: String,
    dtext: spec_fn(u64) -> Seq<char>,
)
    ensures
        !has_def(defs_without(defs, ident@), ident@),
        rels_of(rels_without(rels, ident@), ident@).len() == 0,
        spec_relates(defs_without(defs, ident@), rels_without(rels, ident@), ident, dtext)
            == Err::<Option<Seq<char>>, GravityError>(GravityError::UndefinedVariable(ident)),
{
    broadcast use vstd::seq_lib::group_filter_ensures;

    let d = defs_without(defs, ident@);
    let m = d.map_values(|a: Assignment| (a.name@, a));
    assert forall|j: int| 0 <= j < m.len() implies #[trigger] m[j].0 != ident@ by {
        assert(m[j].0 == d[j].name@);
    }
    lemma_index_of_absent(m, ident@);
    let r = rels_without(rels, ident@);
    let q = rels_of(r, ident@);
    if q.len() > 0 {
        assert(q[0].0@ == ident@);
        assert(q.contains(q[0]));
        r.lemma_filter_contains_rev(|r: (String, Expr)| r.0@ == ident@, q[0]);
        assert(r.contains(q[0]));
        let k = choose|k: int| 0 <= k < r.len() && r[k] == q[0];
        assert(r[k].0@ != ident@);
    }
}

} // verus!
