use vstd::prelude::*;

use crate::error::GravityError;
use crate::parse::ast::{Expr, Program, RecDef, RecField, Statement, Type};
use crate::parse::eval::{find_def, Assignment, State};
use crate::table::{index_of, insert_entry, lemma_index_of, lemma_index_of_absent, lemma_index_of_at, lemma_index_of_same_names, lookup};

verus! {

/// The declared type of each name, in order of declaration.
pub struct TypeEnv {
    pub entries: Vec<(String, Type)>,
}

impl View for TypeEnv {
    type V = Seq<(Seq<char>, Type)>;

    open spec fn view(&self) -> Seq<(Seq<char>, Type)> {
        self.entries@.map_values(|e: (String, Type)| (e.0@, e.1))
    }
}

impl TypeEnv {
    /// An environment with no names.
    pub fn new() -> (r: TypeEnv)
        ensures
            r@ == Seq::<(Seq<char>, Type)>::empty(),
    {
        let r = TypeEnv { entries: Vec::new() };
        assert(r@ =~= Seq::<(Seq<char>, Type)>::empty());
        r
    }

    fn position(&self, k: &String) -> (r: Option<usize>)
        ensures
            r matches Some(i) ==> index_of(self@, k@) == Some(i as int) && i < self.entries.len(),
            r is None ==> index_of(self@, k@) is None,
    {
        let n = self.entries.len();
        let mut i: usize = 0;
        while i < n
            invariant
                n == self.entries.len(),
                i <= n,
                forall|j: int| 0 <= j < i ==> (#[trigger] self@[j]).0 != k@,
            decreases n - i,
        {
            if self.entries[i].0 == *k {
                proof {
                    lemma_index_of_at(self@, k@, i as int);
                }
                return Some(i);
            }
            i = i + 1;
        }
        proof {
            lemma_index_of_absent(self@, k@);
        }
        None
    }

    /// The declared type of `k`.
    pub fn get(&self, k: &String) -> (r: Option<Type>)
        ensures
            r == lookup(self@, k@),
    {
        match self.position(k) {
            Some(i) => {
                assert(self@[i as int] == (self.entries@[i as int].0@, self.entries@[i as int].1));
                Some(self.entries[i].1)
            },
            None => None,
        }
    }

    /// Declares `k` with type `t`, replacing an earlier declaration in its
    /// place; returns the type that `k` had before.
    pub fn insert(&mut self, k: String, t: Type) -> (r: Option<Type>)
        ensures
            final(self)@ == insert_entry(old(self)@, k@, t),
            r == lookup(old(self)@, k@),
    {
        match self.position(&k) {
            Some(i) => {
                assert(self@[i as int] == (self.entries@[i as int].0@, self.entries@[i as int].1));
                let prev = self.entries[i].1;
                let ghost kv = k@;
                self.entries.set(i, (k, t));
                assert(self@ =~= old(self)@.update(i as int, (kv, t)));
                Some(prev)
            },
            None => {
                let ghost kv = k@;
                self.entries.push((k, t));
                assert(self@ =~= old(self)@.push((kv, t)));
                None
            },
        }
    }
}

/// The type of an expression under `env`. `self_name` is the variable that a
/// self reference (`%`) stands for; where there is none, `%` is refused.
pub open spec fn spec_expr_type(e: Expr, env: Seq<(Seq<char>, Type)>, self_name: Option<String>) -> Result<Type, GravityError>
    decreases e,
{
    match e {
        Expr::Number(_) => Ok(Type::Number),
        Expr::Decimal(_) => Ok(Type::Decimal),
        Expr::Text(_) => Ok(Type::Text),
        Expr::Bool(_) => Ok(Type::Bool),
        Expr::Ident(n) => match lookup(env, n@) {
            Some(t) => Ok(t),
            None => Err(GravityError::UndefinedVariable(n)),
        },
        Expr::BinOp(lhs, _, rhs) => match spec_expr_type(*lhs, env, self_name) {
            Err(err) => Err(err),
            Ok(l) => match spec_expr_type(*rhs, env, self_name) {
                Err(err) => Err(err),
                Ok(r) => if l == r {
                    Ok(l)
                } else {
                    Err(GravityError::TypeMismatch(r, l))
                },
            },
        },
        Expr::SelfRef => match self_name {
            Some(name) => match lookup(env, name@) {
                Some(t) => Ok(t),
                None => Err(GravityError::UndefinedVariable(name)),
            },
            None => Err(GravityError::SelfRef),
        },
        Expr::Negate(inner) => match spec_expr_type(*inner, env, self_name) {
            Err(err) => Err(err),
            Ok(t) => if t == Type::Number || t == Type::Decimal {
                Ok(t)
            } else {
                Err(GravityError::InvalidNegation(t))
            },
        },
        Expr::Factorial(inner, _) => match spec_expr_type(*inner, env, self_name) {
            Err(err) => Err(err),
            Ok(t) => if t == Type::Number {
                Ok(t)
            } else {
                Err(GravityError::InvalidFactorial(t))
            },
        },
    }
}

fn type_of(expr: &Expr, def: &TypeEnv, self_name: Option<&String>) -> (r: Result<Type, GravityError>)
    ensures
        r == spec_expr_type(
            *expr,
            def@,
            match self_name {
                Some(n) => Some(*n),
                None => None,
            },
        ),
    decreases expr,
{
    match expr {
        Expr::Number(_) => Ok(Type::Number),
        Expr::Decimal(_) => Ok(Type::Decimal),
        Expr::Text(_) => Ok(Type::Text),
        Expr::Bool(_) => Ok(Type::Bool),
        Expr::Ident(n) => match def.get(n) {
            Some(t) => Ok(t),
            None => Err(GravityError::UndefinedVariable(n.clone())),
        },
        Expr::BinOp(lhs, _, rhs) => {
            let l = type_of(lhs, def, self_name)?;
            let r = type_of(rhs, def, self_name)?;
            if l == r {
                return Ok(l);
            }
            Err(GravityError::TypeMismatch(r, l))
        },
        Expr::SelfRef => match self_name {
            Some(name) => match def.get(name) {
                Some(t) => Ok(t),
                None => Err(GravityError::UndefinedVariable(name.clone())),
            },
            None => Err(GravityError::SelfRef),
        },
        Expr::Negate(inner) => {
            let expr_t = type_of(inner, def, self_name)?;
            match expr_t {
                Type::Number | Type::Decimal => Ok(expr_t),
                _ => Err(GravityError::InvalidNegation(expr_t)),
            }
        },
        Expr::Factorial(inner, _) => {
            let expr_t = type_of(inner, def, self_name)?;
            match expr_t {
                Type::Number => Ok(expr_t),
                _ => Err(GravityError::InvalidFactorial(expr_t)),
            }
        },
    }
}

/// The type of an expression of a definition or relationship of `name`, in
/// which `%` stands for `name`.
pub fn expr_type(expr: &Expr, def: &TypeEnv, name: &String) -> (r: Result<Type, GravityError>)
    ensures
        r == spec_expr_type(*expr, def@, Some(*name)),
{
    type_of(expr, def, Some(name))
}

/// The type of an expression given for a record field, where `%` has no meaning.
pub fn expr_type_insertion(expr: &Expr, def: &TypeEnv) -> (r: Result<Type, GravityError>)
    ensures
        r == spec_expr_type(*expr, def@, None),
{
    type_of(expr, def, None)
}


/// What checking a definition `typ name = expr;` gives: the checked type and
/// the environment afterwards. The name is declared even where it was
/// declared before, and that is then reported as a duplicate.
pub open spec fn spec_check_assignment(typ: Type, name: String, expr: Expr, env: Seq<(Seq<char>, Type)>) -> (Result<(), GravityError>, Seq<(Seq<char>, Type)>) {
    match spec_expr_type(expr, env, Some(name)) {
        Err(err) => (Err(err), env),
        Ok(t) => if typ != t {
            (Err(GravityError::AssignmentMismatch(name, typ, t)), env)
        } else if lookup(env, name@) is Some {
            (Err(GravityError::Duplication(name)), insert_entry(env, name@, typ))
        } else {
            (Ok(()), insert_entry(env, name@, typ))
        },
    }
}

/// Checks a definition `typ name = expr;` and declares `name`.
pub fn check_assignment(typ: &Type, name: &String, expr: &Expr, def: &mut TypeEnv) -> (r: Result<(), GravityError>)
    ensures
        (r, final(def)@) == spec_check_assignment(*typ, *name, *expr, old(def)@),
{
    let expr_t = expr_type(expr, def, name)?;

    if *typ != expr_t {
        return Err(GravityError::AssignmentMismatch(name.clone(), *typ, expr_t));
    }

    if def.insert(name.clone(), *typ).is_some() {
        return Err(GravityError::Duplication(name.clone()));
    }

    Ok(())
}

/// What checking a relationship `name <- expr;` gives.
pub open spec fn spec_check_relationship(name: String, expr: Expr, env: Seq<(Seq<char>, Type)>) -> Result<(), GravityError> {
    match lookup(env, name@) {
        None => Err(GravityError::UndefinedVariable(name)),
        Some(typ) => match spec_expr_type(expr, env, Some(name)) {
            Err(err) => Err(err),
            Ok(t) => if typ != t {
                Err(GravityError::AssignmentMismatch(name, typ, t))
            } else {
                Ok(())
            },
        },
    }
}

/// Checks a relationship `name <- expr;`: `name` must be declared, and the
/// expression must have its type.
pub fn check_relationship(name: &String, expr: &Expr, def: &mut TypeEnv) -> (r: Result<(), GravityError>)
    ensures
        r == spec_check_relationship(*name, *expr, old(def)@),
        final(def)@ == old(def)@,
{
    let typ = match def.get(name) {
        None => return Err(GravityError::UndefinedVariable(name.clone())),
        Some(t) => t,
    };
    let expr_t = expr_type(expr, def, name)?;
    if typ != expr_t {
        return Err(GravityError::AssignmentMismatch(name.clone(), typ, expr_t));
    }

    Ok(())
}

/// The index of the first record definition named `name`.
pub open spec fn record_index(defs: Seq<RecDef>, name: Seq<char>) -> Option<int> {
    index_of(defs.map_values(|d: RecDef| (d.name@, d)), name)
}

/// The outcome of checking the values given for the fields from `i` on.
pub open spec fn spec_check_fields(target: String, exprs: Seq<Expr>, fields: Seq<RecField>, env: Seq<(Seq<char>, Type)>, i: int) -> Result<(), GravityError>
    decreases exprs.len() - i,
{
    if i < 0 || i >= exprs.len() || i >= fields.len() {
        Ok(())
    } else {
        match spec_expr_type(exprs[i], env, None) {
            Err(err) => Err(err),
            Ok(t) => if t != fields[i].typ {
                Err(GravityError::WrongInsertionType(target, fields[i].name, fields[i].typ, t))
            } else {
                spec_check_fields(target, exprs, fields, env, i + 1)
            },
        }
    }
}

/// What checking an insertion of `exprs` into the record `target` gives.
pub open spec fn spec_check_insertion(target: String, exprs: Seq<Expr>, defs: Seq<RecDef>, env: Seq<(Seq<char>, Type)>) -> Result<(), GravityError> {
    match record_index(defs, target@) {
        None => Err(GravityError::UndefinedVariable(target)),
        Some(i) => {
            let fields = defs[i].fields@;
            if exprs.len() != fields.len() {
                Err(GravityError::WrongInsertionCount(target, fields.len() as usize, exprs.len() as usize))
            } else {
                spec_check_fields(target, exprs, fields, env, 0)
            }
        },
    }
}

fn find_record(def: &Vec<RecDef>, target: &String) -> (r: Option<usize>)
    ensures
        r matches Some(i) ==> record_index(def@, target@) == Some(i as int) && i < def.len(),
        r is None ==> record_index(def@, target@) is None,
{
    let ghost keyed = def@.map_values(|d: RecDef| (d.name@, d));
    let n = def.len();
    let mut i: usize = 0;
    while i < n
        invariant
            n == def.len(),
            i <= n,
            keyed == def@.map_values(|d: RecDef| (d.name@, d)),
            forall|j: int| 0 <= j < i ==> (#[trigger] keyed[j]).0 != target@,
        decreases n - i,
    {
        if def[i].name == *target {
            proof {
                lemma_index_of_at(keyed, target@, i as int);
            }
            return Some(i);
        }
        i = i + 1;
    }
    proof {
        lemma_index_of_absent(keyed, target@);
    }
    None
}

/// Checks an insertion of `exprs` into the record `target`: the record must
/// be defined, one value must be given for each field, and each value must
/// have the type of its field. The first failure is reported.
pub fn check_insertion(target: &String, exprs: &Vec<Expr>, def: &mut Vec<RecDef>, vars: &TypeEnv) -> (r: Result<(), GravityError>)
    ensures
        r == spec_check_insertion(*target, exprs@, old(def)@, vars@),
        final(def)@ == old(def)@,
{
    let idx = match find_record(def, target) {
        None => return Err(GravityError::UndefinedVariable(target.clone())),
        Some(i) => i,
    };
    let target_def = &def[idx];
    let nfields = target_def.fields.len();

    if exprs.len() != nfields {
        return Err(GravityError::WrongInsertionCount(target.clone(), nfields, exprs.len()));
    }

    let mut i: usize = 0;
    while i < nfields
        invariant
            idx < def.len(),
            target_def == def@[idx as int],
            nfields == target_def.fields.len(),
            exprs.len() == nfields,
            i <= nfields,
            spec_check_insertion(*target, exprs@, def@, vars@)
                == spec_check_fields(*target, exprs@, target_def.fields@, vars@, i as int),
        decreases nfields - i,
    {
        let field = &target_def.fields[i];
        let expr_t = expr_type_insertion(&exprs[i], vars)?;
        if expr_t != field.typ {
            return Err(GravityError::WrongInsertionType(target.clone(), field.name.clone(), field.typ, expr_t));
        }
        i = i + 1;
    }

    Ok(())
}


/// Whether some field before index `i` is a key.
pub open spec fn key_before(fields: Seq<RecField>, i: int) -> bool {
    exists|j: int| 0 <= j < i && (#[trigger] fields[j]).is_key
}

/// Whether some field before index `i` has the name of field `i`.
pub open spec fn name_before(fields: Seq<RecField>, i: int) -> bool {
    exists|j: int| 0 <= j < i && (#[trigger] fields[j]).name@ == fields[i].name@
}

/// The rule, if any, that field `i` of the record `rec` breaks given the
/// fields before it: a second key, a key of type bool or dec, or a name
/// used before.
pub open spec fn field_error(fields: Seq<RecField>, i: int, rec: String) -> Option<GravityError> {
    let f = fields[i];
    if f.is_key && key_before(fields, i) {
        Some(GravityError::MultipleKeys(rec))
    } else if f.is_key && (f.typ == Type::Bool || f.typ == Type::Decimal) {
        Some(GravityError::WrongKey(rec))
    } else if name_before(fields, i) {
        Some(GravityError::Duplication(f.name))
    } else {
        None
    }
}

/// The error of the first field, from index `i` on, that breaks a rule.
pub open spec fn first_field_error(fields: Seq<RecField>, i: int, rec: String) -> Option<GravityError>
    decreases fields.len() - i,
{
    if i < 0 || i >= fields.len() {
        None
    } else {
        match field_error(fields, i, rec) {
            Some(err) => Some(err),
            None => first_field_error(fields, i + 1, rec),
        }
    }
}

/// What checking the record definition `recd` against the records defined
/// before gives: the outcome and the records defined afterwards.
pub open spec fn spec_check_record_def(recd: RecDef, defs: Seq<RecDef>) -> (Result<(), GravityError>, Seq<RecDef>) {
    if record_index(defs, recd.name@) is Some {
        (Err(GravityError::Duplication(recd.name)), defs)
    } else {
        match first_field_error(recd.fields@, 0, recd.name) {
            Some(err) => (Err(err), defs),
            None => if !key_before(recd.fields@, recd.fields@.len() as int) {
                (Err(GravityError::MissingKey(recd.name)), defs)
            } else {
                (Ok(()), defs.push(recd))
            },
        }
    }
}

proof fn lemma_first_field_error_step(fields: Seq<RecField>, i: int, rec: String)
    requires
        0 <= i < fields.len(),
        field_error(fields, i, rec) is None,
    ensures
        first_field_error(fields, i, rec) == first_field_error(fields, i + 1, rec),
{
}

fn names_contain(names: &Vec<String>, name: &String) -> (r: bool)
    ensures
        r == (exists|j: int| 0 <= j < names@.len() && (#[trigger] names@[j])@ == name@),
{
    let n = names.len();
    let mut i: usize = 0;
    while i < n
        invariant
            n == names.len(),
            i <= n,
            forall|j: int| 0 <= j < i ==> (#[trigger] names@[j])@ != name@,
        decreases n - i,
    {
        if names[i] == *name {
            return true;
        }
        i = i + 1;
    }
    false
}

/// Checks a record definition and, where it is accepted, adds it to the
/// records defined so far. A record is refused when its name is taken, when
/// a field breaks a rule (see `field_error`) or when it has no key.
pub fn check_record_def(recd: RecDef, def: &mut Vec<RecDef>) -> (r: Result<(), GravityError>)
    ensures
        (r, final(def)@) == spec_check_record_def(recd, old(def)@),
{
    if find_record(def, &recd.name).is_some() {
        return Err(GravityError::Duplication(recd.name));
    }

    let mut field_names: Vec<String> = Vec::new();
    let mut key_count: usize = 0;
    let n = recd.fields.len();
    let ghost fields = recd.fields@;

    let mut i: usize = 0;
    while i < n
        invariant
            fields == recd.fields@,
            def@ == old(def)@,
            record_index(def@, recd.name@) is None,
            n == fields.len(),
            i <= n,
            key_count == (if key_before(fields, i as int) { 1usize } else { 0usize }),
            field_names@.len() == i,
            forall|j: int| 0 <= j < i ==> (#[trigger] field_names@[j])@ == fields[j].name@,
            first_field_error(fields, 0, recd.name) == first_field_error(fields, i as int, recd.name),
        decreases n - i,
    {
        let field = &recd.fields[i];
        if field.is_key {
            if key_count == 1 {
                assert(field_error(fields, i as int, recd.name) == Some(GravityError::MultipleKeys(recd.name)));
                return Err(GravityError::MultipleKeys(recd.name.clone()));
            }
            match field.typ {
                Type::Bool | Type::Decimal => {
                    assert(field_error(fields, i as int, recd.name) == Some(GravityError::WrongKey(recd.name)));
                    return Err(GravityError::WrongKey(recd.name.clone()));
                },
                _ => {},
            }
            key_count = key_count + 1;
        }

        let dup = names_contain(&field_names, &field.name);
        proof {
            if dup {
                let j = choose|j: int| 0 <= j < field_names@.len() && (#[trigger] field_names@[j])@ == field.name@;
                assert(fields[j].name@ == fields[i as int].name@);
                assert(name_before(fields, i as int));
            } else {
                assert forall|j: int| 0 <= j < i implies (#[trigger] fields[j]).name@ != fields[i as int].name@ by {
                    assert(field_names@[j]@ == fields[j].name@);
                }
            }
        }
        if dup {
            assert(field_error(fields, i as int, recd.name) == Some(GravityError::Duplication(field.name)));
            return Err(GravityError::Duplication(field.name.clone()));
        }
        field_names.push(field.name.clone());
        proof {
            lemma_first_field_error_step(fields, i as int, recd.name);
            if fields[i as int].is_key {
                assert(key_before(fields, i + 1));
            } else if key_before(fields, i + 1) {
                let j = choose|j: int| 0 <= j < i + 1 && (#[trigger] fields[j]).is_key;
                assert(key_before(fields, i as int));
            }
        }
        i = i + 1;
    }

    if key_count == 0 {
        return Err(GravityError::MissingKey(recd.name.clone()));
    }

    def.push(recd);
    Ok(())
}


/// The records defined after checking the first `n` record definitions in
/// order, or the first failure.
pub open spec fn records_after(recs: Seq<RecDef>, n: int) -> Result<Seq<RecDef>, GravityError>
    decreases n,
{
    if n <= 0 {
        Ok(Seq::empty())
    } else {
        match records_after(recs, n - 1) {
            Err(err) => Err(err),
            Ok(defs) => match spec_check_record_def(recs[n - 1], defs) {
                (Ok(()), defs2) => Ok(defs2),
                (Err(err), _) => Err(err),
            },
        }
    }
}

/// What checking one statement gives: the outcome and the environment afterwards.
pub open spec fn spec_check_statement(stmt: Statement, env: Seq<(Seq<char>, Type)>, recs: Seq<RecDef>) -> (Result<(), GravityError>, Seq<(Seq<char>, Type)>) {
    match stmt {
        Statement::Assignment { typ, name, expr } => spec_check_assignment(typ, name, expr, env),
        Statement::Relationship { name, expr } => (spec_check_relationship(name, expr, env), env),
        Statement::Insertion { target, exprs } => (spec_check_insertion(target, exprs@, recs, env), env),
    }
}

/// The environment after checking the first `n` statements in order, or the
/// first failure.
pub open spec fn statements_after(stmts: Seq<Statement>, n: int, recs: Seq<RecDef>) -> Result<Seq<(Seq<char>, Type)>, GravityError>
    decreases n,
{
    if n <= 0 {
        Ok(Seq::empty())
    } else {
        match statements_after(stmts, n - 1, recs) {
            Err(err) => Err(err),
            Ok(env) => match spec_check_statement(stmts[n - 1], env, recs) {
                (Ok(()), env2) => Ok(env2),
                (Err(err), _) => Err(err),
            },
        }
    }
}

/// The verdict on a whole schema: its record definitions are checked first,
/// then its statements in order; the first failure is the verdict.
pub open spec fn spec_run(prg: Program) -> Result<(), GravityError> {
    match records_after(prg.rec@, prg.rec@.len() as int) {
        Err(err) => Err(err),
        Ok(recs) => match statements_after(prg.slf@, prg.slf@.len() as int, recs) {
            Err(err) => Err(err),
            Ok(_) => Ok(()),
        },
    }
}

proof fn lemma_records_failure_persists(recs: Seq<RecDef>, k: int, n: int)
    requires
        k <= n,
        records_after(recs, k) is Err,
    ensures
        records_after(recs, n) == records_after(recs, k),
    decreases n - k,
{
    if k < n {
        lemma_records_failure_persists(recs, k, n - 1);
    }
}

proof fn lemma_statements_failure_persists(stmts: Seq<Statement>, k: int, n: int, recs: Seq<RecDef>)
    requires
        k <= n,
        statements_after(stmts, k, recs) is Err,
    ensures
        statements_after(stmts, n, recs) == statements_after(stmts, k, recs),
    decreases n - k,
{
    if k < n {
        lemma_statements_failure_persists(stmts, k, n - 1, recs);
    }
}

/// Type-checks a whole schema.
pub fn run(prg: Program) -> (r: Result<(), GravityError>)
    ensures
        r == spec_run(prg),
{
    let mut def = TypeEnv::new();
    let mut def_rec: Vec<RecDef> = Vec::new();
    let ghost recs = prg.rec@;
    let ghost stmts = prg.slf@;

    for recd in it: prg.rec.into_iter()
        invariant
            it.seq() == recs,
            records_after(recs, it.index() as int) == Ok::<Seq<RecDef>, GravityError>(def_rec@),
    {
        let ghost k = it.index() as int;
        let res = check_record_def(recd, &mut def_rec);
        match res {
            Ok(()) => {},
            Err(err) => {
                proof {
                    assert(records_after(recs, k + 1) == Err::<Seq<RecDef>, GravityError>(err));
                    lemma_records_failure_persists(recs, k + 1, recs.len() as int);
                }
                return Err(err);
            },
        }
    }
    let ghost recs_done = def_rec@;
    assert(records_after(recs, recs.len() as int) == Ok::<Seq<RecDef>, GravityError>(recs_done));
    let ghost verdict = spec_run(prg);
    assert(verdict == match statements_after(stmts, stmts.len() as int, recs_done) {
        Err(err) => Err(err),
        Ok(_) => Ok(()),
    });

    for stmt in it: prg.slf.into_iter()
        invariant
            it.seq() == stmts,
            def_rec@ == recs_done,
            verdict == spec_run(prg),
            verdict == match statements_after(stmts, stmts.len() as int, recs_done) {
                Err(err) => Err(err),
                Ok(_) => Ok(()),
            },
            records_after(recs, recs.len() as int) == Ok::<Seq<RecDef>, GravityError>(recs_done),
            statements_after(stmts, it.index() as int, recs_done) == Ok::<Seq<(Seq<char>, Type)>, GravityError>(def@),
    {
        let ghost k = it.index() as int;
        let res = match stmt {
            Statement::Assignment { typ, name, expr } => check_assignment(&typ, &name, &expr, &mut def),
            Statement::Relationship { name, expr } => check_relationship(&name, &expr, &mut def),
            Statement::Insertion { target, exprs } => check_insertion(&target, &exprs, &mut def_rec, &def),
        };
        match res {
            Ok(()) => {},
            Err(err) => {
                proof {
                    assert(statements_after(stmts, k + 1, recs_done) == Err::<Seq<(Seq<char>, Type)>, GravityError>(err));
                    lemma_statements_failure_persists(stmts, k + 1, stmts.len() as int, recs_done);
                }
                return Err(err);
            },
        }
    }

    Ok(())
}


/// The declared types of the definitions of a state, in order.
pub open spec fn state_env(defs: Seq<Assignment>) -> Seq<(Seq<char>, Type)> {
    defs.map_values(|a: Assignment| (a.name@, a.typ))
}

/// Whether every variable that `e` names is declared in `env`, and `e` holds no `%`.
pub open spec fn refs_resolved(e: Expr, env: Seq<(Seq<char>, Type)>) -> bool
    decreases e,
{
    match e {
        Expr::Ident(n) => lookup(env, n@) is Some,
        Expr::SelfRef => false,
        Expr::Negate(inner) => refs_resolved(*inner, env),
        Expr::Factorial(inner, _) => refs_resolved(*inner, env),
        Expr::BinOp(lhs, _, rhs) => refs_resolved(*lhs, env) && refs_resolved(*rhs, env),
        _ => true,
    }
}

fn type_in_state(expr: &Expr, defs: &Vec<Assignment>) -> (r: Result<Type, GravityError>)
    requires
        refs_resolved(*expr, state_env(defs@)),
    ensures
        r == spec_expr_type(*expr, state_env(defs@), None),
    decreases expr,
{
    match expr {
        Expr::Number(_) => Ok(Type::Number),
        Expr::Decimal(_) => Ok(Type::Decimal),
        Expr::Text(_) => Ok(Type::Text),
        Expr::Bool(_) => Ok(Type::Bool),
        Expr::Negate(inner) => {
            let expr_t = type_in_state(inner, defs)?;
            match expr_t {
                Type::Number | Type::Decimal => Ok(expr_t),
                _ => Err(GravityError::InvalidNegation(expr_t)),
            }
        },
        Expr::Factorial(inner, _) => {
            let expr_t = type_in_state(inner, defs)?;
            match expr_t {
                Type::Number => Ok(expr_t),
                _ => Err(GravityError::InvalidFactorial(expr_t)),
            }
        },
        Expr::BinOp(lhs, _, rhs) => {
            let l = type_in_state(lhs, defs)?;
            let r = type_in_state(rhs, defs)?;
            if l == r {
                return Ok(l);
            }
            Err(GravityError::TypeMismatch(r, l))
        },
        Expr::Ident(n) => {
            let ghost keyed = defs@.map_values(|a: Assignment| (a.name@, a));
            proof {
                lemma_index_of_same_names(keyed, state_env(defs@), n@);
                lemma_index_of(keyed, n@);
            }
            match find_def(defs, n) {
                Some(i) => {
                    proof {
                        assert(state_env(defs@)[i as int] == (defs@[i as int].name@, defs@[i as int].typ));
                    }
                    Ok(defs[i].typ)
                },
                None => {
                    proof {
                        assert(false);
                    }
                    Err(GravityError::UndefinedVariable(n.clone()))
                },
            }
        },
        Expr::SelfRef => {
            proof {
                assert(false);
            }
            Err(GravityError::SelfRef)
        },
    }
}

/// The type of an expression against the definitions of a state: a
/// variable has the type it was defined with. Every variable it names must
/// be defined, and it must hold no `%`.
pub fn expr_type_state(expr: &Expr, state: &State) -> (r: Result<Type, GravityError>)
    requires
        refs_resolved(*expr, state_env(state.def@)),
    ensures
        r == spec_expr_type(*expr, state_env(state.def@), None),
{
    type_in_state(expr, &state.def)
}


/// Whether every variable that `expr` names is defined in `defs`, and
/// `expr` holds no `%` (see `refs_resolved`).
pub fn refs_defined(expr: &Expr, defs: &Vec<Assignment>) -> (r: bool)
    ensures
        r == refs_resolved(*expr, state_env(defs@)),
    decreases expr,
{
    match expr {
        Expr::Ident(n) => {
            let ghost keyed = defs@.map_values(|a: Assignment| (a.name@, a));
            proof {
                lemma_index_of_same_names(keyed, state_env(defs@), n@);
            }
            find_def(defs, n).is_some()
        },
        Expr::SelfRef => false,
        Expr::Negate(inner) => refs_defined(inner, defs),
        Expr::Factorial(inner, _) => refs_defined(inner, defs),
        Expr::BinOp(lhs, _, rhs) => refs_defined(lhs, defs) && refs_defined(rhs, defs),
        _ => true,
    }
}

/// Negation keeps the numeric types and refuses the others: a negated
/// whole number is a whole number, a negated decimal is a decimal, and a
/// negated boolean or text is refused with the operand's type.
pub proof fn lemma_negation_type(x: Expr, env: Seq<(Seq<char>, Type)>, self_name: Option<String>)
    ensures
        spec_expr_type(x, env, self_name) == Ok::<Type, GravityError>(Type::Number) ==> spec_expr_type(
            Expr::Negate(Box::new(x)),
            env,
            self_name,
        ) == Ok::<Type, GravityError>(Type::Number),
        spec_expr_type(x, env, self_name) == Ok::<Type, GravityError>(Type::Decimal) ==> spec_expr_type(
            Expr::Negate(Box::new(x)),
            env,
            self_name,
        ) == Ok::<Type, GravityError>(Type::Decimal),
        spec_expr_type(x, env, self_name) == Ok::<Type, GravityError>(Type::Bool) ==> spec_expr_type(
            Expr::Negate(Box::new(x)),
            env,
            self_name,
        ) == Err::<Type, GravityError>(GravityError::InvalidNegation(Type::Bool)),
        spec_expr_type(x, env, self_name) == Ok::<Type, GravityError>(Type::Text) ==> spec_expr_type(
            Expr::Negate(Box::new(x)),
            env,
            self_name,
        ) == Err::<Type, GravityError>(GravityError::InvalidNegation(Type::Text)),
        spec_expr_type(x, env, self_name) is Err ==> spec_expr_type(Expr::Negate(Box::new(x)), env, self_name)
            == spec_expr_type(x, env, self_name),
{
}

proof fn lemma_fields_typed(target: String, exprs: Seq<Expr>, fields: Seq<RecField>, env: Seq<(Seq<char>, Type)>, i: int)
    requires
        0 <= i,
        spec_check_fields(target, exprs, fields, env, i) is Ok,
    ensures
        forall|j: int|
            i <= j < exprs.len() && j < fields.len() ==> spec_expr_type(#[trigger] exprs[j], env, None)
                == Ok::<Type, GravityError>(fields[j].typ),
    decreases exprs.len() - i,
{
    if i < exprs.len() && i < fields.len() {
        lemma_fields_typed(target, exprs, fields, env, i + 1);
    }
}

/// An accepted insertion gives exactly one value per field of the record
/// it names, each of that field's type.
pub proof fn lemma_insertion_accepted(target: String, exprs: Seq<Expr>, defs: Seq<RecDef>, env: Seq<(Seq<char>, Type)>)
    requires
        spec_check_insertion(target, exprs, defs, env) is Ok,
    ensures
        record_index(defs, target@) matches Some(i) && 0 <= i < defs.len() && exprs.len() == defs[i].fields@.len()
            && forall|j: int|
            0 <= j < exprs.len() ==> spec_expr_type(#[trigger] exprs[j], env, None) == Ok::<Type, GravityError>(
                defs[i].fields@[j].typ,
            ),
{
    let keyed = defs.map_values(|d: RecDef| (d.name@, d));
    lemma_index_of(keyed, target@);
    let i = record_index(defs, target@).unwrap();
    lemma_fields_typed(target, exprs, defs[i].fields@, env, 0);
}

/// An insertion with more or fewer values than its record has fields is
/// refused with both counts.
pub proof fn lemma_insertion_count(target: String, exprs: Seq<Expr>, defs: Seq<RecDef>, env: Seq<(Seq<char>, Type)>)
    requires
        record_index(defs, target@) matches Some(i) && exprs.len() != defs[i].fields@.len(),
    ensures
        spec_check_insertion(target, exprs, defs, env) == Err::<(), GravityError>(GravityError::WrongInsertionCount(
            target,
            defs[record_index(defs, target@).unwrap()].fields@.len() as usize,
            exprs.len() as usize,
        )),
{
}

} // verus!
