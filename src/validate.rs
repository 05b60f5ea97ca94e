use vstd::prelude::*;
use crate::error::{EngineError, ValidationError};
use crate::expr::{simplify, terms_of, lemma_terms_of, Binding, ConstantExpr, Expr, Formula, Term, Variable};

verus! {

/// Why a formula fails validation, in model terms.
pub enum Fault {
    /// A variable occurrence with no enclosing binder, by name.
    FreeVariable(Seq<char>),
    /// A construct that is reserved and not implemented, by name.
    Unsupported(Seq<char>),
}

/// The first free variable of a term, scanning left to right.
pub open spec fn term_fault(t: Term, scope: Set<Binding>) -> Option<Seq<char>>
    decreases t,
{
    match t {
        Term::Variable(v) => if scope.contains(v) {
            None
        } else {
            Some(v.name)
        },
        Term::Function(_, args) => terms_fault(args, scope),
        Term::Operator(_, a, b) => match term_fault(*a, scope) {
            Some(n) => Some(n),
            None => term_fault(*b, scope),
        },
        _ => None,
    }
}

/// The first free variable of a list of terms, scanning left to right.
pub open spec fn terms_fault(ts: Seq<Term>, scope: Set<Binding>) -> Option<Seq<char>>
    decreases ts,
{
    if ts.len() == 0 {
        None
    } else {
        match terms_fault(ts.subrange(0, ts.len() - 1), scope) {
            Some(n) => Some(n),
            None => term_fault(ts[ts.len() - 1], scope),
        }
    }
}

/// The name that a formula-level generic is reported under.
pub open spec fn generics_name() -> Seq<char> {
    seq!['G', 'e', 'n', 'e', 'r', 'i', 'c', 's']
}

/// Validation of a formula under the bindings in scope: operands left to right,
/// stopping at the first fault; a quantifier adds its own binding for its body.
/// Brackets are looked through.
pub open spec fn check(f: Formula, scope: Set<Binding>) -> Result<(), Fault>
    decreases f,
{
    match f {
        Formula::Generic(_) => Err(Fault::Unsupported(generics_name())),
        Formula::Variable(v) => if scope.contains(v) {
            Ok(())
        } else {
            Err(Fault::FreeVariable(v.name))
        },
        Formula::Predicate(_, args) => match terms_fault(args, scope) {
            Some(n) => Err(Fault::FreeVariable(n)),
            None => Ok(()),
        },
        Formula::ConstantValue(t) => match term_fault(t, scope) {
            Some(n) => Err(Fault::FreeVariable(n)),
            None => Ok(()),
        },
        Formula::Group(_, a) => check(*a, scope),
        Formula::Not(a) => check(*a, scope),
        Formula::And(a, b) | Formula::Or(a, b) | Formula::Xor(a, b) | Formula::Conditional(a, b)
        | Formula::Biconditional(a, b) | Formula::UnknownOperator(a, _, b) => match check(
            *a,
            scope,
        ) {
            Ok(()) => check(*b, scope),
            Err(e) => Err(e),
        },
        Formula::Universal(v, a) | Formula::Existential(v, a) => check(*a, scope.insert(v)),
        _ => Ok(()),
    }
}

/// The outcome of validating a closed formula.
pub open spec fn validation(f: Formula) -> Result<(), Fault> {
    check(f, Set::empty())
}

/// An engine result agrees with a model outcome.
pub open spec fn outcome_matches(r: Result<(), EngineError>, m: Result<(), Fault>) -> bool {
    match (r, m) {
        (Ok(()), Ok(())) => true,
        (
            Err(EngineError::ValidationError(ValidationError::InvalidVariable(n))),
            Err(Fault::FreeVariable(m)),
        ) => n@ == m,
        (Err(EngineError::NotSupported(n)), Err(Fault::Unsupported(m))) => n@ == m,
        _ => false,
    }
}

pub open spec fn bindings(scope: Seq<Variable>) -> Set<Binding> {
    scope.map_values(|v: Variable| v@).to_set()
}

fn in_scope(v: &Variable, scope: &Vec<Variable>) -> (r: bool)
    ensures
        r == bindings(scope@).contains(v@),
{
    let mut i: usize = 0;
    while i < scope.len()
        invariant
            i <= scope.len(),
            forall|j: int| 0 <= j < i ==> scope@[j]@ != v@,
        decreases scope.len() - i,
    {
        if scope[i].same(v) {
            assert(scope@.map_values(|v: Variable| v@)[i as int] == v@);
            return true;
        }
        i = i + 1;
    }
    assert(!scope@.map_values(|v: Variable| v@).contains(v@));
    false
}

proof fn lemma_terms_fault_prefix(ts: Seq<Term>, k: int, scope: Set<Binding>)
    requires
        0 <= k <= ts.len(),
        terms_fault(ts.subrange(0, k), scope) is Some,
    ensures
        terms_fault(ts, scope) == terms_fault(ts.subrange(0, k), scope),
    decreases ts.len() - k,
{
    if k < ts.len() {
        let next = ts.subrange(0, k + 1);
        assert(next.subrange(0, k) =~= ts.subrange(0, k));
        lemma_terms_fault_prefix(ts, k + 1, scope);
    } else {
        assert(ts.subrange(0, k) =~= ts);
    }
}

fn free_variable(v: &Variable) -> (r: EngineError)
    ensures
        r matches EngineError::ValidationError(ValidationError::InvalidVariable(n)) && n@ == v@.name,
{
    EngineError::ValidationError(ValidationError::InvalidVariable(v.name.clone()))
}

fn validate_term(t: &ConstantExpr, scope: &Vec<Variable>) -> (r: Result<(), EngineError>)
    ensures
        outcome_matches(
            r,
            match term_fault(t@, bindings(scope@)) {
                Some(n) => Err(Fault::FreeVariable(n)),
                None => Ok(()),
            },
        ),
    decreases t,
{
    match t {
        ConstantExpr::Variable(v) => if in_scope(v, scope) {
            Ok(())
        } else {
            Err(free_variable(v))
        },
        ConstantExpr::Function { args, .. } => validate_terms(args, scope),
        ConstantExpr::Operator(_, a, b) => {
            let r = validate_term(a, scope);
            if r.is_err() {
                return r;
            }
            validate_term(b, scope)
        },
        _ => Ok(()),
    }
}

fn validate_terms(args: &Vec<ConstantExpr>, scope: &Vec<Variable>) -> (r: Result<
    (),
    EngineError,
>)
    ensures
        outcome_matches(
            r,
            match terms_fault(terms_of(args@), bindings(scope@)) {
                Some(n) => Err(Fault::FreeVariable(n)),
                None => Ok(()),
            },
        ),
    decreases args,
{
    let ghost ts = terms_of(args@);
    let ghost sc = bindings(scope@);
    proof {
        lemma_terms_of(args@);
        assert(ts.subrange(0, 0) =~= Seq::<Term>::empty());
    }
    let mut i: usize = 0;
    while i < args.len()
        invariant
            i <= args.len(),
            ts == terms_of(args@),
            sc == bindings(scope@),
            ts.len() == args.len(),
            forall|j: int| 0 <= j < args.len() ==> #[trigger] ts[j] == args@[j]@,
            terms_fault(ts.subrange(0, i as int), sc) is None,
        decreases args.len() - i,
    {
        proof {
            assert(decreases_to!(args => args[i as int]));
            assert(ts.subrange(0, i + 1).subrange(0, i as int) =~= ts.subrange(0, i as int));
        }
        let r = validate_term(&args[i], scope);
        if r.is_err() {
            proof {
                lemma_terms_fault_prefix(ts, i + 1, sc);
            }
            return r;
        }
        i = i + 1;
    }
    assert(ts.subrange(0, i as int) =~= ts);
    Ok(())
}

fn validate(expr: &Expr, scope: &mut Vec<Variable>) -> (r: Result<(), EngineError>)
    ensures
        final(scope)@ == old(scope)@,
        outcome_matches(r, check(expr@, bindings(old(scope)@))),
    decreases expr,
{
    match expr {
        Expr::Generic(_) => {
            proof {
                reveal_strlit("Generics");
                assert("Generics"@ =~= generics_name());
            }
            Err(EngineError::NotSupported(String::from_str("Generics")))
        },
        Expr::Variable(v) => if in_scope(v, scope) {
            Ok(())
        } else {
            Err(free_variable(v))
        },
        Expr::Predicate { args, .. } => validate_terms(args, scope),
        Expr::ConstantValue(t) => validate_term(t, scope),
        Expr::Group(_, a) | Expr::Not(a) => validate(a, scope),
        Expr::And(a, b) | Expr::Or(a, b) | Expr::Xor(a, b) | Expr::Conditional(a, b)
        | Expr::Biconditional(a, b) | Expr::UnknownOperator { left: a, right: b, .. } => {
            let r = validate(a, scope);
            if r.is_err() {
                return r;
            }
            validate(b, scope)
        },
        Expr::Universal { iter, expr: body } | Expr::Existential { iter, expr: body } => {
            let ghost before = scope@;
            scope.push(iter.copy());
            proof {
                assert(scope@.map_values(|v: Variable| v@) =~= before.map_values(
                    |v: Variable| v@,
                ).push(iter@));
                assert(bindings(scope@) =~= bindings(before).insert(iter@)) by {
                    broadcast use vstd::seq_lib::group_seq_properties;
                }
            }
            let r = validate(body, scope);
            scope.pop();
            proof {
                assert(scope@ =~= before);
            }
            r
        },
        _ => Ok(()),
    }
}

/// Checks that every variable is bound by an enclosing quantifier and that no
/// reserved construct occurs; stops at the first fault.
pub fn validate_syntax(expr: &Expr) -> (r: Result<(), EngineError>)
    ensures
        outcome_matches(r, validation(expr@)),
{
    let mut scope: Vec<Variable> = Vec::new();
    proof {
        assert(bindings(scope@) =~= Set::<Binding>::empty());
    }
    validate(expr, &mut scope)
}

/// Validation looks through brackets: a formula and its simplified form
/// validate alike under every scope.
pub proof fn lemma_check_simplified(f: Formula, scope: Set<Binding>)
    ensures
        check(simplify(f), scope) == check(f, scope),
    decreases f,
{
    match f {
        Formula::Group(_, a) | Formula::Not(a) => lemma_check_simplified(*a, scope),
        Formula::And(a, b) | Formula::Or(a, b) | Formula::Xor(a, b) | Formula::Conditional(a, b)
        | Formula::Biconditional(a, b) | Formula::UnknownOperator(a, _, b) => {
            lemma_check_simplified(*a, scope);
            lemma_check_simplified(*b, scope);
        },
        Formula::Universal(v, a) | Formula::Existential(v, a) => lemma_check_simplified(
            *a,
            scope.insert(v),
        ),
        _ => {},
    }
}

/// Validation is a function of the formula alone, and takes it by shared
/// reference: validating a valid formula a second time gives `Ok(())` again.
pub proof fn lemma_validation_repeatable(
    f: Formula,
    first: Result<(), EngineError>,
    second: Result<(), EngineError>,
)
    requires
        validation(f) is Ok,
        outcome_matches(first, validation(f)),
        outcome_matches(second, validation(f)),
    ensures
        first is Ok,
        second is Ok,
{
}

} // verus!
