use vstd::prelude::*;
use crate::error::{EngineError, ValidationError};
use crate::expr::{shape_of, simplify, Expr, ExprDiscriminants, Formula};
use crate::set::ExprSet;

verus! {

/// The tableau rules that split a statement into two branches.
#[derive(Clone, Copy, Debug, PartialEq, Eq, Structural, Hash)]
pub enum BranchRule {
    /// p ∨ q
    Or,
    /// ¬(p ∧ q)
    Nand,
    /// p → q
    Conditional,
    /// p ↔ q
    Biconditional,
    /// ¬(p ↔ q)
    NotBiconditional,
}

/// What a rule requires and produces, on simplified formulas: the two branch
/// sets, or the expected and the found kind of statement.
pub open spec fn decomposition(rule: BranchRule, f: Formula) -> Result<
    (Set<Formula>, Set<Formula>),
    (ExprDiscriminants, ExprDiscriminants),
> {
    let g = simplify(f);
    match rule {
        BranchRule::Or => match g {
            Formula::Or(p, q) => Ok((set![*p], set![*q])),
            _ => Err((ExprDiscriminants::Or, shape_of(g))),
        },
        BranchRule::Nand => match g {
            Formula::Not(h) => match *h {
                Formula::And(p, q) => Ok((set![*p], set![*q])),
                _ => Err((ExprDiscriminants::And, shape_of(*h))),
            },
            _ => Err((ExprDiscriminants::Not, shape_of(g))),
        },
        BranchRule::Conditional => match g {
            Formula::Conditional(p, q) => Ok((set![Formula::Not(p)], set![*q])),
            _ => Err((ExprDiscriminants::Conditional, shape_of(g))),
        },
        BranchRule::Biconditional => match g {
            Formula::Biconditional(p, q) => Ok(
                (set![*p, *q], set![Formula::Not(p), Formula::Not(q)]),
            ),
            _ => Err((ExprDiscriminants::Biconditional, shape_of(g))),
        },
        BranchRule::NotBiconditional => match g {
            Formula::Not(h) => match *h {
                Formula::Biconditional(p, q) => Ok(
                    (set![*p, Formula::Not(q)], set![Formula::Not(p), *q]),
                ),
                _ => Err((ExprDiscriminants::Biconditional, shape_of(*h))),
            },
            _ => Err((ExprDiscriminants::Not, shape_of(g))),
        },
    }
}

/// The result of `decompose` agrees with the model of the rule.
pub open spec fn decompose_matches(
    r: Result<(ExprSet, ExprSet), EngineError>,
    d: Result<(Set<Formula>, Set<Formula>), (ExprDiscriminants, ExprDiscriminants)>,
) -> bool {
    match (r, d) {
        (Ok((a, b)), Ok((x, y))) => a.wf() && b.wf() && a@ == x && b@ == y,
        (
            Err(EngineError::ValidationError(ValidationError::InvalidStatementType(e, f))),
            Err((x, y)),
        ) => e == x && f == y,
        _ => false,
    }
}

fn singleton(e: Expr) -> (r: ExprSet)
    ensures
        r.wf(),
        r@ == set![simplify(e@)],
{
    let mut s = ExprSet::new();
    s.insert(e);
    s
}

fn pair(e: Expr, f: Expr) -> (r: ExprSet)
    ensures
        r.wf(),
        r@ == set![simplify(e@), simplify(f@)],
{
    let mut s = ExprSet::new();
    s.insert(e);
    s.insert(f);
    s
}

fn negated(e: &Expr) -> (r: Expr)
    ensures
        r@ == Formula::Not(Box::new(e@)),
{
    Expr::Not(Box::new(e.copy()))
}

fn wrong_type(expected: ExprDiscriminants, found: &Expr) -> (r: Result<
    (ExprSet, ExprSet),
    EngineError,
>)
    ensures
        r == Err::<(ExprSet, ExprSet), EngineError>(
            EngineError::ValidationError(
                ValidationError::InvalidStatementType(expected, shape_of(found@)),
            ),
        ),
{
    Err(EngineError::ValidationError(ValidationError::InvalidStatementType(expected, found.shape())))
}

impl BranchRule {
    /// Splits a statement into the two branches that this rule requires.
    /// Brackets are looked through; a statement of another kind is rejected
    /// with the expected and the found kind.
    pub fn decompose(&self, expr: &Expr) -> (r: Result<(ExprSet, ExprSet), EngineError>)
        ensures
            decompose_matches(r, decomposition(*self, expr@)),
    {
        let g = expr.simplified();
        proof {
            crate::expr::lemma_simplify_idempotent(expr@);
        }
        match self {
            BranchRule::Or => match &g {
                Expr::Or(p, q) => {
                    assert(simplify(p@) == p@ && simplify(q@) == q@);
                    Ok((singleton(p.copy()), singleton(q.copy())))
                },
                _ => wrong_type(ExprDiscriminants::Or, &g),
            },
            BranchRule::Nand => match &g {
                Expr::Not(h) => match &**h {
                    Expr::And(p, q) => {
                        assert(simplify(h@) == h@);
                        assert(simplify(p@) == p@ && simplify(q@) == q@);
                        Ok((singleton(p.copy()), singleton(q.copy())))
                    },
                    _ => wrong_type(ExprDiscriminants::And, h),
                },
                _ => wrong_type(ExprDiscriminants::Not, &g),
            },
            BranchRule::Conditional => match &g {
                Expr::Conditional(p, q) => {
                    assert(simplify(p@) == p@ && simplify(q@) == q@);
                    Ok((singleton(negated(p)), singleton(q.copy())))
                },
                _ => wrong_type(ExprDiscriminants::Conditional, &g),
            },
            BranchRule::Biconditional => match &g {
                Expr::Biconditional(p, q) => {
                    assert(simplify(p@) == p@ && simplify(q@) == q@);
                    Ok((pair(p.copy(), q.copy()), pair(negated(p), negated(q))))
                },
                _ => wrong_type(ExprDiscriminants::Biconditional, &g),
            },
            BranchRule::NotBiconditional => match &g {
                Expr::Not(h) => match &**h {
                    Expr::Biconditional(p, q) => {
                        assert(simplify(h@) == h@);
                        assert(simplify(p@) == p@ && simplify(q@) == q@);
                        Ok((pair(p.copy(), negated(q)), pair(negated(p), q.copy())))
                    },
                    _ => wrong_type(ExprDiscriminants::Biconditional, h),
                },
                _ => wrong_type(ExprDiscriminants::Not, &g),
            },
        }
    }
}

/// The display name of each rule.
pub open spec fn rule_name(rule: BranchRule) -> Seq<char> {
    match rule {
        BranchRule::Or => seq!['O', 'r'],
        BranchRule::Nand => seq!['N', 'a', 'n', 'd'],
        BranchRule::Conditional => seq!['C', 'o', 'n', 'd', 'i', 't', 'i', 'o', 'n', 'a', 'l'],
        BranchRule::Biconditional => seq![
            'B', 'i', 'c', 'o', 'n', 'd', 'i', 't', 'i', 'o', 'n', 'a', 'l',
        ],
        BranchRule::NotBiconditional => seq![
            'N', 'o', 't', 'B', 'i', 'c', 'o', 'n', 'd', 'i', 't', 'i', 'o', 'n', 'a', 'l',
        ],
    }
}

/// Character-wise equality of two strings.
pub fn str_equal(a: &str, b: &str) -> (r: bool)
    ensures
        r == (a@ == b@),
{
    let n = a.unicode_len();
    if n != b.unicode_len() {
        return false;
    }
    let mut i: usize = 0;
    while i < n
        invariant
            i <= n,
            n == a@.len(),
            n == b@.len(),
            forall|j: int| 0 <= j < i ==> a@[j] == b@[j],
        decreases n - i,
    {
        if a.get_char(i) != b.get_char(i) {
            return false;
        }
        i = i + 1;
    }
    assert(a@ =~= b@);
    true
}

impl BranchRule {
    /// Every rule, in declaration order.
    pub fn all() -> (r: Vec<BranchRule>)
        ensures
            r@ == seq![
                BranchRule::Or,
                BranchRule::Nand,
                BranchRule::Conditional,
                BranchRule::Biconditional,
                BranchRule::NotBiconditional,
            ],
    {
        vec![
            BranchRule::Or,
            BranchRule::Nand,
            BranchRule::Conditional,
            BranchRule::Biconditional,
            BranchRule::NotBiconditional,
        ]
    }

    /// The rule's display name.
    pub fn name(&self) -> (r: &'static str)
        ensures
            r@ == rule_name(*self),
    {
        match self {
            BranchRule::Or => {
                proof {
                    reveal_strlit("Or");
                }
                "Or"
            },
            BranchRule::Nand => {
                proof {
                    reveal_strlit("Nand");
                }
                "Nand"
            },
            BranchRule::Conditional => {
                proof {
                    reveal_strlit("Conditional");
                }
                "Conditional"
            },
            BranchRule::Biconditional => {
                proof {
                    reveal_strlit("Biconditional");
                }
                "Biconditional"
            },
            BranchRule::NotBiconditional => {
                proof {
                    reveal_strlit("NotBiconditional");
                }
                "NotBiconditional"
            },
        }
    }

    /// The rule with the given display name, if there is one.
    pub fn from_name(s: &str) -> (r: Option<BranchRule>)
        ensures
            r matches Some(rule) ==> rule_name(rule) == s@,
            r is None ==> forall|rule: BranchRule| rule_name(rule) != s@,
    {
        let rules = BranchRule::all();
        let mut i: usize = 0;
        while i < rules.len()
            invariant
                i <= rules.len(),
                rules@ == seq![
                    BranchRule::Or,
                    BranchRule::Nand,
                    BranchRule::Conditional,
                    BranchRule::Biconditional,
                    BranchRule::NotBiconditional,
                ],
                forall|j: int| 0 <= j < i ==> rule_name(#[trigger] rules@[j]) != s@,
            decreases rules.len() - i,
        {
            let rule = rules[i];
            if str_equal(rule.name(), s) {
                return Some(rule);
            }
            i = i + 1;
        }
        proof {
            assert forall|rule: BranchRule| rule_name(rule) != s@ by {
                match rule {
                    BranchRule::Or => assert(rules@[0] == rule),
                    BranchRule::Nand => assert(rules@[1] == rule),
                    BranchRule::Conditional => assert(rules@[2] == rule),
                    BranchRule::Biconditional => assert(rules@[3] == rule),
                    BranchRule::NotBiconditional => assert(rules@[4] == rule),
                }
            }
        }
        None
    }
}

/// Distinct rules have distinct names, so a rule's name leads back to it.
pub proof fn lemma_rule_name_round_trip(rule: BranchRule, other: BranchRule)
    ensures
        rule_name(rule) == rule_name(other) ==> rule == other,
{
    if rule != other {
        assert(rule_name(rule) != rule_name(other)) by {
            let a = rule_name(rule);
            let b = rule_name(other);
            if a.len() == b.len() {
                assert(a[0] != b[0] || a[2] != b[2]);
            }
        }
    }
}

} // verus!
