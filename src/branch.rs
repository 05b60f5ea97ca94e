use vstd::prelude::*;
use crate::error::{EngineError, ValidationError};
use crate::expr::{Expr, ExprDiscriminants, Formula};
use crate::rules::{decomposition, BranchRule};
use crate::uid::Uid;
use crate::util::{expr_maybe_list_starts_with, maybe_list_starts_with};

verus! {

/// What is wrong with a branch that splits into two sub-branches.
#[derive(Debug, PartialEq, Eq)]
pub enum BranchError {
    /// Sub-branches exist but no rule was chosen.
    NoRuleSelected,
    /// A rule was chosen but there are no sub-branches.
    NoStatements,
    /// The statement to split did not parse.
    DependentStatementError,
    /// The rule does not apply to the statement.
    Root(EngineError),
    /// The named sub-branch does not start with what the rule produces.
    SubBranch(Uid),
    /// Neither sub-branch starts with what the rule produces.
    SubBranches,
}

/// The two sub-branches of a branch: identifiers and statements, where a
/// statement that did not parse is `None`.
pub struct SubBranches {
    pub first_uid: Uid,
    pub first: Vec<Option<Expr>>,
    pub second_uid: Uid,
    pub second: Vec<Option<Expr>>,
}

/// Model of the outcome of checking a branch.
pub enum Verdict {
    DependentStatementError,
    NoRuleSelected,
    NoStatements,
    Root(ExprDiscriminants, ExprDiscriminants),
    FirstWrong,
    SecondWrong,
    BothWrong,
}

/// The check of a branch: `root` is its last statement, if any, and `None`
/// inside when it did not parse. The sub-branches must start with the two sets
/// that the rule produces, one each, in either order.
pub open spec fn branch_verdict(
    rule: Option<BranchRule>,
    root: Option<Option<Formula>>,
    subs: Option<(Seq<Option<Expr>>, Seq<Option<Expr>>)>,
) -> Option<Verdict> {
    if root == Some(None::<Formula>) {
        Some(Verdict::DependentStatementError)
    } else if rule is None && subs is Some {
        Some(Verdict::NoRuleSelected)
    } else if rule is Some && subs is None {
        Some(Verdict::NoStatements)
    } else if rule is Some && subs is Some && root is Some {
        let (first, second) = subs->0;
        match decomposition(rule->0, root->0->0) {
            Ok((c1, c2)) => {
                let one = maybe_list_starts_with(first, c1);
                let two = maybe_list_starts_with(first, c2);
                let three = maybe_list_starts_with(second, c1);
                let four = maybe_list_starts_with(second, c2);
                if (one && four) || (two && three) {
                    None
                } else if one || two {
                    Some(Verdict::SecondWrong)
                } else if three || four {
                    Some(Verdict::FirstWrong)
                } else {
                    Some(Verdict::BothWrong)
                }
            },
            Err((expected, found)) => Some(Verdict::Root(expected, found)),
        }
    } else {
        None
    }
}

pub open spec fn root_model(root: Option<Option<Expr>>) -> Option<Option<Formula>> {
    match root {
        None => None,
        Some(None) => Some(None),
        Some(Some(e)) => Some(Some(e@)),
    }
}

pub open spec fn subs_model(subs: Option<SubBranches>) -> Option<(Seq<Option<Expr>>, Seq<Option<Expr>>)> {
    match subs {
        None => None,
        Some(s) => Some((s.first@, s.second@)),
    }
}

/// A branch error agrees with the model verdict.
pub open spec fn verdict_matches(r: Option<BranchError>, v: Option<Verdict>, subs: Option<SubBranches>) -> bool {
    match (r, v) {
        (None, None) => true,
        (Some(BranchError::DependentStatementError), Some(Verdict::DependentStatementError)) => true,
        (Some(BranchError::NoRuleSelected), Some(Verdict::NoRuleSelected)) => true,
        (Some(BranchError::NoStatements), Some(Verdict::NoStatements)) => true,
        (
            Some(
                BranchError::Root(
                    EngineError::ValidationError(ValidationError::InvalidStatementType(e, f)),
                ),
            ),
            Some(Verdict::Root(x, y)),
        ) => e == x && f == y,
        (Some(BranchError::SubBranch(u)), Some(Verdict::FirstWrong)) => u@ == subs->0.first_uid@,
        (Some(BranchError::SubBranch(u)), Some(Verdict::SecondWrong)) => u@ == subs->0.second_uid@,
        (Some(BranchError::SubBranches), Some(Verdict::BothWrong)) => true,
        _ => false,
    }
}

/// Checks that a branch was split correctly by `rule`.
pub fn branch_error(
    rule: Option<BranchRule>,
    root: &Option<Option<Expr>>,
    subs: &Option<SubBranches>,
) -> (r: Option<BranchError>)
    ensures
        verdict_matches(r, branch_verdict(rule, root_model(*root), subs_model(*subs)), *subs),
{
    if let Some(None) = root {
        return Some(BranchError::DependentStatementError);
    }
    let (rule, subs) = match (rule, subs) {
        (None, Some(_)) => {
            return Some(BranchError::NoRuleSelected);
        },
        (Some(_), None) => {
            return Some(BranchError::NoStatements);
        },
        (Some(rule), Some(subs)) => (rule, subs),
        (None, None) => {
            return None;
        },
    };
    let e = match root {
        Some(Some(e)) => e,
        _ => {
            return None;
        },
    };
    match rule.decompose(e) {
        Ok((c1, c2)) => {
            let one = expr_maybe_list_starts_with(&subs.first, &c1);
            let two = expr_maybe_list_starts_with(&subs.first, &c2);
            let three = expr_maybe_list_starts_with(&subs.second, &c1);
            let four = expr_maybe_list_starts_with(&subs.second, &c2);
            if (one && four) || (two && three) {
                None
            } else if one || two {
                Some(BranchError::SubBranch(subs.second_uid.copy()))
            } else if three || four {
                Some(BranchError::SubBranch(subs.first_uid.copy()))
            } else {
                Some(BranchError::SubBranches)
            }
        },
        Err(err) => Some(BranchError::Root(err)),
    }
}

} // verus!
