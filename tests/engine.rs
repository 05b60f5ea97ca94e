use yggdrasil::branch::{branch_error, BranchError, SubBranches};
use yggdrasil::error::{EngineError, ValidationError};
use yggdrasil::expr::{Expr, ExprDiscriminants, GroupKind, Literal, Variable};
use yggdrasil::parser::parse;
use yggdrasil::rules::BranchRule;
use yggdrasil::set::ExprSet;
use yggdrasil::uid::Uid;
use yggdrasil::util::{expr_list_starts_with, expr_maybe_list_starts_with};
use yggdrasil::validate::validate_syntax;

fn f(text: &str) -> Expr {
    parse(text).unwrap()
}

fn set_of(items: &[&str]) -> ExprSet {
    let mut s = ExprSet::new();
    for t in items {
        s.insert(f(t));
    }
    s
}

fn same_members(s: &ExprSet, items: &[&str]) -> bool {
    s.len() == items.len() && items.iter().all(|t| s.contains(&f(t)))
}

fn wrong_type(expected: ExprDiscriminants, found: ExprDiscriminants) -> EngineError {
    EngineError::ValidationError(ValidationError::InvalidStatementType(expected, found))
}

#[test]
fn decompose_or() {
    let (a, b) = BranchRule::Or.decompose(&f("A ∨ B")).unwrap();
    assert!(same_members(&a, &["A"]));
    assert!(same_members(&b, &["B"]));
}

#[test]
fn decompose_biconditional() {
    let (a, b) = BranchRule::Biconditional.decompose(&f("A ↔ B")).unwrap();
    assert!(same_members(&a, &["A", "B"]));
    assert!(same_members(&b, &["¬A", "¬B"]));
}

#[test]
fn decompose_or_rejects_conjunction() {
    let r = BranchRule::Or.decompose(&f("A ∧ B"));
    assert_eq!(r.err(), Some(wrong_type(ExprDiscriminants::Or, ExprDiscriminants::And)));
}

#[test]
fn decompose_nand_keeps_operands_unnegated() {
    let (a, b) = BranchRule::Nand.decompose(&f("¬(A ∧ B)")).unwrap();
    assert!(same_members(&a, &["A"]));
    assert!(same_members(&b, &["B"]));
}

#[test]
fn decompose_nand_shape_errors() {
    let r = BranchRule::Nand.decompose(&f("A ∧ B"));
    assert_eq!(r.err(), Some(wrong_type(ExprDiscriminants::Not, ExprDiscriminants::And)));
    let r = BranchRule::Nand.decompose(&f("¬(A ∨ B)"));
    assert_eq!(r.err(), Some(wrong_type(ExprDiscriminants::And, ExprDiscriminants::Or)));
}

#[test]
fn decompose_conditional() {
    let (a, b) = BranchRule::Conditional.decompose(&f("A → B")).unwrap();
    assert!(same_members(&a, &["¬A"]));
    assert!(same_members(&b, &["B"]));
}

#[test]
fn decompose_not_biconditional() {
    let (a, b) = BranchRule::NotBiconditional.decompose(&f("¬(A ↔ B)")).unwrap();
    assert!(same_members(&a, &["A", "¬B"]));
    assert!(same_members(&b, &["¬A", "B"]));
    let r = BranchRule::NotBiconditional.decompose(&f("¬(A → B)"));
    assert_eq!(
        r.err(),
        Some(wrong_type(ExprDiscriminants::Biconditional, ExprDiscriminants::Conditional))
    );
}

#[test]
fn decompose_looks_through_brackets() {
    let (a, b) = BranchRule::Or.decompose(&f("((A) ∨ [B])")).unwrap();
    assert!(same_members(&a, &["A"]));
    assert!(same_members(&b, &["B"]));
}

#[test]
fn decompose_equal_operands_give_one_member() {
    let (a, b) = BranchRule::Biconditional.decompose(&f("A ↔ (A)")).unwrap();
    assert_eq!(a.len(), 1);
    assert_eq!(b.len(), 1);
    assert!(b.contains(&f("¬A")));
}

#[test]
fn list_starting_with_the_set() {
    let list = vec![f("A"), f("B"), f("C")];
    assert!(expr_list_starts_with(&list, &set_of(&["A", "B"])));
    let list = vec![f("B"), f("(A)")];
    assert!(expr_list_starts_with(&list, &set_of(&["A", "B"])));
}

#[test]
fn list_with_required_elements_not_at_front() {
    let list = vec![f("C"), f("A"), f("B")];
    assert!(!expr_list_starts_with(&list, &set_of(&["A", "B"])));
}

#[test]
fn list_shorter_than_the_set() {
    let list = vec![f("A")];
    assert!(!expr_list_starts_with(&list, &set_of(&["A", "B"])));
    assert!(expr_list_starts_with(&Vec::new(), &ExprSet::new()));
}

#[test]
fn duplicate_cannot_fill_two_slots() {
    let list = vec![Some(f("A")), Some(f("A"))];
    assert!(!expr_maybe_list_starts_with(&list, &set_of(&["A", "B"])));
}

#[test]
fn maybe_list_in_any_order() {
    let list = vec![Some(f("B")), Some(f("A")), None];
    assert!(expr_maybe_list_starts_with(&list, &set_of(&["A", "B"])));
}

#[test]
fn maybe_list_with_missing_statement() {
    let list = vec![Some(f("A")), None];
    assert!(!expr_maybe_list_starts_with(&list, &set_of(&["A", "B"])));
}

#[test]
fn validation_is_repeatable() {
    let e = f("∀x ∃y R(x, y)");
    assert_eq!(validate_syntax(&e), Ok(()));
    assert_eq!(validate_syntax(&e), Ok(()));
    let before = e.copy();
    assert_eq!(validate_syntax(&e), Ok(()));
    assert_eq!(e, before);
}

#[test]
fn validation_rejects_generics() {
    let e = Expr::And(
        Box::new(Expr::Literal(Literal("A".to_string()))),
        Box::new(Expr::Generic("g".to_string())),
    );
    assert_eq!(validate_syntax(&e), Err(EngineError::NotSupported("Generics".to_string())));
}

#[test]
fn validation_stops_at_first_free_variable() {
    let free = |name: &str| Expr::Variable(Variable { name: name.to_string(), id: 7 });
    let e = Expr::Or(Box::new(free("u")), Box::new(free("v")));
    assert_eq!(
        validate_syntax(&e),
        Err(EngineError::ValidationError(ValidationError::InvalidVariable("u".to_string())))
    );
}

#[test]
fn variable_bound_by_identity_not_by_name() {
    let bound = Variable { name: "x".to_string(), id: 1 };
    let other = Variable { name: "x".to_string(), id: 2 };
    let e = Expr::Universal {
        iter: bound,
        expr: Box::new(Expr::Group(GroupKind::Paren, Box::new(Expr::Variable(other)))),
    };
    assert_eq!(
        validate_syntax(&e),
        Err(EngineError::ValidationError(ValidationError::InvalidVariable("x".to_string())))
    );
}

#[test]
fn rule_names_round_trip() {
    for rule in BranchRule::all() {
        assert_eq!(BranchRule::from_name(rule.name()), Some(rule));
    }
    assert_eq!(BranchRule::NotBiconditional.name(), "NotBiconditional");
    assert_eq!(BranchRule::from_name("Xor"), None);
}

#[test]
fn fresh_uids() {
    let a = Uid::new();
    let b = Uid::new();
    assert_eq!(a.as_str().len(), 10);
    assert!(a.as_str().chars().all(|c| c == '_' || c == '-' || c.is_ascii_alphanumeric()));
    assert_ne!(a, b);
    assert_eq!(Uid::from_text("abc").to_string(), "abc");
}

fn statements(items: &[&str]) -> Vec<Option<Expr>> {
    items.iter().map(|t| parse(t).ok()).collect()
}

fn subs(first: &[&str], second: &[&str]) -> Option<SubBranches> {
    Some(SubBranches {
        first_uid: Uid::from_text("one"),
        first: statements(first),
        second_uid: Uid::from_text("two"),
        second: statements(second),
    })
}

#[test]
fn branch_split_correctly_in_either_order() {
    let root = Some(Some(f("A ↔ B")));
    let rule = Some(BranchRule::Biconditional);
    assert_eq!(branch_error(rule, &root, &subs(&["B", "A", "C"], &["¬A", "¬B"])), None);
    assert_eq!(branch_error(rule, &root, &subs(&["¬B", "¬A"], &["A", "B"])), None);
}

#[test]
fn branch_with_one_wrong_sub_branch() {
    let root = Some(Some(f("A ∨ B")));
    let rule = Some(BranchRule::Or);
    assert_eq!(
        branch_error(rule, &root, &subs(&["A"], &["C"])),
        Some(BranchError::SubBranch(Uid::from_text("two")))
    );
    assert_eq!(
        branch_error(rule, &root, &subs(&["C"], &["B"])),
        Some(BranchError::SubBranch(Uid::from_text("one")))
    );
    assert_eq!(branch_error(rule, &root, &subs(&["C"], &["D"])), Some(BranchError::SubBranches));
}

#[test]
fn branch_preconditions() {
    let root = Some(Some(f("A ∨ B")));
    assert_eq!(branch_error(None, &root, &subs(&["A"], &["B"])), Some(BranchError::NoRuleSelected));
    assert_eq!(branch_error(Some(BranchRule::Or), &root, &None), Some(BranchError::NoStatements));
    assert_eq!(
        branch_error(Some(BranchRule::Or), &Some(None), &subs(&["A"], &["B"])),
        Some(BranchError::DependentStatementError)
    );
    assert_eq!(branch_error(None, &root, &None), None);
    assert_eq!(
        branch_error(Some(BranchRule::Conditional), &root, &subs(&["A"], &["B"])),
        Some(BranchError::Root(wrong_type(ExprDiscriminants::Conditional, ExprDiscriminants::Or)))
    );
}

#[test]
fn validation_accepts_the_error_marker() {
    assert_eq!(validate_syntax(&Expr::Invalid), Ok(()));
    let e = Expr::And(Box::new(Expr::Invalid), Box::new(Expr::Generic("g".to_string())));
    assert_eq!(validate_syntax(&e), Err(EngineError::NotSupported("Generics".to_string())));
}
