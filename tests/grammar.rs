use std::collections::hash_map::DefaultHasher;
use std::hash::{Hash, Hasher};
use yggdrasil::error::{EngineError, ErrorReason, ValidationError, YggError};
use yggdrasil::expr::{Constant, ConstantExpr, Expr, GroupKind, Literal};
use yggdrasil::parser::{parse, parser, YggdrasilGrammarParserCache};
use yggdrasil::validate::validate_syntax;

fn lit(name: &str) -> Expr {
    Expr::Literal(Literal(name.to_string()))
}

fn hash_of(e: &Expr) -> u64 {
    let mut h = DefaultHasher::new();
    e.hash(&mut h);
    h.finish()
}

fn is_custom(e: &YggError, msg: &str) -> bool {
    match e.reason() {
        ErrorReason::Custom(m) => m == msg,
        _ => false,
    }
}

const AMBIGUOUS: &str = "The operators in this expression are not associative; use parentheses to indicate order of operation";

#[test]
fn grouping_is_transparent_for_every_bracket_style() {
    let f = parse("A ∧ (B → C)").unwrap();
    for kind in [GroupKind::Paren, GroupKind::Bracket, GroupKind::Brace] {
        let g = Expr::Group(kind, Box::new(f.copy()));
        assert!(f.equals(&g));
        assert!(g.equals(&f));
        assert_eq!(hash_of(&f.simplified()), hash_of(&g.simplified()));
    }
}

#[test]
fn bracket_styles_parse_alike() {
    let a = parse("(A ∨ B) ∧ C").unwrap();
    let b = parse("[A ∨ B] ∧ C").unwrap();
    let c = parse("{A ∨ B} ∧ C").unwrap();
    assert!(a.equals(&b));
    assert!(b.equals(&c));
    assert_ne!(a, b);
    assert_eq!(a.simplified(), c.simplified());
}

#[test]
fn structurally_different_formulas_are_not_equal() {
    let a = parse("A ∧ B").unwrap();
    let b = parse("A ∨ B").unwrap();
    let c = parse("B ∧ A").unwrap();
    assert!(!a.equals(&b));
    assert!(!a.equals(&c));
}

#[test]
fn chained_connectives_are_ambiguous() {
    let r = parse("A & B & C");
    let errors = r.unwrap_err();
    assert_eq!(errors.len(), 1);
    assert!(is_custom(&errors[0], AMBIGUOUS));
    assert_eq!(errors[0].start(), 2);
    assert_eq!(errors[0].end(), 7);
}

#[test]
fn mixed_connectives_of_one_tier_are_ambiguous() {
    let (out, errors) = parser("A ∧ B ∨ C");
    assert_eq!(out, Some(Expr::Invalid));
    assert!(is_custom(&errors[0], AMBIGUOUS));
    assert!(parse("A → B ↔ C").is_err());
}

#[test]
fn explicit_grouping_resolves_ambiguity() {
    let e = parse("(A & B) & C").unwrap();
    let expected = Expr::And(
        Box::new(Expr::Group(
            GroupKind::Paren,
            Box::new(Expr::And(Box::new(lit("A")), Box::new(lit("B")))),
        )),
        Box::new(lit("C")),
    );
    assert_eq!(e, expected);
}

#[test]
fn first_tier_binds_tighter_than_implication() {
    let e = parse("A ∧ B → C ∨ D").unwrap();
    let expected = Expr::Conditional(
        Box::new(Expr::And(Box::new(lit("A")), Box::new(lit("B")))),
        Box::new(Expr::Or(Box::new(lit("C")), Box::new(lit("D")))),
    );
    assert_eq!(e, expected);
}

#[test]
fn ascii_spellings_of_connectives() {
    assert_eq!(parse("A * B").unwrap(), parse("A ∧ B").unwrap());
    assert_eq!(parse("A + B").unwrap(), parse("A | B").unwrap());
    assert_eq!(parse("A !| B").unwrap(), parse("A ⊕ B").unwrap());
    assert_eq!(parse("A -> B").unwrap(), parse("A → B").unwrap());
    assert_eq!(parse("A <-> B").unwrap(), parse("A ↔ B").unwrap());
    assert_eq!(parse("~A").unwrap(), Expr::Not(Box::new(lit("A"))));
    assert_eq!(parse("!A").unwrap(), parse("¬A").unwrap());
}

#[test]
fn constants_of_truth() {
    assert_eq!(parse("⊤").unwrap(), Expr::Tautology);
    assert_eq!(parse("1").unwrap(), Expr::Tautology);
    assert_eq!(parse("⊥").unwrap(), Expr::Contradiction);
    assert_eq!(parse("0").unwrap(), Expr::Contradiction);
}

#[test]
fn quantified_variable_resolves_to_its_binder() {
    let e = parse("∀x P(x)").unwrap();
    match &e {
        Expr::Universal { iter, expr } => {
            assert_eq!(iter.name, "x");
            match expr.as_ref() {
                Expr::Predicate { pred, args } => {
                    assert_eq!(pred.0, "P");
                    assert_eq!(args.len(), 1);
                    assert_eq!(args[0], ConstantExpr::Variable(iter.copy()));
                }
                other => panic!("unexpected body {:?}", other),
            }
        }
        other => panic!("unexpected formula {:?}", other),
    }
    assert_eq!(validate_syntax(&e), Ok(()));
}

#[test]
fn free_variable_is_read_but_rejected_by_validation() {
    let (out, errors) = parser("P(x)");
    assert_eq!(errors.len(), 1);
    assert!(is_custom(&errors[0], "This variable does not exist"));
    assert_eq!((errors[0].start(), errors[0].end()), (2, 3));
    let e = out.unwrap();
    assert_eq!(
        validate_syntax(&e),
        Err(EngineError::ValidationError(ValidationError::InvalidVariable("x".to_string())))
    );
    assert!(parse("P(x)").is_err());
}

#[test]
fn nested_quantifiers_get_distinct_identities() {
    let e = parse("∀x ∃y Q(x, y)").unwrap();
    match &e {
        Expr::Universal { iter: x, expr } => match expr.as_ref() {
            Expr::Existential { iter: y, expr } => {
                assert_ne!(x.id, y.id);
                match expr.as_ref() {
                    Expr::Predicate { args, .. } => {
                        assert_eq!(args[0], ConstantExpr::Variable(x.copy()));
                        assert_eq!(args[1], ConstantExpr::Variable(y.copy()));
                    }
                    other => panic!("unexpected body {:?}", other),
                }
            }
            other => panic!("unexpected body {:?}", other),
        },
        other => panic!("unexpected formula {:?}", other),
    }
}

#[test]
fn shadowing_binds_the_innermost_quantifier() {
    let e = parse("@x /x P(x)").unwrap();
    match &e {
        Expr::Universal { iter: outer, expr } => match expr.as_ref() {
            Expr::Existential { iter: inner, expr } => {
                assert_ne!(outer.id, inner.id);
                match expr.as_ref() {
                    Expr::Predicate { args, .. } => {
                        assert_eq!(args[0], ConstantExpr::Variable(inner.copy()));
                    }
                    other => panic!("unexpected body {:?}", other),
                }
            }
            other => panic!("unexpected body {:?}", other),
        },
        other => panic!("unexpected formula {:?}", other),
    }
}

#[test]
fn equality_between_terms() {
    let e = parse("a = b").unwrap();
    let expected = Expr::ConstantValue(ConstantExpr::Operator(
        "=".to_string(),
        Box::new(ConstantExpr::Constant(Constant("a".to_string()))),
        Box::new(ConstantExpr::Constant(Constant("b".to_string()))),
    ));
    assert_eq!(e, expected);
}

#[test]
fn inequality_is_negated_equality() {
    let expected = Expr::Not(Box::new(Expr::ConstantValue(ConstantExpr::Operator(
        "=".to_string(),
        Box::new(ConstantExpr::Constant(Constant("a".to_string()))),
        Box::new(ConstantExpr::Number(3)),
    ))));
    assert_eq!(parse("a != 3").unwrap(), expected);
    assert_eq!(parse("a ≠ 3").unwrap(), expected);
}

#[test]
fn function_terms_and_grouped_terms() {
    let e = parse("∀x (s(x) < (x + 1))").unwrap();
    let body = match &e {
        Expr::Universal { expr, .. } => expr.simplified(),
        other => panic!("unexpected formula {:?}", other),
    };
    match body {
        Expr::ConstantValue(ConstantExpr::Operator(op, a, b)) => {
            assert_eq!(op, "<");
            assert!(matches!(*a, ConstantExpr::Function { .. }));
            assert!(matches!(*b, ConstantExpr::Operator(_, _, _)));
        }
        other => panic!("unexpected body {:?}", other),
    }
}

#[test]
fn number_too_large_for_isize_is_rejected() {
    let (out, errors) = parser("P(99999999999999999999)");
    assert!(out.is_some());
    assert_eq!(errors.len(), 1);
    assert!(is_custom(&errors[0], "Could not parse number: number too large to fit in target type"));
    assert_eq!((errors[0].start(), errors[0].end()), (2, 22));
    assert!(parse("a = 99999999999999999999999").is_err());
    let e = parse("a = 9223372036854775807").unwrap();
    match e {
        Expr::ConstantValue(ConstantExpr::Operator(_, _, b)) => {
            assert_eq!(*b, ConstantExpr::Number(isize::MAX));
        }
        other => panic!("unexpected formula {:?}", other),
    }
}

#[test]
fn trailing_input_is_reported_where_it_starts() {
    let (out, errors) = parser("A B");
    assert!(out.is_none());
    assert_eq!(errors.len(), 1);
    assert_eq!(
        errors[0].reason(),
        &ErrorReason::ExpectedFound { expected: vec!["end of input".to_string()], found: Some('B') }
    );
    assert_eq!((errors[0].start(), errors[0].end()), (2, 3));
}

#[test]
fn empty_input_is_an_error_at_the_end() {
    let (out, errors) = parser("   ");
    assert!(out.is_none());
    assert_eq!(
        errors[0].reason(),
        &ErrorReason::ExpectedFound { expected: vec!["a formula".to_string()], found: None }
    );
    assert_eq!(errors[0].start(), 3);
}

#[test]
fn whitespace_is_insignificant() {
    assert_eq!(parse("  A∧B ").unwrap(), parse("A ∧ B").unwrap());
}

#[test]
fn cached_parser_handle_parses_alike() {
    let cache = YggdrasilGrammarParserCache::default();
    let (out, errors) = cache.parse("A ∨ B");
    assert!(errors.is_empty());
    assert_eq!(out.unwrap(), parse("A ∨ B").unwrap());
}

#[test]
fn custom_error_spans() {
    let e = YggError::custom(vec![(4, 9), (2, 7)], "message".to_string());
    assert_eq!(e.start(), 2);
    assert_eq!(e.end(), 9);
    assert_eq!(e.spans().len(), 2);
    let none = YggError::custom(Vec::new(), "message".to_string());
    assert_eq!((none.start(), none.end()), (0, 0));
}

#[test]
fn rendered_formula_reparses_to_the_same_structure() {
    let inputs = [
        "A ∧ (B → C)",
        "(A & B) & C",
        "¬A ↔ [B ⊕ C]",
        "∀x ∃y (R(x, y) → Q(s(x), 3))",
        "∀x (a != x)",
        "{a = b} ∨ ⊥",
        "@z (z < (z + 1))",
    ];
    for text in inputs {
        let e = parse(text).unwrap();
        let again = parse(&e.render()).unwrap();
        assert_eq!(again.simplified().render(), e.simplified().render(), "{}", text);
    }
}

#[test]
fn render_uses_canonical_symbols() {
    assert_eq!(parse("A & ~B").unwrap().render(), "(A) ∧ (¬(B))");
    assert_eq!(parse("@x P(x)").unwrap().render(), "∀x (P(x))");
    assert_eq!(parse("[⊤] -> {⊥}").unwrap().render(), "([⊤]) → ({⊥})");
    assert_eq!(parse("[1] -> {0}").unwrap().render(), "1 -> 0");
    assert_eq!(parse("f(a, 12) = b").unwrap().render(), "f(a, 12) = b");
}

#[test]
fn bracketed_equalities_joined_by_a_connective_read_as_one_relation() {
    // Term operators are any one or two symbol characters, `∧` among them, and
    // brackets group terms as well as formulas.
    let e = parse("(a = b) ∧ (c = d)").unwrap();
    match e {
        Expr::ConstantValue(ConstantExpr::Operator(op, _, _)) => assert_eq!(op, "∧"),
        other => panic!("unexpected formula {:?}", other),
    }
}

#[test]
fn test() {
    let input = "(A | B | C) &( @x (P(y)))";
    let (out, errors) = parser(input);
    assert!(out.is_some());
    assert_eq!(errors.len(), 2);
    assert!(is_custom(&errors[0], AMBIGUOUS));
    assert!(is_custom(&errors[1], "This variable does not exist"));
}
