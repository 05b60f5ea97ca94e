use vstd::prelude::*;
use crate::expr::{simplify, Binding, Formula, GroupKind, Term};
use crate::grammar::{
    at, atom, bracket, comparison, expr, extra_ops, ident_end, is_alnum, is_upper, is_ws,
    lookup, negation, op_at, operand, parse_result, quantified, related, skip_ws, term_atom,
    term_expr,
    tier, unequal,
};
use crate::readback::{
    lemma_name_end, lemma_skip_bounds, lemma_skip_stops, erase_terms, lemma_term_args, lemma_term_atom, lemma_term_expr, lemma_terms_front,
    lemma_term_starts, readable_term, readable_terms, resolves, term_operator, text_at,
    variable_name,
};
use crate::render::{bracketed, infix, render, render_operand, render_term, render_terms};

verus! {

/// A literal name as the grammar reads it: an upper-case letter, then letters
/// and digits.
pub open spec fn literal_name(n: Seq<char>) -> bool {
    &&& n.len() > 0
    &&& is_upper(n[0])
    &&& forall|i: int| 0 <= i < n.len() ==> is_alnum(#[trigger] n[i])
}

/// A relation between terms, possibly in brackets.
pub open spec fn relation_like(f: Formula) -> bool {
    simplify(f) is ConstantValue
}

/// An operator that relates two terms at the level of formulas: one or two
/// symbol characters, other than `!=` and `≠`, which read as negated equality.
pub open spec fn relation_operator(op: Seq<char>) -> bool {
    &&& term_operator(op)
    &&& op[0] != '≠'
    &&& !(op.len() == 2 && op[0] == '!' && op[1] == '=')
}

/// Formulas that read back from their text: named literals and predicates,
/// relations between terms, `⊤`, `⊥`, negation, the five connectives,
/// quantifiers and brackets, with every variable bound by an enclosing
/// quantifier or named in `names`. A connective may not take a relation as an
/// operand: brackets group terms too, so `(a = b) ∧ (c = d)` reads as one
/// relation whose operator is `∧`.
pub open spec fn readable(f: Formula, names: Set<Seq<char>>) -> bool
    decreases f,
{
    match f {
        Formula::Literal(n) => literal_name(n),
        Formula::Predicate(n, args) => literal_name(n) && args.len() > 0 && readable_terms(
            args,
            names,
        ),
        Formula::Tautology | Formula::Contradiction => true,
        Formula::Not(a) | Formula::Group(_, a) => readable(*a, names),
        Formula::And(a, b) | Formula::Or(a, b) | Formula::Xor(a, b) | Formula::Conditional(a, b)
        | Formula::Biconditional(a, b) => readable(*a, names) && readable(*b, names)
            && !relation_like(*a) && !relation_like(*b),
        Formula::ConstantValue(t) => match t {
            Term::Operator(op, a, b) => relation_operator(op) && readable_term(*a, names)
                && readable_term(*b, names),
            _ => false,
        },
        Formula::Universal(v, a) | Formula::Existential(v, a) => variable_name(v.name) && readable(
            *a,
            names.insert(v.name),
        ),
        _ => false,
    }
}

/// The number of quantifiers in a formula.
pub open spec fn binders(f: Formula) -> nat
    decreases f,
{
    match f {
        Formula::Not(a) | Formula::Group(_, a) => binders(*a),
        Formula::And(a, b) | Formula::Or(a, b) | Formula::Xor(a, b) | Formula::Conditional(a, b)
        | Formula::Biconditional(a, b) => binders(*a) + binders(*b),
        Formula::Universal(_, a) | Formula::Existential(_, a) => binders(*a) + 1,
        _ => 0,
    }
}

/// A formula with every binding identity replaced by zero, in its variables
/// and its quantifiers alike.
pub open spec fn erase(f: Formula) -> Formula
    decreases f,
{
    match f {
        Formula::Variable(b) => Formula::Variable(Binding { name: b.name, id: 0 }),
        Formula::Predicate(n, args) => Formula::Predicate(n, erase_terms(args)),
        Formula::ConstantValue(t) => Formula::ConstantValue(crate::readback::erase_term(t)),
        Formula::Not(a) => Formula::Not(Box::new(erase(*a))),
        Formula::Group(k, a) => Formula::Group(k, Box::new(erase(*a))),
        Formula::And(a, b) => Formula::And(Box::new(erase(*a)), Box::new(erase(*b))),
        Formula::Or(a, b) => Formula::Or(Box::new(erase(*a)), Box::new(erase(*b))),
        Formula::Xor(a, b) => Formula::Xor(Box::new(erase(*a)), Box::new(erase(*b))),
        Formula::Conditional(a, b) => Formula::Conditional(Box::new(erase(*a)), Box::new(erase(*b))),
        Formula::Biconditional(a, b) => Formula::Biconditional(
            Box::new(erase(*a)),
            Box::new(erase(*b)),
        ),
        Formula::Universal(v, a) => Formula::Universal(
            Binding { name: v.name, id: 0 },
            Box::new(erase(*a)),
        ),
        Formula::Existential(v, a) => Formula::Existential(
            Binding { name: v.name, id: 0 },
            Box::new(erase(*a)),
        ),
        Formula::UnknownOperator(a, op, b) => Formula::UnknownOperator(
            Box::new(erase(*a)),
            op,
            Box::new(erase(*b)),
        ),
        _ => f,
    }
}

/// Equal structure, brackets and binding identities aside: the same names in
/// the same places.
pub open spec fn same_reading(g: Formula, f: Formula) -> bool {
    erase(simplify(g)) == erase(simplify(f))
}

pub open spec fn size(f: Formula) -> nat
    decreases f,
{
    match f {
        Formula::Not(a) | Formula::Group(_, a) | Formula::Universal(_, a)
        | Formula::Existential(_, a) => size(*a) + 1,
        Formula::And(a, b) | Formula::Or(a, b) | Formula::Xor(a, b) | Formula::Conditional(a, b)
        | Formula::Biconditional(a, b) => size(*a) + size(*b) + 1,
        _ => 1,
    }
}

/// `f` is written at `p` in `s`.
pub open spec fn written_at(s: Seq<char>, p: int, f: Formula) -> bool {
    &&& 0 <= p
    &&& p + render(f).len() <= s.len()
    &&& s.subrange(p, p + render(f).len()) == render(f)
}

/// What may follow a formula without being read as part of it.
pub open spec fn boundary(s: Seq<char>, q: int) -> bool {
    q == s.len() || (0 <= q < s.len() && !is_alnum(s[q]) && s[q] != '(')
}

proof fn lemma_render_starts(f: Formula, names: Set<Seq<char>>)
    requires
        readable(f, names),
    ensures
        render(f).len() > 0,
        !is_ws(render(f)[0]),
        f !is ConstantValue ==> !is_alnum(render(f)[0]) || is_upper(render(f)[0]),
        render(f)[0] != '@' && render(f)[0] != '/',
        render(f)[0] == '∀' ==> f is Universal,
        render(f)[0] == '∃' ==> f is Existential,
        render(f)[0] != '!' && render(f)[0] != '~',
        render(f)[0] == '¬' ==> f is Not,
        bracket(render(f)[0]) is Some ==> (f is Group || f is And || f is Or || f is Xor
            || f is Conditional || f is Biconditional || f is ConstantValue),
{
    match f {
        Formula::Literal(n) => {},
        Formula::ConstantValue(t) => {
            if let Term::Operator(_, a, _) = t {
                lemma_term_starts(t, names);
                assert(render(f)[0] == render_term(t)[0]);
            }
        },
        Formula::Group(k, a) => {
            match k {
                GroupKind::Paren => {},
                GroupKind::Bracket => {},
                GroupKind::Brace => {},
            }
        },
        _ => {},
    }
}

proof fn lemma_written_inner(s: Seq<char>, p: int, f: Formula, a: Formula, off: int)
    requires
        written_at(s, p, f),
        0 <= off,
        off + render(a).len() <= render(f).len(),
        render(f).subrange(off, off + render(a).len()) == render(a),
    ensures
        written_at(s, p + off, a),
{
    assert(s.subrange(p + off, p + off + render(a).len()) =~= render(f).subrange(
        off,
        off + render(a).len(),
    ));
}

proof fn lemma_written_char(s: Seq<char>, p: int, f: Formula, i: int)
    requires
        written_at(s, p, f),
        0 <= i < render(f).len(),
    ensures
        s[p + i] == render(f)[i],
{
    assert(s.subrange(p, p + render(f).len())[i] == s[p + i]);
}

proof fn lemma_written_inner_text(s: Seq<char>, p: int, f: Formula, off: int, inner: Seq<char>)
    requires
        written_at(s, p, f),
        0 <= off,
        off + inner.len() <= render(f).len(),
        render(f).subrange(off, off + inner.len()) == inner,
    ensures
        text_at(s, p + off, inner),
{
    assert(s.subrange(p + off, p + off + inner.len()) =~= render(f).subrange(
        off,
        off + inner.len(),
    ));
}

/// The first operand of a bracketed formula or of a connective starts right
/// after the opening bracket.
proof fn lemma_first_inner(f: Formula)
    requires
        f is Group || f is And || f is Or || f is Xor || f is Conditional || f is Biconditional,
    ensures
        ({
            let a = match f {
                Formula::Group(_, a) | Formula::And(a, _) | Formula::Or(a, _) | Formula::Xor(a, _)
                | Formula::Conditional(a, _) | Formula::Biconditional(a, _) => *a,
                _ => f,
            };
            &&& 1 + render(a).len() <= render(f).len()
            &&& render(f).subrange(1, 1 + render(a).len() as int) == render(a)
        }),
{
    match f {
        Formula::Group(k, a) => {
            let r = render(*a);
            match k {
                GroupKind::Paren => assert(render(f).subrange(1, 1 + r.len() as int) =~= r),
                GroupKind::Bracket => assert(render(f).subrange(1, 1 + r.len() as int) =~= r),
                GroupKind::Brace => assert(render(f).subrange(1, 1 + r.len() as int) =~= r),
            }
        },
        Formula::And(a, b) | Formula::Or(a, b) | Formula::Xor(a, b) | Formula::Conditional(a, b)
        | Formula::Biconditional(a, b) => {
            let r = render(*a);
            assert(render(f).subrange(1, 1 + r.len() as int) =~= r);
        },
        _ => {},
    }
}

/// No term starts where a propositional formula is written.
proof fn lemma_no_term_atom(
    s: Seq<char>,
    p: int,
    f: Formula,
    ctx: Seq<Binding>,
    names: Set<Seq<char>>,
)
    requires
        readable(f, names),
        !relation_like(f),
        written_at(s, p, f),
    ensures
        term_atom(s, p, ctx) is None,
    decreases f,
{
    lemma_render_starts(f, names);
    lemma_written_char(s, p, f, 0);
    lemma_skip_stops(s, p);
    if bracket(s[p]) is Some {
        lemma_first_inner(f);
        let a = match f {
            Formula::Group(_, a) | Formula::And(a, _) | Formula::Or(a, _) | Formula::Xor(a, _)
            | Formula::Conditional(a, _) | Formula::Biconditional(a, _) => *a,
            _ => f,
        };
        lemma_written_inner(s, p, f, a, 1);
        lemma_render_starts(a, names);
        lemma_written_char(s, p + 1, a, 0);
        lemma_skip_stops(s, p + 1);
        lemma_no_term_atom(s, p + 1, a, ctx, names);
        assert(term_expr(s, p + 1, ctx) is None);
    }
}

/// A formula is followed by the end of the text or by a closing bracket.
pub open spec fn closing(s: Seq<char>, q: int) -> bool {
    q == s.len() || (0 <= q < s.len() && (s[q] == ')' || s[q] == ']' || s[q] == '}'))
}

pub open spec fn is_unit(f: Formula) -> bool {
    f is Literal || f is Predicate || f is Tautology || f is Contradiction || f is Not || f is Group
        || f is Universal || f is Existential || f is ConstantValue
}

/// A relation, or the negation of one, reads back only up to a closing
/// bracket or the end.
pub open spec fn needs_closing(f: Formula) -> bool {
    relation_like(f) || (f matches Formula::Not(a) && relation_like(*a))
}

pub open spec fn first_tier(f: Formula) -> bool {
    f is And || f is Or || f is Xor
}

pub open spec fn left_of(f: Formula) -> Formula {
    match f {
        Formula::And(a, _) | Formula::Or(a, _) | Formula::Xor(a, _) | Formula::Conditional(a, _)
        | Formula::Biconditional(a, _) => *a,
        _ => f,
    }
}

pub open spec fn right_of(f: Formula) -> Formula {
    match f {
        Formula::And(_, b) | Formula::Or(_, b) | Formula::Xor(_, b) | Formula::Conditional(_, b)
        | Formula::Biconditional(_, b) => *b,
        _ => f,
    }
}

pub open spec fn symbol_of(f: Formula) -> char {
    match f {
        Formula::And(..) => '∧',
        Formula::Or(..) => '∨',
        Formula::Xor(..) => '⊕',
        Formula::Conditional(..) => '→',
        _ => '↔',
    }
}

pub open spec fn paren(a: Formula) -> Formula {
    Formula::Group(GroupKind::Paren, Box::new(a))
}

proof fn lemma_binary_layout(f: Formula)
    requires
        first_tier(f) || f is Conditional || f is Biconditional,
    ensures
        ({
            let ra = render(left_of(f));
            let rb = render(right_of(f));
            let r = render(f);
            &&& r.len() == (ra.len() as int) + (rb.len() as int) + 7
            &&& r.subrange(0, (ra.len() as int) + 2) == render(paren(left_of(f)))
            &&& r[(ra.len() as int) + 2] == ' '
            &&& r[(ra.len() as int) + 3] == symbol_of(f)
            &&& r[(ra.len() as int) + 4] == ' '
            &&& r.subrange((ra.len() as int) + 5, r.len() as int) == render(paren(right_of(f)))
            &&& render(paren(left_of(f))).len() == (ra.len() as int) + 2
            &&& render(paren(right_of(f))).len() == (rb.len() as int) + 2
        }),
{
    let ra = render(left_of(f));
    let rb = render(right_of(f));
    let r = render(f);
    assert(r == infix(ra, seq![symbol_of(f)], rb));
    assert(r.subrange(0, (ra.len() as int) + 2) =~= bracketed(ra));
    assert(r.subrange((ra.len() as int) + 5, r.len() as int) =~= bracketed(rb));
}

proof fn lemma_size_positive(f: Formula)
    ensures
        size(f) >= 1,
{
}

/// A bracketed formula is read back as a group around the formula it holds.
#[verifier::rlimit(100)]
#[verifier::spinoff_prover]
proof fn lemma_atom_group(
    s: Seq<char>,
    p: int,
    k: GroupKind,
    a: Formula,
    ctx: Seq<Binding>,
    next: u64,
    names: Set<Seq<char>>,
)
    requires
        readable(a, names),
        resolves(ctx, names),
        next + binders(a) < u64::MAX,
        written_at(s, p, Formula::Group(k, Box::new(a))),
    ensures
        atom(s, p, ctx, next) matches Some(r) && r.end == skip_ws(
            s,
            p + render(Formula::Group(k, Box::new(a))).len(),
        ) && r.next == next + binders(a) && r.errors == Seq::<crate::error::SyntaxError>::empty()
            && same_reading(r.value, a),
    decreases size(a) + 1, 0nat,
{
    let f = Formula::Group(k, Box::new(a));
    let ra = render(a);
    lemma_first_inner(f);
    lemma_written_inner(s, p, f, a, 1);
    lemma_render_starts(f, names);
    lemma_render_starts(a, names);
    lemma_written_char(s, p, f, 0);
    lemma_written_char(s, p + 1, a, 0);
    lemma_written_char(s, p, f, (ra.len() as int) + 1);
    lemma_skip_stops(s, p);
    lemma_skip_stops(s, p + 1);
    assert(render(f).len() == (ra.len() as int) + 2) by {
        match k {
            GroupKind::Paren => {},
            GroupKind::Bracket => {},
            GroupKind::Brace => {},
        }
    }
    let close = (bracket(s[p])->0).1;
    assert(bracket(s[p]) == Some((k, close)) && s[p + 1 + (ra.len() as int)] == close) by {
        match k {
            GroupKind::Paren => {},
            GroupKind::Bracket => {},
            GroupKind::Brace => {},
        }
    }
    lemma_expr(s, p + 1, a, ctx, next, names);
    lemma_skip_stops(s, p + 1 + (ra.len() as int));
}

/// A predicate application reads back as an atom.
#[verifier::rlimit(100)]
#[verifier::spinoff_prover]
proof fn lemma_predicate(
    s: Seq<char>,
    p: int,
    n: Seq<char>,
    args: Seq<crate::expr::Term>,
    ctx: Seq<Binding>,
    next: u64,
    names: Set<Seq<char>>,
)
    requires
        readable(Formula::Predicate(n, args), names),
        resolves(ctx, names),
        written_at(s, p, Formula::Predicate(n, args)),
    ensures
        atom(s, p, ctx, next) matches Some(r) && r.end == skip_ws(
            s,
            p + render(Formula::Predicate(n, args)).len(),
        ) && r.next == next && r.errors == Seq::<crate::error::SyntaxError>::empty()
            && same_reading(r.value, Formula::Predicate(n, args)),
{
    let f = Formula::Predicate(n, args);
    let ro = render(f);
    let ra = render_terms(args);
    let e = p + (ro.len() as int);
    assert(ro == n + seq!['('] + ra + seq![')']);
    assert(ro.subrange(0, n.len() as int) =~= n);
    assert(ro.subrange((n.len() as int) + 1, (n.len() as int) + 1 + (ra.len() as int)) =~= ra);
    lemma_written_inner_text(s, p, f, 0, n);
    lemma_written_inner_text(s, p, f, (n.len() as int) + 1, ra);
    lemma_written_char(s, p, f, 0);
    lemma_written_char(s, p, f, n.len() as int);
    lemma_written_char(s, p, f, (n.len() as int) + 1 + (ra.len() as int));
    lemma_skip_stops(s, p);
    lemma_skip_bounds(s, e);
    crate::readback::lemma_name_at(s, p, n);
    lemma_terms_front(args, names);
    lemma_term_starts(args[0], names);
    crate::readback::lemma_text_char(s, p + (n.len() as int) + 1, ra, 0);
    lemma_skip_stops(s, p + (n.len() as int) + 1);
    lemma_term_args(s, p + (n.len() as int) + 1, p + (n.len() as int) + 1, args, ctx, names);
}

/// A quantified formula reads back with a fresh binding for its variable.
#[verifier::rlimit(100)]
#[verifier::spinoff_prover]
proof fn lemma_quantifier(
    s: Seq<char>,
    p: int,
    f: Formula,
    ctx: Seq<Binding>,
    next: u64,
    names: Set<Seq<char>>,
)
    requires
        f is Universal || f is Existential,
        readable(f, names),
        resolves(ctx, names),
        next + binders(f) < u64::MAX,
        written_at(s, p, f),
    ensures
        quantified(s, p, ctx, next) matches Some(r) && r.end == skip_ws(s, p + render(f).len())
            && r.next == next + binders(f) && r.errors == Seq::<crate::error::SyntaxError>::empty()
            && same_reading(r.value, f),
    decreases size(f), 1nat,
{
    let (v, a) = match f {
        Formula::Universal(v, a) | Formula::Existential(v, a) => (v, *a),
        _ => (Binding { name: seq![], id: 0 }, f),
    };
    let ro = render(f);
    let name = v.name;
    let g = paren(a);
    let rg = render(g);
    let e = p + (ro.len() as int);
    assert(ro == seq![ro[0]] + name + seq![' '] + rg);
    assert(ro.subrange(1, 1 + name.len() as int) =~= name);
    assert(ro.subrange((name.len() as int) + 2, ro.len() as int) =~= rg);
    lemma_written_inner_text(s, p, f, 1, name);
    lemma_written_inner(s, p, f, g, (name.len() as int) + 2);
    lemma_written_char(s, p, f, 0);
    lemma_written_char(s, p, f, 1);
    lemma_written_char(s, p, f, (name.len() as int) + 1);
    lemma_render_starts(g, names.insert(name));
    lemma_written_char(s, p + (name.len() as int) + 2, g, 0);
    lemma_skip_stops(s, p);
    lemma_skip_stops(s, p + 1);
    lemma_skip_stops(s, p + (name.len() as int) + 2);
    lemma_skip_bounds(s, e);
    crate::readback::lemma_name_at(s, p + 1, name);
    let b = Binding { name, id: next };
    let inner = ctx.push(b);
    assert forall|m: Seq<char>| #[trigger] names.insert(name).contains(m) implies lookup(inner, m) is Some by {
        assert(inner.last() == b);
        assert(inner.drop_last() =~= ctx);
    }
    lemma_atom_group(s, p + (name.len() as int) + 2, GroupKind::Paren, a, inner, (next + 1) as u64, names.insert(name));
}

/// A bracketed relation also reads as a bracketed term.
#[verifier::rlimit(100)]
#[verifier::spinoff_prover]
proof fn lemma_relation_atom(
    s: Seq<char>,
    p: int,
    g: Formula,
    ctx: Seq<Binding>,
    names: Set<Seq<char>>,
)
    requires
        g is Group,
        readable(g, names),
        relation_like(g),
        resolves(ctx, names),
        written_at(s, p, g),
    ensures
        term_atom(s, p, ctx) is Some,
        skip_ws(s, term_atom(s, p, ctx)->0.end) == skip_ws(s, p + render(g).len()),
    decreases g,
{
    if let Formula::Group(k, x) = g {
        assert(readable(*x, names));
        let rx = render(*x);
        let e = p + render(g).len();
        lemma_first_inner(g);
        lemma_written_inner(s, p, g, *x, 1);
        lemma_render_starts(g, names);
        lemma_render_starts(*x, names);
        lemma_written_char(s, p, g, 0);
        lemma_written_char(s, p + 1, *x, 0);
        lemma_written_char(s, p, g, (rx.len() as int) + 1);
        lemma_skip_stops(s, p);
        lemma_skip_stops(s, p + 1);
        assert(render(g).len() == (rx.len() as int) + 2) by {
            match k {
                GroupKind::Paren => {},
                GroupKind::Bracket => {},
                GroupKind::Brace => {},
            }
        }
        let close = (bracket(s[p])->0).1;
        assert(bracket(s[p]) == Some((k, close)) && s[p + 1 + (rx.len() as int)] == close && (
        close == ')' || close == ']' || close == '}')) by {
            match k {
                GroupKind::Paren => {},
                GroupKind::Bracket => {},
                GroupKind::Brace => {},
            }
        }
        let c = p + 1 + (rx.len() as int);
        lemma_skip_stops(s, c);
        lemma_skip_bounds(s, c + 1);
        match *x {
            Formula::ConstantValue(t) => {
                assert(rx == render_term(t));
                assert(text_at(s, p + 1, render_term(t)));
                if let Term::Operator(op, a, b) = t {
                    assert(relation_operator(op) && readable_term(*a, names) && readable_term(*b, names));
                    assert(readable_term(t, names));
                }
                lemma_term_expr(s, p + 1, p + 1, t, ctx, names);
            },
            Formula::Group(..) => {
                lemma_relation_atom(s, p + 1, *x, ctx, names);
                lemma_skip_bounds(s, term_atom(s, p + 1, ctx)->0.end);
            },
            _ => {
                assert(simplify(*x) !is ConstantValue);
            },
        }
    }
}

/// A relation between terms, followed by the end or a closing bracket, reads
/// back at the level of negation.
#[verifier::rlimit(100)]
#[verifier::spinoff_prover]
proof fn lemma_relation(
    s: Seq<char>,
    p: int,
    f: Formula,
    ctx: Seq<Binding>,
    next: u64,
    names: Set<Seq<char>>,
)
    requires
        f is ConstantValue,
        readable(f, names),
        resolves(ctx, names),
        written_at(s, p, f),
        closing(s, p + render(f).len()),
    ensures
        negation(s, p, ctx, next) matches Some(r) && r.end == p + render(f).len() && r.next
            == next && r.errors == Seq::<crate::error::SyntaxError>::empty() && same_reading(
            r.value,
            f,
        ),
{
    if let Formula::ConstantValue(t) = f {
        if let Term::Operator(op, a, b) = t {
            let rt = render_term(t);
            let ra = render_operand(*a);
            let rb = render_operand(*b);
            let e = p + rt.len();
            assert(render(f) == rt);
            assert(rt == ra + seq![' '] + op + seq![' '] + rb);
            assert(rt.subrange(0, ra.len() as int) =~= ra);
            assert(rt.subrange((ra.len() as int) + (op.len() as int) + 2, rt.len() as int) =~= rb);
            lemma_written_inner_text(s, p, f, 0, ra);
            lemma_written_inner_text(s, p, f, (ra.len() as int) + (op.len() as int) + 2, rb);
            lemma_term_starts(*a, names);
            lemma_term_starts(*b, names);
            lemma_written_char(s, p, f, 0);
            let q1 = p + (ra.len() as int) + 1;
            lemma_written_char(s, p, f, ra.len() as int);
            lemma_written_char(s, p, f, (ra.len() as int) + 1);
            lemma_written_char(s, p, f, (ra.len() as int) + (op.len() as int) + 1);
            lemma_written_char(s, p, f, (ra.len() as int) + (op.len() as int) + 2);
            if op.len() == 2 {
                lemma_written_char(s, p, f, (ra.len() as int) + 2);
            }
            assert(s.subrange(q1, q1 + op.len()) =~= op) by {
                assert forall|i: int| 0 <= i < op.len() implies s.subrange(q1, q1 + op.len())[i]
                    == op[i] by {
                    lemma_written_char(s, p, f, (ra.len() as int) + 1 + i);
                }
            }
            lemma_term_atom(s, p, *a, ctx, names);
            lemma_skip_stops(s, q1);
            assert(skip_ws(s, p + ra.len()) == q1);
            let q3 = q1 + (op.len() as int) + 1;
            lemma_skip_stops(s, q3);
            assert(skip_ws(s, q1 + op.len()) == q3);
            lemma_term_atom(s, q3, *b, ctx, names);
            lemma_skip_stops(s, e);
            let y = term_atom(s, q3, ctx)->0;
            lemma_skip_bounds(s, y.end);
            assert(y.end == e);
            assert(unequal(s, p, ctx, next) is None);
        }
    }
}

/// A literal, `⊤`, `⊥`, a negation or a bracketed formula is read back at the
/// level of negation.
#[verifier::rlimit(100)]
#[verifier::spinoff_prover]
proof fn lemma_unit(
    s: Seq<char>,
    p: int,
    f: Formula,
    ctx: Seq<Binding>,
    next: u64,
    names: Set<Seq<char>>,
)
    requires
        readable(f, names),
        resolves(ctx, names),
        next + binders(f) < u64::MAX,
        is_unit(f),
        written_at(s, p, f),
        boundary(s, p + render(f).len()),
        needs_closing(f) ==> closing(s, p + render(f).len()),
    ensures
        negation(s, p, ctx, next) matches Some(r) && r.end == skip_ws(s, p + render(f).len())
            && r.next == next + binders(f) && r.errors == Seq::<crate::error::SyntaxError>::empty()
            && same_reading(r.value, f),
    decreases size(f), 2nat,
{
    let e = p + render(f).len();
    lemma_render_starts(f, names);
    lemma_written_char(s, p, f, 0);
    lemma_skip_stops(s, p);
    lemma_skip_bounds(s, e);
    match f {
        Formula::Not(a) => {
            let g = paren(*a);
            assert(render(f) == seq!['¬'] + render(g));
            assert(render(f).subrange(1, render(f).len() as int) =~= render(g));
            lemma_written_inner(s, p, f, g, 1);
            if relation_like(*a) {
                lemma_relation_atom(s, p + 1, g, ctx, names);
                lemma_skip_stops(s, e);
            } else {
                lemma_no_term_atom(s, p + 1, g, ctx, names);
            }
            lemma_render_starts(g, names);
            lemma_written_char(s, p + 1, g, 0);
            lemma_skip_stops(s, p + 1);
            assert(unequal(s, p + 1, ctx, next) is None);
            assert(related(s, p + 1, ctx, next) is None);
            lemma_atom_group(s, p + 1, GroupKind::Paren, *a, ctx, next, names);
            lemma_skip_bounds(s, e);
        },
        Formula::ConstantValue(_) => {
            lemma_relation(s, p, f, ctx, next, names);
        },
        _ => {
            if relation_like(f) {
                lemma_relation_atom(s, p, f, ctx, names);
                lemma_skip_stops(s, e);
            } else {
                lemma_no_term_atom(s, p, f, ctx, names);
            }
            assert(unequal(s, p, ctx, next) is None);
            assert(related(s, p, ctx, next) is None);
            match f {
                Formula::Group(k, a) => {
                    lemma_atom_group(s, p, k, *a, ctx, next, names);
                },
                Formula::Literal(n) => {
                    assert forall|i: int| p + 1 <= i < e implies is_alnum(#[trigger] s[i]) by {
                        lemma_written_char(s, p, f, i - p);
                    }
                    lemma_name_end(s, p + 1, e);
                    assert(s.subrange(p, e) == n);
                },
                Formula::Predicate(n, args) => {
                    lemma_predicate(s, p, n, args, ctx, next, names);
                },
                Formula::Universal(v, a) | Formula::Existential(v, a) => {
                    lemma_quantifier(s, p, f, ctx, next, names);
                },
                _ => {},
            }
        },
    }
}

/// A conjunction, disjunction or exclusive disjunction is read back by the
/// first tier, when no connective of that tier follows it.
#[verifier::rlimit(100)]
#[verifier::spinoff_prover]
proof fn lemma_first_binary(
    s: Seq<char>,
    p: int,
    f: Formula,
    ctx: Seq<Binding>,
    next: u64,
    names: Set<Seq<char>>,
)
    requires
        readable(f, names),
        resolves(ctx, names),
        next + binders(f) < u64::MAX,
        first_tier(f),
        written_at(s, p, f),
        boundary(s, p + render(f).len()),
        0 <= p + render(f).len() <= s.len(),
        op_at(s, skip_ws(s, p + render(f).len()), false) is None,
    ensures
        tier(s, p, ctx, next, false) matches Some(r) && r.end == skip_ws(s, p + render(f).len())
            && r.next == next + binders(f) && r.errors == Seq::<crate::error::SyntaxError>::empty()
            && same_reading(r.value, f),
    decreases size(f), 3nat,
{
    let e = p + render(f).len();
    lemma_render_starts(f, names);
    lemma_written_char(s, p, f, 0);
    lemma_skip_stops(s, p);
    lemma_skip_bounds(s, e);
    let a = left_of(f);
    let b = right_of(f);
    let ra = render(a);
    lemma_binary_layout(f);
    lemma_size_positive(b);
    lemma_size_positive(a);
    let ga = paren(a);
    let gb = paren(b);
    lemma_written_inner(s, p, f, ga, 0);
    lemma_written_inner(s, p, f, gb, (ra.len() as int) + 5);
    lemma_written_char(s, p, f, (ra.len() as int) + 2);
    lemma_written_char(s, p, f, (ra.len() as int) + 3);
    lemma_written_char(s, p, f, (ra.len() as int) + 4);
    lemma_written_char(s, p, f, (ra.len() as int) + 5);
    let q1 = p + (ra.len() as int) + 3;
    lemma_skip_stops(s, q1);
    lemma_skip_stops(s, q1 + 2);
    let mid = (next + binders(a)) as u64;
    let last = (next + binders(f)) as u64;
    lemma_unit(s, p, ga, ctx, next, names);
    lemma_unit(s, q1 + 2, gb, ctx, mid, names);
    let bend = skip_ws(s, e);
    lemma_skip_bounds(s, bend);
    assert(operand(s, p, ctx, next, false) == negation(s, p, ctx, next));
    assert(operand(s, q1 + 2, ctx, mid, false) == negation(s, q1 + 2, ctx, mid));
    assert(op_at(s, q1, false) == Some((if f is And { crate::grammar::BinOp::And } else if f is Or { crate::grammar::BinOp::Or } else { crate::grammar::BinOp::Xor }, 1int)));
    assert(extra_ops(s, bend, ctx, last, false).value.len() == 0);
    let sa = negation(s, p, ctx, next)->0;
    let sb = negation(s, q1 + 2, ctx, mid)->0;
    assert(skip_ws(s, sa.end) == q1);
    assert(skip_ws(s, q1 + 1) == q1 + 2);
    assert(sb.end == bend);
    assert(crate::grammar::ahead(s, p, q1 + 2));
    assert(crate::grammar::ahead(s, p, bend));
}

/// A formula that is not an implication or equivalence is read back by the
/// first tier, when no connective of that tier follows it.
#[verifier::rlimit(100)]
#[verifier::spinoff_prover]
proof fn lemma_tier_a(
    s: Seq<char>,
    p: int,
    f: Formula,
    ctx: Seq<Binding>,
    next: u64,
    names: Set<Seq<char>>,
)
    requires
        readable(f, names),
        resolves(ctx, names),
        next + binders(f) < u64::MAX,
        is_unit(f) || first_tier(f),
        written_at(s, p, f),
        boundary(s, p + render(f).len()),
        needs_closing(f) ==> closing(s, p + render(f).len()),
        0 <= p + render(f).len() <= s.len(),
        op_at(s, skip_ws(s, p + render(f).len()), false) is None,
    ensures
        tier(s, p, ctx, next, false) matches Some(r) && r.end == skip_ws(s, p + render(f).len())
            && r.next == next + binders(f) && r.errors == Seq::<crate::error::SyntaxError>::empty()
            && same_reading(r.value, f),
    decreases size(f), 4nat,
{
    if is_unit(f) {
        let e = p + render(f).len();
        lemma_render_starts(f, names);
        lemma_written_char(s, p, f, 0);
        lemma_skip_stops(s, p);
        lemma_skip_bounds(s, e);
        lemma_unit(s, p, f, ctx, next, names);
        assert(operand(s, p, ctx, next, false) == negation(s, p, ctx, next));
    } else {
        lemma_first_binary(s, p, f, ctx, next, names);
    }
}

/// An implication or equivalence followed by the end or a closing bracket is
/// read back by the second tier.
#[verifier::rlimit(100)]
#[verifier::spinoff_prover]
proof fn lemma_implication(
    s: Seq<char>,
    p: int,
    f: Formula,
    ctx: Seq<Binding>,
    next: u64,
    names: Set<Seq<char>>,
)
    requires
        readable(f, names),
        resolves(ctx, names),
        next + binders(f) < u64::MAX,
        f is Conditional || f is Biconditional,
        written_at(s, p, f),
        closing(s, p + render(f).len()),
    ensures
        tier(s, p, ctx, next, true) matches Some(r) && r.end == p + render(f).len() && r.next == next + binders(f)
            && r.errors == Seq::<crate::error::SyntaxError>::empty() && same_reading(r.value, f),
    decreases size(f), 5nat,
{
    let e = p + render(f).len();
    lemma_render_starts(f, names);
    lemma_written_char(s, p, f, 0);
    lemma_skip_stops(s, p);
    lemma_skip_stops(s, e);
    let a = left_of(f);
    let b = right_of(f);
    let ra = render(a);
    lemma_binary_layout(f);
    lemma_size_positive(b);
    lemma_size_positive(a);
    let ga = paren(a);
    let gb = paren(b);
    lemma_written_inner(s, p, f, ga, 0);
    lemma_written_inner(s, p, f, gb, (ra.len() as int) + 5);
    lemma_written_char(s, p, f, (ra.len() as int) + 2);
    lemma_written_char(s, p, f, (ra.len() as int) + 3);
    lemma_written_char(s, p, f, (ra.len() as int) + 4);
    lemma_written_char(s, p, f, (ra.len() as int) + 5);
    let q1 = p + (ra.len() as int) + 3;
    lemma_skip_stops(s, q1);
    lemma_skip_stops(s, q1 + 2);
    let mid = (next + binders(a)) as u64;
    let last = (next + binders(f)) as u64;
    lemma_tier_a(s, p, ga, ctx, next, names);
    lemma_tier_a(s, q1 + 2, gb, ctx, mid, names);
    assert(operand(s, p, ctx, next, true) == tier(s, p, ctx, next, false));
    assert(operand(s, q1 + 2, ctx, mid, true) == tier(s, q1 + 2, ctx, mid, false));
    assert(op_at(s, q1, true) == Some((if f is Conditional { crate::grammar::BinOp::Conditional } else { crate::grammar::BinOp::Biconditional }, 1int)));
    assert(extra_ops(s, e, ctx, last, true).value.len() == 0);
}

/// A propositional formula followed by the end or a closing bracket is read
/// back whole.
#[verifier::rlimit(100)]
#[verifier::spinoff_prover]
proof fn lemma_expr(
    s: Seq<char>,
    p: int,
    f: Formula,
    ctx: Seq<Binding>,
    next: u64,
    names: Set<Seq<char>>,
)
    requires
        readable(f, names),
        resolves(ctx, names),
        next + binders(f) < u64::MAX,
        written_at(s, p, f),
        closing(s, p + render(f).len()),
    ensures
        expr(s, p, ctx, next) matches Some(r) && r.end == p + render(f).len() && r.next == next + binders(f)
            && r.errors == Seq::<crate::error::SyntaxError>::empty() && same_reading(r.value, f),
    decreases size(f), 6nat,
{
    let e = p + render(f).len();
    if is_unit(f) || first_tier(f) {
        lemma_render_starts(f, names);
        lemma_written_char(s, p, f, 0);
        lemma_skip_stops(s, p);
        lemma_skip_stops(s, e);
        lemma_tier_a(s, p, f, ctx, next, names);
        assert(operand(s, p, ctx, next, true) == tier(s, p, ctx, next, false));
    } else {
        lemma_implication(s, p, f, ctx, next, names);
    }
}

/// Rendering a formula and parsing the text gives back the same formula, up to
/// brackets and binding identities, with no diagnostic.
pub proof fn lemma_render_reparses(f: Formula)
    requires
        readable(f, Set::empty()),
        binders(f) + 1 < u64::MAX,
    ensures
        parse_result(render(f)).0 matches Some(g) && same_reading(g, f),
        parse_result(render(f)).1 == Seq::<crate::error::SyntaxError>::empty(),
{
    let s = render(f);
    assert(s.subrange(0, s.len() as int) =~= s);
    lemma_expr(s, 0, f, seq![], 1, Set::empty());
}

} // verus!
