use vstd::prelude::*;
use crate::error::{Reason, SyntaxError};
use crate::expr::{Binding, Formula, GroupKind, Term};

verus! {

// Character classes.
pub open spec fn is_ws(c: char) -> bool {
    c == ' ' || c == '\t' || c == '\n' || c == '\r'
}

pub open spec fn is_upper(c: char) -> bool {
    'A' <= c <= 'Z'
}

pub open spec fn is_digit(c: char) -> bool {
    '0' <= c <= '9'
}

pub open spec fn is_alnum(c: char) -> bool {
    is_upper(c) || is_digit(c) || 'a' <= c <= 'z'
}

/// Variables are named from `t` to `z`.
pub open spec fn is_var_start(c: char) -> bool {
    't' <= c <= 'z'
}

/// Constants and function symbols are named from `a` to `s`.
pub open spec fn is_const_start(c: char) -> bool {
    'a' <= c <= 's'
}

/// Characters that may form an operator between two terms (`=`, `<`, `!=`); a
/// comma separates arguments instead.
pub open spec fn is_term_op_char(c: char) -> bool {
    !(is_alnum(c) || c == '_' || is_ws(c) || c == '⊤' || c == '⊥' || c == '(' || c == ')'
        || c == '[' || c == ']' || c == '{' || c == '}' || c == '¬' || c == '→' || c == '↔'
        || c == '∀' || c == '@' || c == '∃' || c == ',')
}

/// The bracket style that an opening character starts, with its closing character.
pub open spec fn bracket(c: char) -> Option<(GroupKind, char)> {
    if c == '(' {
        Some((GroupKind::Paren, ')'))
    } else if c == '[' {
        Some((GroupKind::Bracket, ']'))
    } else if c == '{' {
        Some((GroupKind::Brace, '}'))
    } else {
        None
    }
}

pub open spec fn at(s: Seq<char>, p: int, c: char) -> bool {
    0 <= p < s.len() && s[p] == c
}

/// The first position at or after `p` that holds no whitespace.
pub open spec fn skip_ws(s: Seq<char>, p: int) -> int
    decreases s.len() - p,
{
    if 0 <= p < s.len() && is_ws(s[p]) {
        skip_ws(s, p + 1)
    } else {
        p
    }
}

/// The end of the run of letters and digits that starts at `p`.
pub open spec fn ident_end(s: Seq<char>, p: int) -> int
    decreases s.len() - p,
{
    if 0 <= p < s.len() && is_alnum(s[p]) {
        ident_end(s, p + 1)
    } else {
        p
    }
}

/// The end of the run of decimal digits that starts at `p`.
pub open spec fn digits_end(s: Seq<char>, p: int) -> int
    decreases s.len() - p,
{
    if 0 <= p < s.len() && is_digit(s[p]) {
        digits_end(s, p + 1)
    } else {
        p
    }
}

/// The value of a run of decimal digits.
pub open spec fn digits_value(d: Seq<char>) -> int
    decreases d.len(),
{
    if d.len() == 0 {
        0
    } else {
        digits_value(d.drop_last()) * 10 + (d.last() as int - '0' as int)
    }
}

/// The innermost binding of `name` in `ctx`, the latest entry winning.
pub open spec fn lookup(ctx: Seq<Binding>, name: Seq<char>) -> Option<Binding>
    decreases ctx.len(),
{
    if ctx.len() == 0 {
        None
    } else if ctx.last().name == name {
        Some(ctx.last())
    } else {
        lookup(ctx.drop_last(), name)
    }
}

pub open spec fn unbound_message() -> Seq<char> {
    "This variable does not exist"@
}

pub open spec fn ambiguity_message() -> Seq<char> {
    "The operators in this expression are not associative; use parentheses to indicate order of operation"@
}

pub open spec fn custom_error(start: int, end: int, msg: Seq<char>) -> SyntaxError {
    SyntaxError {
        spans: seq![(start as usize, end as usize)],
        start,
        end,
        reason: Reason::Custom(msg),
    }
}

/// What the parser expects after a complete formula.
pub open spec fn end_of_input() -> Seq<char> {
    "end of input"@
}

/// What the parser expects where nothing could be read.
pub open spec fn a_formula() -> Seq<char> {
    "a formula"@
}

/// The error for a number that does not fit an `isize`.
pub open spec fn number_message() -> Seq<char> {
    "Could not parse number: number too large to fit in target type"@
}

/// The error for input that the grammar cannot take at `p`, where it expected
/// `expected`.
pub open spec fn unexpected_at(s: Seq<char>, p: int, expected: Seq<char>) -> SyntaxError {
    let found = if 0 <= p < s.len() {
        Some(s[p])
    } else {
        None
    };
    let end = if 0 <= p < s.len() {
        p + 1
    } else {
        p
    };
    SyntaxError {
        spans: seq![(p as usize, end as usize)],
        start: p,
        end,
        reason: Reason::ExpectedFound(seq![expected], found),
    }
}

/// A successful step of the parser: what was read, where reading stopped, the
/// next fresh binding identity, and the diagnostics raised on the way. Terms
/// bind nothing, so their steps leave `next` at zero.
pub struct Step<T> {
    pub value: T,
    pub end: int,
    pub next: u64,
    pub errors: Seq<SyntaxError>,
}

/// A position strictly ahead of `p`, within the input. Every step reads
/// forward; the grammar says so where it reads on from a position that an
/// earlier step returned.
pub open spec fn ahead(s: Seq<char>, p: int, q: int) -> bool {
    p < q <= s.len()
}

/// A term that is not an operator application: a bracketed term, a function
/// application, a constant, a variable or a number. A number too large for an
/// `isize` is reported and read as `isize::MAX`.
pub open spec fn term_atom(s: Seq<char>, p: int, ctx: Seq<Binding>) -> Option<Step<Term>>
    decreases s.len() - p, 0nat,
{
    let q = skip_ws(s, p);
    if 0 <= p <= q < s.len() && bracket(s[q]) is Some {
        let close = (bracket(s[q])->0).1;
        let q1 = skip_ws(s, q + 1);
        if !ahead(s, p, q1) {
            None
        } else {
            match term_expr(s, q1, ctx) {
                Some(r) => {
                    let q2 = skip_ws(s, r.end);
                    if at(s, q2, close) {
                        Some(Step { value: r.value, end: skip_ws(s, q2 + 1), next: 0, errors: r.errors })
                    } else {
                        None
                    }
                },
                None => None,
            }
        }
    } else if 0 <= p < s.len() && is_const_start(s[p]) {
        let q1 = ident_end(s, p + 1);
        let name = s.subrange(p, q1);
        let plain = Some(Step { value: Term::Constant(name), end: q1, next: 0, errors: seq![] });
        if at(s, q1, '(') && ahead(s, p, q1 + 1) {
            match term_args(s, q1 + 1, ctx) {
                Some(r) => if at(s, r.end, ')') {
                    Some(Step { value: Term::Function(name, r.value), end: r.end + 1, next: 0, errors: r.errors })
                } else {
                    plain
                },
                None => plain,
            }
        } else {
            plain
        }
    } else if 0 <= p < s.len() && is_var_start(s[p]) {
        let q1 = ident_end(s, p + 1);
        let name = s.subrange(p, q1);
        match lookup(ctx, name) {
            Some(b) => Some(Step { value: Term::Variable(b), end: q1, next: 0, errors: seq![] }),
            None => Some(
                Step {
                    value: Term::Variable(Binding { name, id: 0 }),
                    end: q1,
                    next: 0,
                    errors: seq![custom_error(p, q1, unbound_message())],
                },
            ),
        }
    } else if 0 <= p < s.len() && is_digit(s[p]) {
        let q1 = digits_end(s, p + 1);
        let v = digits_value(s.subrange(p, q1));
        if v <= isize::MAX {
            Some(Step { value: Term::Number(v), end: q1, next: 0, errors: seq![] })
        } else {
            Some(
                Step {
                    value: Term::Number(isize::MAX as int),
                    end: q1,
                    next: 0,
                    errors: seq![custom_error(p, q1, number_message())],
                },
            )
        }
    } else {
        None
    }
}

/// A term, or two terms joined by an operator of one or two characters.
pub open spec fn term_expr(s: Seq<char>, p: int, ctx: Seq<Binding>) -> Option<Step<Term>>
    decreases s.len() - p, 1nat,
{
    let q = skip_ws(s, p);
    if !(p <= q <= s.len()) {
        None
    } else {
        match term_atom(s, q, ctx) {
            None => None,
            Some(a) => {
                let plain = Some(Step { value: a.value, end: skip_ws(s, a.end), next: 0, errors: a.errors });
                let q1 = skip_ws(s, a.end);
                if 0 <= q1 < s.len() && is_term_op_char(s[q1]) {
                    let q2 = if q1 + 1 < s.len() && is_term_op_char(s[q1 + 1]) {
                        q1 + 2
                    } else {
                        q1 + 1
                    };
                    let op = s.subrange(q1, q2);
                    let q3 = skip_ws(s, q2);
                    match if ahead(s, p, q3) {
                        term_atom(s, q3, ctx)
                    } else {
                        None
                    } {
                        Some(b) => Some(
                            Step {
                                value: Term::Operator(op, Box::new(a.value), Box::new(b.value)),
                                end: skip_ws(s, b.end),
                                next: 0,
                                errors: a.errors + b.errors,
                            },
                        ),
                        None => plain,
                    }
                } else {
                    plain
                }
            },
        }
    }
}

/// One or more terms separated by commas.
pub open spec fn term_args(s: Seq<char>, p: int, ctx: Seq<Binding>) -> Option<Step<Seq<Term>>>
    decreases s.len() - p, 2nat,
{
    match term_expr(s, p, ctx) {
        None => None,
        Some(first) => {
            let one = Some(Step { value: seq![first.value], end: first.end, next: 0, errors: first.errors });
            if at(s, first.end, ',') && ahead(s, p, first.end + 1) {
                match term_args(s, first.end + 1, ctx) {
                    Some(rest) => Some(
                        Step {
                            value: seq![first.value] + rest.value,
                            end: rest.end,
                            next: 0,
                            errors: first.errors + rest.errors,
                        },
                    ),
                    None => one,
                }
            } else {
                one
            }
        },
    }
}

/// The binary connectives.
#[derive(Clone, Copy, Debug, PartialEq, Eq, Structural)]
pub enum BinOp {
    And,
    Or,
    Xor,
    Conditional,
    Biconditional,
}

pub open spec fn combine(op: BinOp, a: Formula, b: Formula) -> Formula {
    match op {
        BinOp::And => Formula::And(Box::new(a), Box::new(b)),
        BinOp::Or => Formula::Or(Box::new(a), Box::new(b)),
        BinOp::Xor => Formula::Xor(Box::new(a), Box::new(b)),
        BinOp::Conditional => Formula::Conditional(Box::new(a), Box::new(b)),
        BinOp::Biconditional => Formula::Biconditional(Box::new(a), Box::new(b)),
    }
}

/// The connective written at `q`, with the number of characters it takes.
/// The first tier holds `∧ * &`, `∨ + |` and `⊕ !∨ !+ !|`; the second (`implication`)
/// holds `→ ->` and `↔ <->`.
pub open spec fn op_at(s: Seq<char>, q: int, implication: bool) -> Option<(BinOp, int)> {
    if !implication {
        if at(s, q, '∧') || at(s, q, '*') || at(s, q, '&') {
            Some((BinOp::And, 1))
        } else if at(s, q, '∨') || at(s, q, '+') || at(s, q, '|') {
            Some((BinOp::Or, 1))
        } else if at(s, q, '⊕') {
            Some((BinOp::Xor, 1))
        } else if at(s, q, '!') && (at(s, q + 1, '∨') || at(s, q + 1, '+') || at(s, q + 1, '|')) {
            Some((BinOp::Xor, 2))
        } else {
            None
        }
    } else {
        if at(s, q, '→') {
            Some((BinOp::Conditional, 1))
        } else if at(s, q, '-') && at(s, q + 1, '>') {
            Some((BinOp::Conditional, 2))
        } else if at(s, q, '↔') {
            Some((BinOp::Biconditional, 1))
        } else if at(s, q, '<') && at(s, q + 1, '-') && at(s, q + 2, '>') {
            Some((BinOp::Biconditional, 3))
        } else {
            None
        }
    }
}

/// A bracketed formula, a predicate application, a literal, `⊥`/`0` or `⊤`/`1`.
pub open spec fn atom(s: Seq<char>, p: int, ctx: Seq<Binding>, next: u64) -> Option<Step<Formula>>
    decreases s.len() - p, 1nat,
{
    let q = skip_ws(s, p);
    if !(p <= q < s.len()) {
        None
    } else if bracket(s[q]) is Some {
        let (kind, close) = bracket(s[q])->0;
        let q1 = skip_ws(s, q + 1);
        if !ahead(s, p, q1) {
            None
        } else {
            match expr(s, q1, ctx, next) {
                Some(r) => {
                    let q2 = skip_ws(s, r.end);
                    if at(s, q2, close) {
                        Some(
                            Step {
                                value: Formula::Group(kind, Box::new(r.value)),
                                end: skip_ws(s, q2 + 1),
                                next: r.next,
                                errors: r.errors,
                            },
                        )
                    } else {
                        None
                    }
                },
                None => None,
            }
        }
    } else if is_upper(s[q]) {
        let q1 = ident_end(s, q + 1);
        let name = s.subrange(q, q1);
        let plain = Some(
            Step { value: Formula::Literal(name), end: skip_ws(s, q1), next, errors: seq![] },
        );
        if at(s, q1, '(') {
            match term_args(s, q1 + 1, ctx) {
                Some(r) => if at(s, r.end, ')') {
                    Some(
                        Step {
                            value: Formula::Predicate(name, r.value),
                            end: skip_ws(s, r.end + 1),
                            next,
                            errors: r.errors,
                        },
                    )
                } else {
                    plain
                },
                None => plain,
            }
        } else {
            plain
        }
    } else if s[q] == '⊥' || s[q] == '0' {
        Some(Step { value: Formula::Contradiction, end: skip_ws(s, q + 1), next, errors: seq![] })
    } else if s[q] == '⊤' || s[q] == '1' {
        Some(Step { value: Formula::Tautology, end: skip_ws(s, q + 1), next, errors: seq![] })
    } else {
        None
    }
}

/// `∀x body` (also `@x`) or `∃x body` (also `/x`), where the body is an atom or
/// another quantified formula; otherwise an atom. The quantifier binds its
/// variable to the fresh identity `next` for the body.
pub open spec fn quantified(s: Seq<char>, p: int, ctx: Seq<Binding>, next: u64) -> Option<
    Step<Formula>,
>
    decreases s.len() - p, 2nat,
{
    let q = skip_ws(s, p);
    if !(p <= q <= s.len()) {
        None
    } else {
        let universal = at(s, q, '∀') || at(s, q, '@');
        let existential = at(s, q, '∃') || at(s, q, '/');
        let q1 = skip_ws(s, q + 1);
        let bound = if (universal || existential) && 0 <= q1 < s.len() && is_var_start(s[q1])
            && next < u64::MAX {
            let q2 = ident_end(s, q1 + 1);
            let b = Binding { name: s.subrange(q1, q2), id: next };
            let q3 = skip_ws(s, q2);
            let inner = ctx.push(b);
            let body = if !ahead(s, p, q3) {
                None
            } else {
                match atom(s, q3, inner, (next + 1) as u64) {
                    Some(r) => Some(r),
                    None => quantified(s, q3, inner, (next + 1) as u64),
                }
            };
            match body {
                Some(r) => Some(
                    Step {
                        value: if universal {
                            Formula::Universal(b, Box::new(r.value))
                        } else {
                            Formula::Existential(b, Box::new(r.value))
                        },
                        end: r.end,
                        next: r.next,
                        errors: r.errors,
                    },
                ),
                None => None,
            }
        } else {
            None
        };
        match bound {
            Some(r) => Some(Step { value: r.value, end: skip_ws(s, r.end), next: r.next, errors: r.errors }),
            None => match atom(s, q, ctx, next) {
                Some(r) => Some(Step { value: r.value, end: skip_ws(s, r.end), next: r.next, errors: r.errors }),
                None => None,
            },
        }
    }
}

/// `a != b` or `a ≠ b` between terms, read as a negated equality.
pub open spec fn unequal(s: Seq<char>, p: int, ctx: Seq<Binding>, next: u64) -> Option<Step<Formula>> {
    match term_atom(s, p, ctx) {
        Some(a) => {
            let q = skip_ws(s, a.end);
            let q1 = if at(s, q, '!') && at(s, q + 1, '=') {
                q + 2
            } else if at(s, q, '≠') {
                q + 1
            } else {
                -1
            };
            if q1 >= 0 {
                match term_atom(s, skip_ws(s, q1), ctx) {
                    Some(b) => Some(
                        Step {
                            value: Formula::Not(
                                Box::new(
                                    Formula::ConstantValue(
                                        Term::Operator(seq!['='], Box::new(a.value), Box::new(b.value)),
                                    ),
                                ),
                            ),
                            end: b.end,
                            next,
                            errors: a.errors + b.errors,
                        },
                    ),
                    None => None,
                }
            } else {
                None
            }
        },
        None => None,
    }
}

/// Two terms joined by a term operator of one or two characters, such as `a = b`.
pub open spec fn related(s: Seq<char>, p: int, ctx: Seq<Binding>, next: u64) -> Option<Step<Formula>> {
    match term_atom(s, p, ctx) {
        Some(a) => {
            let q = skip_ws(s, a.end);
            if 0 <= q < s.len() && is_term_op_char(s[q]) {
                let q1 = if q + 1 < s.len() && is_term_op_char(s[q + 1]) {
                    q + 2
                } else {
                    q + 1
                };
                match term_atom(s, skip_ws(s, q1), ctx) {
                    Some(b) => Some(
                        Step {
                            value: Formula::ConstantValue(
                                Term::Operator(s.subrange(q, q1), Box::new(a.value), Box::new(b.value)),
                            ),
                            end: b.end,
                            next,
                            errors: a.errors + b.errors,
                        },
                    ),
                    None => None,
                }
            } else {
                None
            }
        },
        None => None,
    }
}

/// A negated equality, a relation between terms, or else a quantified formula
/// or an atom.
pub open spec fn comparison(s: Seq<char>, p: int, ctx: Seq<Binding>, next: u64) -> Option<
    Step<Formula>,
>
    decreases s.len() - p, 3nat,
{
    if unequal(s, p, ctx, next) is Some {
        unequal(s, p, ctx, next)
    } else if related(s, p, ctx, next) is Some {
        related(s, p, ctx, next)
    } else {
        quantified(s, p, ctx, next)
    }
}

/// An optional `¬`, `~` or `!` before a comparison.
pub open spec fn negation(s: Seq<char>, p: int, ctx: Seq<Binding>, next: u64) -> Option<
    Step<Formula>,
>
    decreases s.len() - p, 4nat,
{
    if 0 <= p < s.len() && (s[p] == '¬' || s[p] == '~' || s[p] == '!') {
        match comparison(s, p + 1, ctx, next) {
            Some(r) => Some(Step { value: Formula::Not(Box::new(r.value)), end: r.end, next: r.next, errors: r.errors }),
            None => None,
        }
    } else {
        comparison(s, p, ctx, next)
    }
}

/// The operand of a tier: a negation in the first tier, a first-tier formula in
/// the second.
pub open spec fn operand(s: Seq<char>, p: int, ctx: Seq<Binding>, next: u64, implication: bool) -> Option<
    Step<Formula>,
>
    decreases s.len() - p, if implication { 6nat } else { 5nat }, 0nat,
{
    if implication {
        tier(s, p, ctx, next, false)
    } else {
        negation(s, p, ctx, next)
    }
}

/// Connectives of the same tier that follow `a op b`, each with the operand
/// after it if there is one; their spans are reported, since the connectives
/// of a tier do not associate.
pub open spec fn extra_ops(s: Seq<char>, p: int, ctx: Seq<Binding>, next: u64, implication: bool) -> Step<
    Seq<(usize, usize)>,
>
    decreases s.len() - p, 0nat, 0nat,
{
    let q = skip_ws(s, p);
    let none = Step { value: seq![], end: p, next, errors: seq![] };
    if !(p <= q <= s.len()) {
        none
    } else {
        match op_at(s, q, implication) {
            None => none,
            Some((_, width)) => {
                let q1 = q + width;
                let after = if q1 <= s.len() {
                    match operand(s, q1, ctx, next, implication) {
                        Some(r) => r,
                        None => Step { value: Formula::Invalid, end: q1, next, errors: seq![] },
                    }
                } else {
                    Step { value: Formula::Invalid, end: q1, next, errors: seq![] }
                };
                let q2 = skip_ws(s, after.end);
                if !ahead(s, p, q2) {
                    none
                } else {
                    let rest = extra_ops(s, q2, ctx, after.next, implication);
                    Step {
                        value: seq![(q as usize, q1 as usize)] + rest.value,
                        end: rest.end,
                        next: rest.next,
                        errors: after.errors + rest.errors,
                    }
                }
            },
        }
    }
}

/// One tier of binary connectives: an operand, or `a op b` for a connective of
/// the tier. A further connective of the same tier after `a op b` is an error
/// and yields `Invalid`.
pub open spec fn tier(s: Seq<char>, p: int, ctx: Seq<Binding>, next: u64, implication: bool) -> Option<
    Step<Formula>,
>
    decreases s.len() - p, if implication { 6nat } else { 5nat }, 1nat,
{
    let q = skip_ws(s, p);
    if !(p <= q <= s.len()) {
        None
    } else {
        match operand(s, q, ctx, next, implication) {
            None => None,
            Some(a) => {
                let plain = Some(Step { value: a.value, end: skip_ws(s, a.end), next: a.next, errors: a.errors });
                let q1 = skip_ws(s, a.end);
                match op_at(s, q1, implication) {
                    None => plain,
                    Some((op, width)) => {
                        let q2 = skip_ws(s, q1 + width);
                        let right = if ahead(s, p, q2) {
                            operand(s, q2, ctx, a.next, implication)
                        } else {
                            None
                        };
                        match right {
                            None => plain,
                            Some(b) => {
                                let x = if ahead(s, p, b.end) {
                                    extra_ops(s, b.end, ctx, b.next, implication)
                                } else {
                                    Step { value: seq![], end: b.end, next: b.next, errors: seq![] }
                                };
                                if x.value.len() == 0 {
                                    Some(
                                        Step {
                                            value: combine(op, a.value, b.value),
                                            end: skip_ws(s, b.end),
                                            next: b.next,
                                            errors: a.errors + b.errors,
                                        },
                                    )
                                } else {
                                    Some(
                                        Step {
                                            value: Formula::Invalid,
                                            end: skip_ws(s, x.end),
                                            next: x.next,
                                            errors: a.errors + b.errors + x.errors + seq![
                                                custom_error(
                                                    q1,
                                                    x.value.last().1 as int,
                                                    ambiguity_message(),
                                                ),
                                            ],
                                        },
                                    )
                                }
                            },
                        }
                    },
                }
            },
        }
    }
}

/// A whole formula: the implication tier.
pub open spec fn expr(s: Seq<char>, p: int, ctx: Seq<Binding>, next: u64) -> Option<Step<Formula>>
    decreases s.len() - p, 7nat, 0nat,
{
    tier(s, p, ctx, next, true)
}

/// What parsing a text yields: the formula when the whole text was read, and
/// the diagnostics, in the order they were raised.
pub open spec fn parse_result(s: Seq<char>) -> (Option<Formula>, Seq<SyntaxError>) {
    match expr(s, 0, seq![], 1) {
        Some(r) => if r.end == s.len() {
            (Some(r.value), r.errors)
        } else {
            (None, r.errors.push(unexpected_at(s, r.end, end_of_input())))
        },
        None => (None, seq![unexpected_at(s, skip_ws(s, 0), a_formula())]),
    }
}

} // verus!
