use vstd::prelude::*;
use crate::error::{SyntaxError, YggError};
use crate::expr::{
    terms_of, Binding, Constant, ConstantExpr, Expr, GroupKind, Literal, Variable,
};
use crate::grammar::{
    at, atom, bracket, combine, comparison, digits_end, digits_value, expr, extra_ops, ident_end,
    is_alnum, is_digit, is_term_op_char, is_ws, lookup, negation, op_at, operand, parse_result,
    quantified, related, skip_ws, term_args, term_atom, term_expr, tier, unequal, unexpected_at,
    BinOp, Step,
};

verus! {

/// A successful step of the parser; see [`Step`].
pub struct Parsed<T> {
    pub value: T,
    pub end: usize,
    pub next: u64,
    pub errors: Vec<YggError>,
}

pub open spec fn errors_of(v: Seq<YggError>) -> Seq<SyntaxError> {
    v.map_values(|e: YggError| e@)
}

pub open spec fn ctx_of(v: Seq<Variable>) -> Seq<Binding> {
    v.map_values(|x: Variable| x@)
}

/// An executable step agrees with a step of the grammar.
pub open spec fn agrees<T: View>(r: Option<Parsed<T>>, m: Option<Step<T::V>>) -> bool {
    match (r, m) {
        (None, None) => true,
        (Some(x), Some(y)) => x.value@ == y.value && x.end == y.end && x.next == y.next
            && errors_of(x.errors@) == y.errors,
        _ => false,
    }
}

pub open spec fn agrees_terms(r: Option<Parsed<Vec<ConstantExpr>>>, m: Option<Step<Seq<crate::expr::Term>>>) -> bool {
    match (r, m) {
        (None, None) => true,
        (Some(x), Some(y)) => terms_of(x.value@) == y.value && x.end == y.end && x.next == y.next
            && errors_of(x.errors@) == y.errors,
        _ => false,
    }
}

/// Room for looking a few characters past any position.
pub open spec fn fits(s: Seq<char>) -> bool {
    s.len() + 4 < usize::MAX
}

fn join(a: Vec<YggError>, b: Vec<YggError>) -> (r: Vec<YggError>)
    ensures
        errors_of(r@) == errors_of(a@) + errors_of(b@),
{
    let mut a = a;
    let mut b = b;
    let ghost a0 = a@;
    let ghost b0 = b@;
    a.append(&mut b);
    assert(errors_of(a@) =~= errors_of(a0) + errors_of(b0));
    a
}

fn no_errors() -> (r: Vec<YggError>)
    ensures
        errors_of(r@) == Seq::<SyntaxError>::empty(),
{
    let r: Vec<YggError> = Vec::new();
    assert(errors_of(r@) =~= Seq::<SyntaxError>::empty());
    r
}

fn one_error(e: YggError) -> (r: Vec<YggError>)
    ensures
        errors_of(r@) == seq![e@],
{
    let r = vec![e];
    assert(errors_of(r@) =~= seq![e@]);
    r
}

fn is_ws_char(c: char) -> (r: bool)
    ensures
        r == is_ws(c),
{
    c == ' ' || c == '\t' || c == '\n' || c == '\r'
}

fn is_alnum_char(c: char) -> (r: bool)
    ensures
        r == is_alnum(c),
{
    ('A' <= c && c <= 'Z') || ('0' <= c && c <= '9') || ('a' <= c && c <= 'z')
}

fn is_term_op(c: char) -> (r: bool)
    ensures
        r == is_term_op_char(c),
{
    !(is_alnum_char(c) || c == '_' || is_ws_char(c) || c == '⊤' || c == '⊥' || c == '('
        || c == ')' || c == '[' || c == ']' || c == '{' || c == '}' || c == '¬' || c == '→'
        || c == '↔' || c == '∀' || c == '@' || c == '∃' || c == ',')
}

fn bracket_of(c: char) -> (r: Option<(GroupKind, char)>)
    ensures
        r == bracket(c),
{
    if c == '(' {
        Some((GroupKind::Paren, ')'))
    } else if c == '[' {
        Some((GroupKind::Bracket, ']'))
    } else if c == '{' {
        Some((GroupKind::Brace, '}'))
    } else {
        None
    }
}

fn char_at(s: &Vec<char>, p: usize, c: char) -> (r: bool)
    ensures
        r == at(s@, p as int, c),
{
    p < s.len() && s[p] == c
}

fn skip_ws_from(s: &Vec<char>, p: usize) -> (r: usize)
    requires
        p <= s.len(),
    ensures
        r == skip_ws(s@, p as int),
        p <= r <= s.len(),
{
    let mut i = p;
    while i < s.len() && is_ws_char(s[i])
        invariant
            p <= i <= s.len(),
            skip_ws(s@, i as int) == skip_ws(s@, p as int),
        decreases s.len() - i,
    {
        i = i + 1;
    }
    i
}

fn ident_end_from(s: &Vec<char>, p: usize) -> (r: usize)
    requires
        p <= s.len(),
    ensures
        r == ident_end(s@, p as int),
        p <= r <= s.len(),
{
    let mut i = p;
    while i < s.len() && is_alnum_char(s[i])
        invariant
            p <= i <= s.len(),
            ident_end(s@, i as int) == ident_end(s@, p as int),
        decreases s.len() - i,
    {
        i = i + 1;
    }
    i
}

fn digits_end_from(s: &Vec<char>, p: usize) -> (r: usize)
    requires
        p <= s.len(),
    ensures
        r == digits_end(s@, p as int),
        p <= r <= s.len(),
        forall|i: int| p <= i < r ==> is_digit(#[trigger] s@[i]),
{
    let mut i = p;
    while i < s.len() && '0' <= s[i] && s[i] <= '9'
        invariant
            p <= i <= s.len(),
            digits_end(s@, i as int) == digits_end(s@, p as int),
            forall|j: int| p <= j < i ==> is_digit(#[trigger] s@[j]),
        decreases s.len() - i,
    {
        i = i + 1;
    }
    i
}

proof fn lemma_digits_grow(d: Seq<char>, k: int)
    requires
        0 <= k <= d.len(),
        forall|i: int| 0 <= i < d.len() ==> is_digit(#[trigger] d[i]),
    ensures
        digits_value(d) >= digits_value(d.subrange(0, k)) >= 0,
    decreases d.len() - k,
{
    if k < d.len() {
        lemma_digits_grow(d, k + 1);
        assert(d.subrange(0, k + 1).drop_last() =~= d.subrange(0, k));
        lemma_digits_nonneg(d.subrange(0, k));
    } else {
        assert(d.subrange(0, k) =~= d);
        lemma_digits_nonneg(d);
    }
}

proof fn lemma_digits_nonneg(d: Seq<char>)
    requires
        forall|i: int| 0 <= i < d.len() ==> is_digit(#[trigger] d[i]),
    ensures
        digits_value(d) >= 0,
    decreases d.len(),
{
    if d.len() > 0 {
        lemma_digits_nonneg(d.drop_last());
    }
}

/// The value of the digits between `p` and `q`, if it fits an `isize`.
fn number_value(s: &Vec<char>, p: usize, q: usize) -> (r: Option<isize>)
    requires
        p <= q <= s.len(),
        forall|i: int| p <= i < q ==> is_digit(#[trigger] s@[i]),
    ensures
        r matches Some(v) ==> v as int == digits_value(s@.subrange(p as int, q as int)),
        r is None <==> digits_value(s@.subrange(p as int, q as int)) > isize::MAX,
{
    let ghost d = s@.subrange(p as int, q as int);
    let mut v: isize = 0;
    let mut i = p;
    assert(d.subrange(0, 0) =~= Seq::<char>::empty());
    while i < q
        invariant
            p <= i <= q <= s.len(),
            d == s@.subrange(p as int, q as int),
            forall|j: int| p <= j < q ==> is_digit(#[trigger] s@[j]),
            v as int == digits_value(d.subrange(0, i - p)),
            v >= 0,
        decreases q - i,
    {
        let c = s[i];
        let digit = (c as u32 - '0' as u32) as isize;
        assert(d.subrange(0, i + 1 - p).drop_last() =~= d.subrange(0, i - p));
        assert(d.subrange(0, i + 1 - p).last() == c);
        if v > (isize::MAX - digit) / 10 {
            proof {
                assert forall|j: int| 0 <= j < d.len() implies is_digit(#[trigger] d[j]) by {
                    assert(d[j] == s@[p + j]);
                }
                lemma_digits_grow(d, i + 1 - p);
                assert(v * 10 + digit > isize::MAX) by (nonlinear_arith)
                    requires
                        v > (isize::MAX - digit) / 10,
                        0 <= digit <= 9,
                ;
            }
            return None;
        }
        assert(v * 10 + digit <= isize::MAX) by (nonlinear_arith)
            requires
                v <= (isize::MAX - digit) / 10,
                0 <= digit <= 9,
                v >= 0,
        ;
        v = v * 10 + digit;
        i = i + 1;
    }
    assert(d.subrange(0, q - p) =~= d);
    Some(v)
}

fn text_between(text: &str, p: usize, q: usize) -> (r: String)
    requires
        p <= q <= text@.len(),
    ensures
        r@ == text@.subrange(p as int, q as int),
{
    String::from_str(text.substring_char(p, q))
}

fn lookup_in(ctx: &Vec<Variable>, name: &String) -> (r: Option<Variable>)
    ensures
        r matches Some(v) ==> lookup(ctx_of(ctx@), name@) == Some(v@),
        r is None ==> lookup(ctx_of(ctx@), name@) is None,
{
    let mut i = ctx.len();
    assert(ctx@.subrange(0, i as int) =~= ctx@);
    while i > 0
        invariant
            i <= ctx.len(),
            lookup(ctx_of(ctx@), name@) == lookup(ctx_of(ctx@.subrange(0, i as int)), name@),
        decreases i,
    {
        let ghost c = ctx_of(ctx@.subrange(0, i as int));
        assert(c.drop_last() =~= ctx_of(ctx@.subrange(0, i - 1)));
        if ctx[i - 1].name == *name {
            return Some(ctx[i - 1].copy());
        }
        i = i - 1;
    }
    None
}

fn term_atom_at(text: &str, s: &Vec<char>, p: usize, ctx: &Vec<Variable>) -> (r: Option<
    Parsed<ConstantExpr>,
>)
    requires
        s@ == text@,
        p <= s.len(),
        fits(s@),
    ensures
        agrees(r, term_atom(s@, p as int, ctx_of(ctx@))),
        r matches Some(x) ==> x.end <= s.len(),
    decreases s.len() - p, 0nat,
{
    let q = skip_ws_from(s, p);
    let open = if q < s.len() {
        bracket_of(s[q])
    } else {
        None
    };
    if let Some((_, close)) = open {
        let q1 = skip_ws_from(s, q + 1);
        if !(p < q1) {
            return None;
        }
        match term_expr_at(text, s, q1, ctx) {
            Some(r) => {
                let q2 = skip_ws_from(s, r.end);
                if char_at(s, q2, close) {
                    Some(Parsed { value: r.value, end: skip_ws_from(s, q2 + 1), next: 0, errors: r.errors })
                } else {
                    None
                }
            },
            None => None,
        }
    } else if p < s.len() && 'a' <= s[p] && s[p] <= 's' {
        let q1 = ident_end_from(s, p + 1);
        let name = text_between(text, p, q1);
        if char_at(s, q1, '(') {
            match term_args_at(text, s, q1 + 1, ctx) {
                Some(r) => {
                    if char_at(s, r.end, ')') {
                        return Some(
                            Parsed {
                                value: ConstantExpr::Function { func: Constant(name), args: r.value },
                                end: r.end + 1,
                                next: 0,
                                errors: r.errors,
                            },
                        );
                    }
                },
                None => {},
            }
        }
        Some(Parsed { value: ConstantExpr::Constant(Constant(name)), end: q1, next: 0, errors: no_errors() })
    } else if p < s.len() && 't' <= s[p] && s[p] <= 'z' {
        let q1 = ident_end_from(s, p + 1);
        let name = text_between(text, p, q1);
        match lookup_in(ctx, &name) {
            Some(v) => Some(Parsed { value: ConstantExpr::Variable(v), end: q1, next: 0, errors: no_errors() }),
            None => {
                let msg = String::from_str("This variable does not exist");
                proof {
                    reveal_strlit("This variable does not exist");
                }
                let spans = vec![(p, q1)];
                assert(spans@ =~= seq![(p, q1)]);
                let e = YggError::custom(spans, msg);
                Some(
                    Parsed {
                        value: ConstantExpr::Variable(Variable { name, id: 0 }),
                        end: q1,
                        next: 0,
                        errors: one_error(e),
                    },
                )
            },
        }
    } else if p < s.len() && '0' <= s[p] && s[p] <= '9' {
        let q1 = digits_end_from(s, p + 1);
        match number_value(s, p, q1) {
            Some(v) => Some(Parsed { value: ConstantExpr::Number(v), end: q1, next: 0, errors: no_errors() }),
            None => {
                let msg = String::from_str("Could not parse number: number too large to fit in target type");
                proof {
                    reveal_strlit("Could not parse number: number too large to fit in target type");
                }
                let spans = vec![(p, q1)];
                assert(spans@ =~= seq![(p, q1)]);
                let e = YggError::custom(spans, msg);
                Some(
                    Parsed {
                        value: ConstantExpr::Number(isize::MAX),
                        end: q1,
                        next: 0,
                        errors: one_error(e),
                    },
                )
            },
        }
    } else {
        None
    }
}

fn term_expr_at(text: &str, s: &Vec<char>, p: usize, ctx: &Vec<Variable>) -> (r: Option<
    Parsed<ConstantExpr>,
>)
    requires
        s@ == text@,
        p <= s.len(),
        fits(s@),
    ensures
        agrees(r, term_expr(s@, p as int, ctx_of(ctx@))),
        r matches Some(x) ==> x.end <= s.len(),
    decreases s.len() - p, 1nat,
{
    let q = skip_ws_from(s, p);
    match term_atom_at(text, s, q, ctx) {
        None => None,
        Some(a) => {
            let q1 = skip_ws_from(s, a.end);
            if q1 < s.len() && is_term_op(s[q1]) {
                let q2 = if q1 + 1 < s.len() && is_term_op(s[q1 + 1]) {
                    q1 + 2
                } else {
                    q1 + 1
                };
                let q3 = skip_ws_from(s, q2);
                let b = if p < q3 {
                    term_atom_at(text, s, q3, ctx)
                } else {
                    None
                };
                match b {
                    Some(b) => {
                        let op = text_between(text, q1, q2);
                        return Some(
                            Parsed {
                                value: ConstantExpr::Operator(op, Box::new(a.value), Box::new(b.value)),
                                end: skip_ws_from(s, b.end),
                                next: 0,
                                errors: join(a.errors, b.errors),
                            },
                        );
                    },
                    None => {},
                }
            }
            Some(Parsed { value: a.value, end: q1, next: 0, errors: a.errors })
        },
    }
}

fn term_args_at(text: &str, s: &Vec<char>, p: usize, ctx: &Vec<Variable>) -> (r: Option<
    Parsed<Vec<ConstantExpr>>,
>)
    requires
        s@ == text@,
        p <= s.len(),
        fits(s@),
    ensures
        agrees_terms(r, term_args(s@, p as int, ctx_of(ctx@))),
        r matches Some(x) ==> x.end <= s.len(),
    decreases s.len() - p, 2nat,
{
    match term_expr_at(text, s, p, ctx) {
        None => None,
        Some(first) => {
            if char_at(s, first.end, ',') && p < first.end + 1 {
                match term_args_at(text, s, first.end + 1, ctx) {
                    Some(rest) => {
                        let mut values = vec![first.value];
                        let ghost v0 = values@;
                        let mut tail = rest.value;
                        let ghost t0 = tail@;
                        values.append(&mut tail);
                        proof {
                            crate::expr::lemma_terms_of(values@);
                            crate::expr::lemma_terms_of(t0);
                            crate::expr::lemma_terms_of(v0);
                            assert(terms_of(values@) =~= terms_of(v0) + terms_of(t0));
                            assert(terms_of(v0) =~= seq![v0[0]@]);
                        }
                        return Some(
                            Parsed {
                                value: values,
                                end: rest.end,
                                next: 0,
                                errors: join(first.errors, rest.errors),
                            },
                        );
                    },
                    None => {},
                }
            }
            let values = vec![first.value];
            proof {
                crate::expr::lemma_terms_of(values@);
                assert(terms_of(values@) =~= seq![values@[0]@]);
            }
            Some(Parsed { value: values, end: first.end, next: 0, errors: first.errors })
        },
    }
}

fn op_width(s: &Vec<char>, q: usize, implication: bool) -> (r: Option<(BinOp, usize)>)
    requires
        fits(s@),
    ensures
        r matches Some((o, w)) ==> op_at(s@, q as int, implication) == Some((o, w as int)),
        r is None ==> op_at(s@, q as int, implication) is None,
{
    if q >= s.len() {
        return None;
    }
    if !implication {
        if char_at(s, q, '∧') || char_at(s, q, '*') || char_at(s, q, '&') {
            Some((BinOp::And, 1))
        } else if char_at(s, q, '∨') || char_at(s, q, '+') || char_at(s, q, '|') {
            Some((BinOp::Or, 1))
        } else if char_at(s, q, '⊕') {
            Some((BinOp::Xor, 1))
        } else if char_at(s, q, '!') && (char_at(s, q + 1, '∨') || char_at(s, q + 1, '+')
            || char_at(s, q + 1, '|')) {
            Some((BinOp::Xor, 2))
        } else {
            None
        }
    } else {
        if char_at(s, q, '→') {
            Some((BinOp::Conditional, 1))
        } else if char_at(s, q, '-') && char_at(s, q + 1, '>') {
            Some((BinOp::Conditional, 2))
        } else if char_at(s, q, '↔') {
            Some((BinOp::Biconditional, 1))
        } else if char_at(s, q, '<') && char_at(s, q + 1, '-') && char_at(s, q + 2, '>') {
            Some((BinOp::Biconditional, 3))
        } else {
            None
        }
    }
}

fn combine_exprs(op: BinOp, a: Expr, b: Expr) -> (r: Expr)
    ensures
        r@ == combine(op, a@, b@),
{
    match op {
        BinOp::And => Expr::And(Box::new(a), Box::new(b)),
        BinOp::Or => Expr::Or(Box::new(a), Box::new(b)),
        BinOp::Xor => Expr::Xor(Box::new(a), Box::new(b)),
        BinOp::Conditional => Expr::Conditional(Box::new(a), Box::new(b)),
        BinOp::Biconditional => Expr::Biconditional(Box::new(a), Box::new(b)),
    }
}

fn atom_at(text: &str, s: &Vec<char>, p: usize, ctx: &mut Vec<Variable>, next: u64) -> (r: Option<
    Parsed<Expr>,
>)
    requires
        s@ == text@,
        p <= s.len(),
        fits(s@),
    ensures
        agrees(r, atom(s@, p as int, ctx_of(old(ctx)@), next)),
        r matches Some(x) ==> x.end <= s.len(),
        final(ctx)@ == old(ctx)@,
    decreases s.len() - p, 1nat,
{
    let q = skip_ws_from(s, p);
    if q >= s.len() {
        return None;
    }
    let c = s[q];
    if let Some((kind, close)) = bracket_of(c) {
        let q1 = skip_ws_from(s, q + 1);
        if !(p < q1) {
            return None;
        }
        match expr_at(text, s, q1, ctx, next) {
            Some(r) => {
                let q2 = skip_ws_from(s, r.end);
                if char_at(s, q2, close) {
                    Some(
                        Parsed {
                            value: Expr::Group(kind, Box::new(r.value)),
                            end: skip_ws_from(s, q2 + 1),
                            next: r.next,
                            errors: r.errors,
                        },
                    )
                } else {
                    None
                }
            },
            None => None,
        }
    } else if 'A' <= c && c <= 'Z' {
        let q1 = ident_end_from(s, q + 1);
        let name = text_between(text, q, q1);
        if char_at(s, q1, '(') {
            match term_args_at(text, s, q1 + 1, ctx) {
                Some(r) => {
                    if char_at(s, r.end, ')') {
                        return Some(
                            Parsed {
                                value: Expr::Predicate { pred: Literal(name), args: r.value },
                                end: skip_ws_from(s, r.end + 1),
                                next,
                                errors: r.errors,
                            },
                        );
                    }
                },
                None => {},
            }
        }
        Some(Parsed { value: Expr::Literal(Literal(name)), end: skip_ws_from(s, q1), next, errors: no_errors() })
    } else if c == '⊥' || c == '0' {
        Some(Parsed { value: Expr::Contradiction, end: skip_ws_from(s, q + 1), next, errors: no_errors() })
    } else if c == '⊤' || c == '1' {
        Some(Parsed { value: Expr::Tautology, end: skip_ws_from(s, q + 1), next, errors: no_errors() })
    } else {
        None
    }
}

fn quantified_at(text: &str, s: &Vec<char>, p: usize, ctx: &mut Vec<Variable>, next: u64) -> (r: Option<
    Parsed<Expr>,
>)
    requires
        s@ == text@,
        p <= s.len(),
        fits(s@),
    ensures
        agrees(r, quantified(s@, p as int, ctx_of(old(ctx)@), next)),
        r matches Some(x) ==> x.end <= s.len(),
        final(ctx)@ == old(ctx)@,
    decreases s.len() - p, 2nat,
{
    let q = skip_ws_from(s, p);
    let universal = char_at(s, q, '∀') || char_at(s, q, '@');
    let existential = char_at(s, q, '∃') || char_at(s, q, '/');
    let mut bound: Option<Parsed<Expr>> = None;
    if universal || existential {
        let q1 = skip_ws_from(s, q + 1);
        if q1 < s.len() && 't' <= s[q1] && s[q1] <= 'z' && next < u64::MAX {
            let q2 = ident_end_from(s, q1 + 1);
            let v = Variable { name: text_between(text, q1, q2), id: next };
            let ghost b = v@;
            let q3 = skip_ws_from(s, q2);
            let ghost outer = ctx@;
            ctx.push(v.copy());
            proof {
                assert(ctx_of(ctx@) =~= ctx_of(outer).push(b));
            }
            let body = if !(p < q3) {
                None
            } else {
                match atom_at(text, s, q3, ctx, next + 1) {
                    Some(r) => Some(r),
                    None => quantified_at(text, s, q3, ctx, next + 1),
                }
            };
            ctx.pop();
            proof {
                assert(ctx@ =~= outer);
            }
            bound = match body {
                Some(r) => Some(
                    Parsed {
                        value: if universal {
                            Expr::Universal { iter: v, expr: Box::new(r.value) }
                        } else {
                            Expr::Existential { iter: v, expr: Box::new(r.value) }
                        },
                        end: r.end,
                        next: r.next,
                        errors: r.errors,
                    },
                ),
                None => None,
            };
        }
    }
    match bound {
        Some(r) => Some(Parsed { value: r.value, end: skip_ws_from(s, r.end), next: r.next, errors: r.errors }),
        None => match atom_at(text, s, q, ctx, next) {
            Some(r) => Some(Parsed { value: r.value, end: skip_ws_from(s, r.end), next: r.next, errors: r.errors }),
            None => None,
        },
    }
}

fn equality_operator() -> (r: String)
    ensures
        r@ == seq!['='],
{
    proof {
        reveal_strlit("=");
    }
    String::from_str("=")
}

fn unequal_at(text: &str, s: &Vec<char>, p: usize, ctx: &Vec<Variable>, next: u64) -> (r: Option<
    Parsed<Expr>,
>)
    requires
        s@ == text@,
        p <= s.len(),
        fits(s@),
    ensures
        agrees(r, unequal(s@, p as int, ctx_of(ctx@), next)),
        r matches Some(x) ==> x.end <= s.len(),
{
    let a = match term_atom_at(text, s, p, ctx) {
        Some(a) => a,
        None => {
            return None;
        },
    };
    let q = skip_ws_from(s, a.end);
    let q1 = if char_at(s, q, '!') && char_at(s, q + 1, '=') {
        q + 2
    } else if char_at(s, q, '≠') {
        q + 1
    } else {
        return None;
    };
    match term_atom_at(text, s, skip_ws_from(s, q1), ctx) {
        Some(b) => {
            let eq = ConstantExpr::Operator(equality_operator(), Box::new(a.value), Box::new(b.value));
            let equality = Expr::ConstantValue(eq);
            assert(equality@ == crate::expr::Formula::ConstantValue(eq@));
            Some(
                Parsed {
                    value: Expr::Not(Box::new(equality)),
                    end: b.end,
                    next,
                    errors: join(a.errors, b.errors),
                },
            )
        },
        None => None,
    }
}

fn related_at(text: &str, s: &Vec<char>, p: usize, ctx: &Vec<Variable>, next: u64) -> (r: Option<
    Parsed<Expr>,
>)
    requires
        s@ == text@,
        p <= s.len(),
        fits(s@),
    ensures
        agrees(r, related(s@, p as int, ctx_of(ctx@), next)),
        r matches Some(x) ==> x.end <= s.len(),
{
    let a = match term_atom_at(text, s, p, ctx) {
        Some(a) => a,
        None => {
            return None;
        },
    };
    let q = skip_ws_from(s, a.end);
    if !(q < s.len() && is_term_op(s[q])) {
        return None;
    }
    let q1 = if q + 1 < s.len() && is_term_op(s[q + 1]) {
        q + 2
    } else {
        q + 1
    };
    match term_atom_at(text, s, skip_ws_from(s, q1), ctx) {
        Some(b) => {
            let op = text_between(text, q, q1);
            Some(
                Parsed {
                    value: Expr::ConstantValue(
                        ConstantExpr::Operator(op, Box::new(a.value), Box::new(b.value)),
                    ),
                    end: b.end,
                    next,
                    errors: join(a.errors, b.errors),
                },
            )
        },
        None => None,
    }
}

fn comparison_at(text: &str, s: &Vec<char>, p: usize, ctx: &mut Vec<Variable>, next: u64) -> (r: Option<
    Parsed<Expr>,
>)
    requires
        s@ == text@,
        p <= s.len(),
        fits(s@),
    ensures
        agrees(r, comparison(s@, p as int, ctx_of(old(ctx)@), next)),
        r matches Some(x) ==> x.end <= s.len(),
        final(ctx)@ == old(ctx)@,
    decreases s.len() - p, 3nat,
{
    if let Some(r) = unequal_at(text, s, p, ctx, next) {
        return Some(r);
    }
    if let Some(r) = related_at(text, s, p, ctx, next) {
        return Some(r);
    }
    quantified_at(text, s, p, ctx, next)
}

fn negation_at(text: &str, s: &Vec<char>, p: usize, ctx: &mut Vec<Variable>, next: u64) -> (r: Option<
    Parsed<Expr>,
>)
    requires
        s@ == text@,
        p <= s.len(),
        fits(s@),
    ensures
        agrees(r, negation(s@, p as int, ctx_of(old(ctx)@), next)),
        r matches Some(x) ==> x.end <= s.len(),
        final(ctx)@ == old(ctx)@,
    decreases s.len() - p, 4nat,
{
    if p < s.len() && (s[p] == '¬' || s[p] == '~' || s[p] == '!') {
        match comparison_at(text, s, p + 1, ctx, next) {
            Some(r) => Some(Parsed { value: Expr::Not(Box::new(r.value)), end: r.end, next: r.next, errors: r.errors }),
            None => None,
        }
    } else {
        comparison_at(text, s, p, ctx, next)
    }
}

fn operand_at(
    text: &str,
    s: &Vec<char>,
    p: usize,
    ctx: &mut Vec<Variable>,
    next: u64,
    implication: bool,
) -> (r: Option<Parsed<Expr>>)
    requires
        s@ == text@,
        p <= s.len(),
        fits(s@),
    ensures
        agrees(r, operand(s@, p as int, ctx_of(old(ctx)@), next, implication)),
        r matches Some(x) ==> x.end <= s.len(),
        final(ctx)@ == old(ctx)@,
    decreases s.len() - p, if implication { 6nat } else { 5nat }, 0nat,
{
    if implication {
        tier_at(text, s, p, ctx, next, false)
    } else {
        negation_at(text, s, p, ctx, next)
    }
}

fn extra_ops_at(
    text: &str,
    s: &Vec<char>,
    p: usize,
    ctx: &mut Vec<Variable>,
    next: u64,
    implication: bool,
) -> (r: Parsed<Vec<(usize, usize)>>)
    requires
        s@ == text@,
        p <= s.len(),
        fits(s@),
    ensures
        agrees(Some(r), Some(extra_ops(s@, p as int, ctx_of(old(ctx)@), next, implication))),
        r.end <= s.len(),
        final(ctx)@ == old(ctx)@,
    decreases s.len() - p, 0nat, 0nat,
{
    let q = skip_ws_from(s, p);
    match op_width(s, q, implication) {
        None => Parsed { value: Vec::new(), end: p, next, errors: no_errors() },
        Some((_, width)) => {
            let q1 = q + width;
            let after = if q1 <= s.len() {
                match operand_at(text, s, q1, ctx, next, implication) {
                    Some(r) => r,
                    None => Parsed { value: Expr::Invalid, end: q1, next, errors: no_errors() },
                }
            } else {
                Parsed { value: Expr::Invalid, end: q1, next, errors: no_errors() }
            };
            if after.end > s.len() {
                return Parsed { value: Vec::new(), end: p, next, errors: no_errors() };
            }
            let q2 = skip_ws_from(s, after.end);
            if !(p < q2) {
                return Parsed { value: Vec::new(), end: p, next, errors: no_errors() };
            }
            let rest = extra_ops_at(text, s, q2, ctx, after.next, implication);
            let mut spans = vec![(q, q1)];
            let ghost first = spans@;
            let mut tail = rest.value;
            let ghost t0 = tail@;
            spans.append(&mut tail);
            assert(first =~= seq![(q, q1)]);
            Parsed { value: spans, end: rest.end, next: rest.next, errors: join(after.errors, rest.errors) }
        },
    }
}

fn tier_at(
    text: &str,
    s: &Vec<char>,
    p: usize,
    ctx: &mut Vec<Variable>,
    next: u64,
    implication: bool,
) -> (r: Option<Parsed<Expr>>)
    requires
        s@ == text@,
        p <= s.len(),
        fits(s@),
    ensures
        agrees(r, tier(s@, p as int, ctx_of(old(ctx)@), next, implication)),
        r matches Some(x) ==> x.end <= s.len(),
        final(ctx)@ == old(ctx)@,
    decreases s.len() - p, if implication { 6nat } else { 5nat }, 1nat,
{
    let q = skip_ws_from(s, p);
    let a = match operand_at(text, s, q, ctx, next, implication) {
        None => {
            return None;
        },
        Some(a) => a,
    };
    let q1 = skip_ws_from(s, a.end);
    let (op, width) = match op_width(s, q1, implication) {
        None => {
            return Some(Parsed { value: a.value, end: q1, next: a.next, errors: a.errors });
        },
        Some(found) => found,
    };
    if q1 + width > s.len() {
        return Some(Parsed { value: a.value, end: q1, next: a.next, errors: a.errors });
    }
    let q2 = skip_ws_from(s, q1 + width);
    let right = if p < q2 {
        operand_at(text, s, q2, ctx, a.next, implication)
    } else {
        None
    };
    let b = match right {
        None => {
            return Some(Parsed { value: a.value, end: q1, next: a.next, errors: a.errors });
        },
        Some(b) => b,
    };
    let x = if p < b.end {
        extra_ops_at(text, s, b.end, ctx, b.next, implication)
    } else {
        Parsed { value: Vec::new(), end: b.end, next: b.next, errors: no_errors() }
    };
    if x.value.len() == 0 {
        Some(
            Parsed {
                value: combine_exprs(op, a.value, b.value),
                end: skip_ws_from(s, b.end),
                next: b.next,
                errors: join(a.errors, b.errors),
            },
        )
    } else {
        let last = x.value[x.value.len() - 1].1;
        let msg = String::from_str(
            "The operators in this expression are not associative; use parentheses to indicate order of operation",
        );
        proof {
            reveal_strlit(
                "The operators in this expression are not associative; use parentheses to indicate order of operation",
            );
        }
        let spans = vec![(q1, last)];
        assert(spans@ =~= seq![(q1, last)]);
        let e = YggError::custom(spans, msg);
        let errors = join(join(join(a.errors, b.errors), x.errors), one_error(e));
        Some(Parsed { value: Expr::Invalid, end: skip_ws_from(s, x.end), next: x.next, errors })
    }
}

fn expr_at(text: &str, s: &Vec<char>, p: usize, ctx: &mut Vec<Variable>, next: u64) -> (r: Option<
    Parsed<Expr>,
>)
    requires
        s@ == text@,
        p <= s.len(),
        fits(s@),
    ensures
        agrees(r, expr(s@, p as int, ctx_of(old(ctx)@), next)),
        r matches Some(x) ==> x.end <= s.len(),
        final(ctx)@ == old(ctx)@,
    decreases s.len() - p, 7nat, 0nat,
{
    tier_at(text, s, p, ctx, next, true)
}

fn chars_of(text: &str) -> (r: Vec<char>)
    ensures
        r@ == text@,
{
    let n = text.unicode_len();
    let mut r: Vec<char> = Vec::new();
    let mut i: usize = 0;
    while i < n
        invariant
            i <= n,
            n == text@.len(),
            r@ == text@.subrange(0, i as int),
        decreases n - i,
    {
        r.push(text.get_char(i));
        i = i + 1;
        assert(r@ =~= text@.subrange(0, i as int));
    }
    assert(text@.subrange(0, n as int) =~= text@);
    r
}

fn unexpected(s: &Vec<char>, p: usize, expected: &str) -> (r: YggError)
    requires
        p <= s.len(),
    ensures
        r@ == unexpected_at(s@, p as int, expected@),
{
    let labels = vec![String::from_str(expected)];
    assert(labels@.map_values(|x: String| x@) =~= seq![expected@]);
    if p < s.len() {
        YggError::expected_found(labels, Some(s[p]), (p, p + 1))
    } else {
        YggError::expected_found(labels, None, (p, p))
    }
}

/// Parses a formula and keeps going past recoverable problems: the formula
/// when the whole text was read, and every diagnostic raised, in order. A
/// variable that no quantifier binds is reported, and still read, with
/// identity 0; each quantifier binds a fresh identity, counting from 1.
pub fn parser(text: &str) -> (r: (Option<Expr>, Vec<YggError>))
    requires
        fits(text@),
    ensures
        r.0 matches Some(e) ==> parse_result(text@).0 == Some(e@),
        r.0 is None ==> parse_result(text@).0 is None,
        errors_of(r.1@) == parse_result(text@).1,
{
    let s = chars_of(text);
    let mut ctx: Vec<Variable> = Vec::new();
    proof {
        assert(ctx_of(ctx@) =~= Seq::<Binding>::empty());
    }
    match expr_at(text, &s, 0, &mut ctx, 1) {
        Some(r) => {
            if r.end == s.len() {
                (Some(r.value), r.errors)
            } else {
                proof {
                    reveal_strlit("end of input");
                }
                let e = unexpected(&s, r.end, "end of input");
                let mut errors = r.errors;
                let ghost before = errors@;
                errors.push(e);
                assert(errors_of(errors@) =~= errors_of(before).push(e@));
                (None, errors)
            }
        },
        None => {
            proof {
                reveal_strlit("a formula");
            }
            (None, one_error(unexpected(&s, skip_ws_from(&s, 0), "a formula")))
        },
    }
}

/// The formula written in `text`, or every diagnostic raised while reading it.
/// Succeeds exactly when the whole text reads as a formula with no diagnostic.
pub fn parse(text: &str) -> (r: Result<Expr, Vec<YggError>>)
    requires
        fits(text@),
    ensures
        r matches Ok(e) ==> parse_result(text@) == (Some(e@), Seq::<SyntaxError>::empty()),
        r matches Err(es) ==> errors_of(es@) == parse_result(text@).1 && (parse_result(
            text@,
        ).0 is None || parse_result(text@).1.len() > 0),
{
    let (out, errors) = parser(text);
    match out {
        Some(e) => {
            if errors.len() == 0 {
                assert(errors_of(errors@) =~= Seq::<SyntaxError>::empty());
                Ok(e)
            } else {
                Err(errors)
            }
        },
        None => Err(errors),
    }
}

/// A reusable handle on the formula parser.
#[derive(Default)]
pub struct YggdrasilGrammarParserCache;

impl YggdrasilGrammarParserCache {
    /// Parses `text` as [`parser`] does.
    pub fn parse(&self, text: &str) -> (r: (Option<Expr>, Vec<YggError>))
        requires
            fits(text@),
        ensures
            r.0 matches Some(e) ==> parse_result(text@).0 == Some(e@),
            r.0 is None ==> parse_result(text@).0 is None,
            errors_of(r.1@) == parse_result(text@).1,
    {
        parser(text)
    }
}

} // verus!
