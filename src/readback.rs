use vstd::prelude::*;
use crate::expr::{Binding, Term};
use crate::grammar::{
    bracket,
    digits_end, digits_value, ident_end, is_alnum, is_const_start, is_digit, is_term_op_char,
    is_var_start, is_ws, lookup, skip_ws, term_args, term_atom, term_expr,
};
use crate::render::{decimal, digit_char, render_operand, render_term, render_terms};

verus! {

/// A constant or function name: a letter from `a` to `s`, then letters and digits.
pub open spec fn constant_name(n: Seq<char>) -> bool {
    &&& n.len() > 0
    &&& is_const_start(n[0])
    &&& forall|i: int| 0 <= i < n.len() ==> is_alnum(#[trigger] n[i])
}

/// A variable name: a letter from `t` to `z`, then letters and digits.
pub open spec fn variable_name(n: Seq<char>) -> bool {
    &&& n.len() > 0
    &&& is_var_start(n[0])
    &&& forall|i: int| 0 <= i < n.len() ==> is_alnum(#[trigger] n[i])
}

pub open spec fn term_operator(op: Seq<char>) -> bool {
    &&& 1 <= op.len() <= 2
    &&& forall|i: int| 0 <= i < op.len() ==> is_term_op_char(#[trigger] op[i])
}

/// Terms that read back from their text, with every variable named in `names`.
pub open spec fn readable_term(t: Term, names: Set<Seq<char>>) -> bool
    decreases t, 0nat,
{
    match t {
        Term::Constant(n) => constant_name(n),
        Term::Variable(b) => variable_name(b.name) && names.contains(b.name),
        Term::Number(v) => 0 <= v <= isize::MAX,
        Term::Function(n, args) => constant_name(n) && args.len() > 0 && readable_terms(args, names),
        Term::Operator(op, a, b) => term_operator(op) && readable_term(*a, names)
            && readable_term(*b, names),
    }
}

pub open spec fn readable_terms(ts: Seq<Term>, names: Set<Seq<char>>) -> bool
    decreases ts, 0nat,
{
    ts.len() == 0 || (readable_terms(ts.subrange(0, ts.len() - 1), names) && readable_term(
        ts[ts.len() - 1],
        names,
    ))
}

/// A term with every binding identity replaced by zero.
pub open spec fn erase_term(t: Term) -> Term
    decreases t, 0nat,
{
    match t {
        Term::Variable(b) => Term::Variable(Binding { name: b.name, id: 0 }),
        Term::Function(n, args) => Term::Function(n, erase_terms(args)),
        Term::Operator(op, a, b) => Term::Operator(
            op,
            Box::new(erase_term(*a)),
            Box::new(erase_term(*b)),
        ),
        _ => t,
    }
}

pub open spec fn erase_terms(ts: Seq<Term>) -> Seq<Term>
    decreases ts, 0nat,
{
    if ts.len() == 0 {
        ts
    } else {
        erase_terms(ts.subrange(0, ts.len() - 1)).push(erase_term(ts[ts.len() - 1]))
    }
}

pub open spec fn term_size(t: Term) -> nat
    decreases t, 0nat,
{
    match t {
        Term::Function(_, args) => terms_size(args) + 1,
        Term::Operator(_, a, b) => term_size(*a) + term_size(*b) + 1,
        _ => 1,
    }
}

pub open spec fn terms_size(ts: Seq<Term>) -> nat
    decreases ts, 0nat,
{
    if ts.len() == 0 {
        0
    } else {
        terms_size(ts.subrange(0, ts.len() - 1)) + term_size(ts[ts.len() - 1])
    }
}

/// Every name in `names` has a binding in `ctx`.
pub open spec fn resolves(ctx: Seq<Binding>, names: Set<Seq<char>>) -> bool {
    forall|n: Seq<char>| #[trigger] names.contains(n) ==> lookup(ctx, n) is Some
}

/// `r` is written at `p` in `s`.
pub open spec fn text_at(s: Seq<char>, p: int, r: Seq<char>) -> bool {
    0 <= p && p + r.len() <= s.len() && s.subrange(p, p + r.len()) == r
}

pub proof fn lemma_text_char(s: Seq<char>, p: int, r: Seq<char>, i: int)
    requires
        text_at(s, p, r),
        0 <= i < r.len(),
    ensures
        s[p + i] == r[i],
{
    assert(s.subrange(p, p + r.len())[i] == s[p + i]);
}

pub proof fn lemma_text_inner(s: Seq<char>, p: int, r: Seq<char>, off: int, inner: Seq<char>)
    requires
        text_at(s, p, r),
        0 <= off,
        off + inner.len() <= r.len(),
        r.subrange(off, off + inner.len()) == inner,
    ensures
        text_at(s, p + off, inner),
{
    assert(s.subrange(p + off, p + off + inner.len()) =~= r.subrange(off, off + inner.len()));
}

proof fn lemma_digit_char(k: int)
    requires
        0 <= k < 10,
    ensures
        digit_char(k) as int - '0' as int == k,
        is_digit(digit_char(k)),
{
}

proof fn lemma_decimal(n: nat)
    ensures
        decimal(n).len() > 0,
        forall|i: int| 0 <= i < decimal(n).len() ==> is_digit(#[trigger] decimal(n)[i]),
        digits_value(decimal(n)) == n,
    decreases n,
{
    let d = decimal(n);
    lemma_digit_char((n % 10) as int);
    if n >= 10 {
        lemma_decimal(n / 10);
        assert(d.drop_last() =~= decimal(n / 10));
        assert(d.last() == digit_char((n % 10) as int));
        assert(digits_value(d) == digits_value(decimal(n / 10)) * 10 + (n % 10));
        assert((n / 10) * 10 + n % 10 == n);
    } else {
        assert(d.drop_last() =~= Seq::<char>::empty());
        assert(d.last() == digit_char(n as int));
        assert(digits_value(d) == digits_value(d.drop_last()) * 10 + (d.last() as int - '0' as int));
    }
}

/// What may follow a term that stands alone: not a letter, digit or `(`.
pub open spec fn after_term(s: Seq<char>, q: int) -> bool {
    q == s.len() || (0 <= q < s.len() && !is_alnum(s[q]) && s[q] != '(')
}

/// What may follow a whole term: a comma or a closing bracket.
pub open spec fn ends_argument(s: Seq<char>, q: int) -> bool {
    0 <= q < s.len() && (s[q] == ',' || s[q] == ')' || s[q] == ']' || s[q] == '}')
}

pub proof fn lemma_term_starts(t: Term, names: Set<Seq<char>>)
    requires
        readable_term(t, names),
    ensures
        render_term(t).len() > 0,
        render_operand(t).len() > 0,
        !is_ws(render_term(t)[0]),
        !is_ws(render_operand(t)[0]),
        is_alnum(render_term(t)[0]) || render_term(t)[0] == '(',
        is_alnum(render_operand(t)[0]) || render_operand(t)[0] == '(',
    decreases t,
{
    match t {
        Term::Operator(_, a, _) => lemma_term_starts(*a, names),
        Term::Number(v) => lemma_decimal(v as nat),
        _ => {},
    }
}

pub proof fn lemma_terms_front(ts: Seq<Term>, names: Set<Seq<char>>)
    requires
        ts.len() > 0,
    ensures
        ts.len() == 1 ==> render_terms(ts) == render_term(ts[0]),
        ts.len() >= 2 ==> render_terms(ts) == render_term(ts[0]) + seq![',', ' '] + render_terms(
            ts.drop_first(),
        ),
        readable_terms(ts, names) ==> readable_term(ts[0], names) && readable_terms(
            ts.drop_first(),
            names,
        ),
        erase_terms(ts) == seq![erase_term(ts[0])] + erase_terms(ts.drop_first()),
        terms_size(ts) == term_size(ts[0]) + terms_size(ts.drop_first()),
    decreases ts.len(),
{
    let init = ts.subrange(0, ts.len() - 1);
    if ts.len() == 1 {
        assert(init =~= Seq::<Term>::empty());
        assert(ts.drop_first() =~= Seq::<Term>::empty());
        assert(erase_terms(ts) =~= seq![erase_term(ts[0])] + erase_terms(ts.drop_first()));
    } else {
        lemma_terms_front(init, names);
        assert(init.drop_first() =~= ts.drop_first().subrange(0, ts.drop_first().len() - 1));
        assert(init[0] == ts[0]);
        assert(ts.drop_first()[ts.drop_first().len() - 1] == ts[ts.len() - 1]);
        if ts.len() == 2 {
            assert(init.drop_first() =~= Seq::<Term>::empty());
        }
        assert(erase_terms(ts) =~= seq![erase_term(ts[0])] + erase_terms(ts.drop_first()));
    }
}

pub proof fn lemma_lookup_name(ctx: Seq<Binding>, n: Seq<char>)
    requires
        lookup(ctx, n) is Some,
    ensures
        lookup(ctx, n)->0.name == n,
    decreases ctx.len(),
{
    if ctx.last().name != n {
        lemma_lookup_name(ctx.drop_last(), n);
    }
}

pub proof fn lemma_skip_stops(s: Seq<char>, q: int)
    requires
        0 <= q <= s.len(),
        q == s.len() || !is_ws(s[q]),
    ensures
        skip_ws(s, q) == q,
{
}

pub proof fn lemma_skip_bounds(s: Seq<char>, q: int)
    requires
        0 <= q <= s.len(),
    ensures
        q <= skip_ws(s, q) <= s.len(),
        skip_ws(s, q) == s.len() || !is_ws(s[skip_ws(s, q)]),
        skip_ws(s, skip_ws(s, q)) == skip_ws(s, q),
    decreases s.len() - q,
{
    if q < s.len() && is_ws(s[q]) {
        lemma_skip_bounds(s, q + 1);
    }
}

pub proof fn lemma_name_end(s: Seq<char>, p: int, e: int)
    requires
        0 <= p <= e <= s.len(),
        forall|i: int| p <= i < e ==> is_alnum(#[trigger] s[i]),
        e == s.len() || !is_alnum(s[e]),
    ensures
        ident_end(s, p) == e,
    decreases e - p,
{
    if p < e {
        lemma_name_end(s, p + 1, e);
    }
}

proof fn lemma_digits_end(s: Seq<char>, p: int, e: int)
    requires
        0 <= p <= e <= s.len(),
        forall|i: int| p <= i < e ==> is_digit(#[trigger] s[i]),
        e == s.len() || !is_digit(s[e]),
    ensures
        digits_end(s, p) == e,
    decreases e - p,
{
    if p < e {
        lemma_digits_end(s, p + 1, e);
    }
}

/// A name written at `p` and followed by something else reads to its end.
pub proof fn lemma_name_at(s: Seq<char>, p: int, n: Seq<char>)
    requires
        text_at(s, p, n),
        n.len() > 0,
        forall|i: int| 0 <= i < n.len() ==> is_alnum(#[trigger] n[i]),
        p + n.len() == s.len() || !is_alnum(s[p + n.len()]),
    ensures
        ident_end(s, p + 1) == p + n.len(),
        s.subrange(p, p + n.len()) == n,
{
    assert forall|i: int| p + 1 <= i < p + n.len() implies is_alnum(#[trigger] s[i]) by {
        lemma_text_char(s, p, n, i - p);
    }
    lemma_name_end(s, p + 1, p + n.len());
}

pub open spec fn atom_rank(t: Term) -> nat {
    if t is Operator {
        1
    } else {
        0
    }
}

/// A term written as an operand (bracketed when it is an operator application)
/// reads back as a term atom.
#[verifier::rlimit(100)]
#[verifier::spinoff_prover]
pub proof fn lemma_term_atom(
    s: Seq<char>,
    p: int,
    t: Term,
    ctx: Seq<Binding>,
    names: Set<Seq<char>>,
)
    requires
        readable_term(t, names),
        resolves(ctx, names),
        text_at(s, p, render_operand(t)),
        after_term(s, p + render_operand(t).len()),
    ensures
        term_atom(s, p, ctx) matches Some(r) && p + render_operand(t).len() <= r.end <= s.len()
            && skip_ws(s, r.end)
            == skip_ws(s, p + render_operand(t).len()) && r.errors == Seq::<
            crate::error::SyntaxError,
        >::empty() && erase_term(r.value) == erase_term(t),
    decreases term_size(t), atom_rank(t),
{
    let ro = render_operand(t);
    let e = p + ro.len();
    lemma_term_starts(t, names);
    lemma_text_char(s, p, ro, 0);
    lemma_skip_stops(s, p);
    lemma_skip_bounds(s, e);
    match t {
        Term::Operator(op, a, b) => {
            let rt = render_term(t);
            assert(ro == seq!['('] + rt + seq![')']);
            assert(ro.subrange(1, 1 + (rt.len() as int) as int) =~= rt);
            lemma_text_inner(s, p, ro, 1, rt);
            lemma_text_char(s, p, ro, (rt.len() as int) + 1);
            lemma_text_char(s, p + 1, rt, 0);
            lemma_skip_stops(s, p + 1);
            lemma_term_expr(s, p + 1, p + 1, t, ctx, names);
            lemma_skip_stops(s, p + 1 + (rt.len() as int));
            lemma_skip_bounds(s, p + 2 + (rt.len() as int));
        },
        Term::Constant(n) => {
            lemma_name_at(s, p, n);
        },
        Term::Variable(v) => {
            lemma_name_at(s, p, v.name);
            lemma_lookup_name(ctx, v.name);
        },
        Term::Number(v) => {
            lemma_decimal(v as nat);
            let d = decimal(v as nat);
            assert(ro == d);
            assert forall|i: int| p + 1 <= i < e implies is_digit(#[trigger] s[i]) by {
                lemma_text_char(s, p, ro, i - p);
            }
            lemma_digits_end(s, p + 1, e);
            assert(s.subrange(p, e) == d);
        },
        Term::Function(n, args) => {
            let ra = render_terms(args);
            assert(ro == n + seq!['('] + ra + seq![')']);
            assert(ro.subrange(0, (n.len() as int) as int) =~= n);
            assert(ro.subrange((n.len() as int) + 1, (n.len() as int) + 1 + (ra.len() as int)) =~= ra);
            lemma_text_inner(s, p, ro, 0, n);
            lemma_text_inner(s, p, ro, (n.len() as int) + 1, ra);
            lemma_text_char(s, p, ro, (n.len() as int) as int);
            lemma_text_char(s, p, ro, (n.len() as int) + 1 + (ra.len() as int));
            lemma_name_at(s, p, n);
            lemma_terms_front(args, names);
            lemma_term_starts(args[0], names);
            lemma_text_char(s, p + (n.len() as int) + 1, ra, 0);
            lemma_skip_stops(s, p + (n.len() as int) + 1);
            lemma_term_args(s, p + (n.len() as int) + 1, p + (n.len() as int) + 1, args, ctx, names);
        },
    }
}

pub open spec fn expr_rank(t: Term) -> nat {
    if t is Operator {
        0
    } else {
        2
    }
}

/// A term followed by `,` or `)` reads back as a term expression, leading
/// whitespace included.
#[verifier::rlimit(100)]
#[verifier::spinoff_prover]
pub proof fn lemma_term_expr(
    s: Seq<char>,
    p0: int,
    p: int,
    t: Term,
    ctx: Seq<Binding>,
    names: Set<Seq<char>>,
)
    requires
        readable_term(t, names),
        resolves(ctx, names),
        0 <= p0 <= p,
        skip_ws(s, p0) == p,
        text_at(s, p, render_term(t)),
        ends_argument(s, p + render_term(t).len()),
    ensures
        term_expr(s, p0, ctx) matches Some(r) && r.end == p + render_term(t).len() && r.errors
            == Seq::<crate::error::SyntaxError>::empty() && erase_term(r.value) == erase_term(t),
    decreases term_size(t), expr_rank(t),
{
    let rt = render_term(t);
    let e = p + (rt.len() as int);
    lemma_term_starts(t, names);
    lemma_skip_stops(s, e);
    match t {
        Term::Operator(op, a, b) => {
            let ra = render_operand(*a);
            let rb = render_operand(*b);
            assert(rt == ra + seq![' '] + op + seq![' '] + rb);
            assert(rt.subrange(0, (ra.len() as int) as int) =~= ra);
            assert(rt.subrange((ra.len() as int) + (op.len() as int) + 2, (rt.len() as int) as int) =~= rb);
            lemma_text_inner(s, p, rt, 0, ra);
            lemma_text_inner(s, p, rt, (ra.len() as int) + (op.len() as int) + 2, rb);
            lemma_term_starts(*a, names);
            lemma_term_starts(*b, names);
            let q1 = p + (ra.len() as int) + 1;
            lemma_text_char(s, p, rt, (ra.len() as int) as int);
            lemma_text_char(s, p, rt, (ra.len() as int) + 1);
            lemma_text_char(s, p, rt, (ra.len() as int) + (op.len() as int) + 1);
            lemma_text_char(s, p, rt, (ra.len() as int) + (op.len() as int) + 2);
            if (op.len() as int) == 2 {
                lemma_text_char(s, p, rt, (ra.len() as int) + 2);
            }
            assert(s.subrange(q1, q1 + (op.len() as int)) =~= op) by {
                assert forall|i: int| 0 <= i < (op.len() as int) implies s.subrange(q1, q1 + (op.len() as int))[i]
                    == op[i] by {
                    lemma_text_char(s, p, rt, (ra.len() as int) + 1 + i);
                }
            }
            lemma_term_atom(s, p, *a, ctx, names);
            lemma_skip_stops(s, q1);
            assert(skip_ws(s, p + (ra.len() as int)) == q1);
            lemma_skip_stops(s, q1 + (op.len() as int) + 1);
            assert(skip_ws(s, q1 + (op.len() as int)) == q1 + (op.len() as int) + 1);
            lemma_term_atom(s, q1 + (op.len() as int) + 1, *b, ctx, names);
        },
        _ => {
            assert(render_operand(t) == rt);
            lemma_term_atom(s, p, t, ctx, names);
        },
    }
}

/// A non-empty list of terms followed by `)` reads back as the argument list.
#[verifier::rlimit(100)]
#[verifier::spinoff_prover]
pub proof fn lemma_term_args(
    s: Seq<char>,
    p0: int,
    p: int,
    ts: Seq<Term>,
    ctx: Seq<Binding>,
    names: Set<Seq<char>>,
)
    requires
        ts.len() > 0,
        readable_terms(ts, names),
        resolves(ctx, names),
        0 <= p0 <= p,
        skip_ws(s, p0) == p,
        text_at(s, p, render_terms(ts)),
        0 <= p + render_terms(ts).len() < s.len(),
        s[p + render_terms(ts).len()] == ')',
    ensures
        term_args(s, p0, ctx) matches Some(r) && r.end == p + render_terms(ts).len() && r.errors
            == Seq::<crate::error::SyntaxError>::empty() && erase_terms(r.value) == erase_terms(ts),
    decreases terms_size(ts), 3nat,
{
    let rts = render_terms(ts);
    lemma_terms_front(ts, names);
    let r0 = render_term(ts[0]);
    lemma_term_starts(ts[0], names);
    if ts.len() == 1 {
        lemma_term_expr(s, p0, p, ts[0], ctx, names);
        let r = term_expr(s, p0, ctx)->0;
        lemma_terms_front(seq![r.value], names);
        assert(seq![r.value].drop_first() =~= Seq::<Term>::empty());
        assert(ts.drop_first() =~= Seq::<Term>::empty());
    } else {
        let rest = ts.drop_first();
        let rr = render_terms(rest);
        assert(rts.subrange(0, (r0.len() as int) as int) =~= r0);
        assert(rts.subrange((r0.len() as int) + 2, (rts.len() as int) as int) =~= rr);
        lemma_text_inner(s, p, rts, 0, r0);
        lemma_text_inner(s, p, rts, (r0.len() as int) + 2, rr);
        lemma_text_char(s, p, rts, (r0.len() as int) as int);
        lemma_text_char(s, p, rts, (r0.len() as int) + 1);
        lemma_term_expr(s, p0, p, ts[0], ctx, names);
        lemma_terms_front(rest, names);
        lemma_term_starts(rest[0], names);
        lemma_text_char(s, p + (r0.len() as int) + 2, rr, 0);
        lemma_skip_stops(s, p + (r0.len() as int) + 2);
        assert(skip_ws(s, p + (r0.len() as int) + 1) == p + (r0.len() as int) + 2);
        lemma_term_args(s, p + (r0.len() as int) + 1, p + (r0.len() as int) + 2, rest, ctx, names);
        let first = term_expr(s, p0, ctx)->0;
        let tail = term_args(s, p + (r0.len() as int) + 1, ctx)->0;
        let v = seq![first.value] + tail.value;
        lemma_terms_front(v, names);
        assert(v.drop_first() =~= tail.value);
    }
}

} // verus!
