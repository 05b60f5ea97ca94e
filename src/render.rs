use vstd::prelude::*;
use crate::expr::{lemma_terms_of, terms_of, ConstantExpr, Expr, Formula, GroupKind, Term};

verus! {

pub open spec fn digit_char(d: int) -> char {
    if d == 0 { '0' } else if d == 1 { '1' } else if d == 2 { '2' } else if d == 3 { '3' }
    else if d == 4 { '4' } else if d == 5 { '5' } else if d == 6 { '6' } else if d == 7 { '7' }
    else if d == 8 { '8' } else { '9' }
}

/// The decimal digits of `n`.
pub open spec fn decimal(n: nat) -> Seq<char>
    decreases n,
{
    if n < 10 {
        seq![digit_char(n as int)]
    } else {
        decimal(n / 10) + seq![digit_char((n % 10) as int)]
    }
}

pub open spec fn render_number(n: int) -> Seq<char> {
    if n < 0 {
        seq!['-'] + decimal((-n) as nat)
    } else {
        decimal(n as nat)
    }
}

/// A term as text; an operator application inside another is bracketed.
pub open spec fn render_term(t: Term) -> Seq<char>
    decreases t, 0nat,
{
    match t {
        Term::Constant(n) => n,
        Term::Variable(v) => v.name,
        Term::Number(n) => render_number(n),
        Term::Function(n, args) => n + seq!['('] + render_terms(args) + seq![')'],
        Term::Operator(op, a, b) => render_operand(*a) + seq![' '] + op + seq![' '] + render_operand(*b),
    }
}

pub open spec fn render_operand(t: Term) -> Seq<char>
    decreases t, 1nat,
{
    if t is Operator {
        seq!['('] + render_term(t) + seq![')']
    } else {
        render_term(t)
    }
}

/// Terms as text, separated by `, `.
pub open spec fn render_terms(ts: Seq<Term>) -> Seq<char>
    decreases ts, 0nat,
{
    if ts.len() == 0 {
        seq![]
    } else if ts.len() == 1 {
        render_term(ts[0])
    } else {
        render_terms(ts.subrange(0, ts.len() - 1)) + seq![',', ' '] + render_term(ts[ts.len() - 1])
    }
}

pub open spec fn bracketed(f: Seq<char>) -> Seq<char> {
    seq!['('] + f + seq![')']
}

pub open spec fn infix(a: Seq<char>, op: Seq<char>, b: Seq<char>) -> Seq<char> {
    bracketed(a) + seq![' '] + op + seq![' '] + bracketed(b)
}

/// A formula as text, in the notation the parser reads: every operand of a
/// connective and every quantifier body is bracketed, so that the text reads
/// back as the same structure.
pub open spec fn render(f: Formula) -> Seq<char>
    decreases f,
{
    match f {
        Formula::Literal(n) => n,
        Formula::Variable(v) => v.name,
        Formula::Generic(n) => n,
        Formula::Tautology => seq!['⊤'],
        Formula::Contradiction => seq!['⊥'],
        Formula::Predicate(n, args) => n + seq!['('] + render_terms(args) + seq![')'],
        Formula::Not(a) => seq!['¬'] + bracketed(render(*a)),
        Formula::And(a, b) => infix(render(*a), seq!['∧'], render(*b)),
        Formula::Or(a, b) => infix(render(*a), seq!['∨'], render(*b)),
        Formula::Xor(a, b) => infix(render(*a), seq!['⊕'], render(*b)),
        Formula::Conditional(a, b) => infix(render(*a), seq!['→'], render(*b)),
        Formula::Biconditional(a, b) => infix(render(*a), seq!['↔'], render(*b)),
        Formula::Universal(v, a) => seq!['∀'] + v.name + seq![' '] + bracketed(render(*a)),
        Formula::Existential(v, a) => seq!['∃'] + v.name + seq![' '] + bracketed(render(*a)),
        Formula::ConstantValue(t) => render_term(t),
        Formula::UnknownOperator(a, op, b) => infix(render(*a), op, render(*b)),
        Formula::Group(GroupKind::Paren, a) => bracketed(render(*a)),
        Formula::Group(GroupKind::Bracket, a) => seq!['['] + render(*a) + seq![']'],
        Formula::Group(GroupKind::Brace, a) => seq!['{'] + render(*a) + seq!['}'],
        Formula::Invalid => seq!['?'],
    }
}

pub open spec fn is_symbol(c: char) -> bool {
    c == '(' || c == ')' || c == '[' || c == ']' || c == '{' || c == '}' || c == ' ' || c == ',' || c == '¬' || c == '∧' || c == '∨' || c == '⊕' || c == '→' || c == '↔' || c == '∀' || c == '∃' || c == '⊤' || c == '⊥' || c == '?' || c == '-' || c == '0' || c == '1' || c == '2' || c == '3' || c == '4' || c == '5' || c == '6' || c == '7' || c == '8' || c == '9'
}

/// Appends one of the symbols of the notation.
fn put_symbol(out: &mut String, c: char)
    requires
        is_symbol(c),
    ensures
        final(out)@ == old(out)@.push(c),
{
    if c == '(' {
        proof {
            reveal_strlit("(");
        }
        out.append("(");
    } else if c == ')' {
        proof {
            reveal_strlit(")");
        }
        out.append(")");
    } else if c == '[' {
        proof {
            reveal_strlit("[");
        }
        out.append("[");
    } else if c == ']' {
        proof {
            reveal_strlit("]");
        }
        out.append("]");
    } else if c == '{' {
        proof {
            reveal_strlit("{");
        }
        out.append("{");
    } else if c == '}' {
        proof {
            reveal_strlit("}");
        }
        out.append("}");
    } else if c == ' ' {
        proof {
            reveal_strlit(" ");
        }
        out.append(" ");
    } else if c == ',' {
        proof {
            reveal_strlit(",");
        }
        out.append(",");
    } else if c == '¬' {
        proof {
            reveal_strlit("¬");
        }
        out.append("¬");
    } else if c == '∧' {
        proof {
            reveal_strlit("∧");
        }
        out.append("∧");
    } else if c == '∨' {
        proof {
            reveal_strlit("∨");
        }
        out.append("∨");
    } else if c == '⊕' {
        proof {
            reveal_strlit("⊕");
        }
        out.append("⊕");
    } else if c == '→' {
        proof {
            reveal_strlit("→");
        }
        out.append("→");
    } else if c == '↔' {
        proof {
            reveal_strlit("↔");
        }
        out.append("↔");
    } else if c == '∀' {
        proof {
            reveal_strlit("∀");
        }
        out.append("∀");
    } else if c == '∃' {
        proof {
            reveal_strlit("∃");
        }
        out.append("∃");
    } else if c == '⊤' {
        proof {
            reveal_strlit("⊤");
        }
        out.append("⊤");
    } else if c == '⊥' {
        proof {
            reveal_strlit("⊥");
        }
        out.append("⊥");
    } else if c == '?' {
        proof {
            reveal_strlit("?");
        }
        out.append("?");
    } else if c == '-' {
        proof {
            reveal_strlit("-");
        }
        out.append("-");
    } else if c == '0' {
        proof {
            reveal_strlit("0");
        }
        out.append("0");
    } else if c == '1' {
        proof {
            reveal_strlit("1");
        }
        out.append("1");
    } else if c == '2' {
        proof {
            reveal_strlit("2");
        }
        out.append("2");
    } else if c == '3' {
        proof {
            reveal_strlit("3");
        }
        out.append("3");
    } else if c == '4' {
        proof {
            reveal_strlit("4");
        }
        out.append("4");
    } else if c == '5' {
        proof {
            reveal_strlit("5");
        }
        out.append("5");
    } else if c == '6' {
        proof {
            reveal_strlit("6");
        }
        out.append("6");
    } else if c == '7' {
        proof {
            reveal_strlit("7");
        }
        out.append("7");
    } else if c == '8' {
        proof {
            reveal_strlit("8");
        }
        out.append("8");
    } else if c == '9' {
        proof {
            reveal_strlit("9");
        }
        out.append("9");
    }
}

fn digit_of(d: u128) -> (c: char)
    requires
        d < 10,
    ensures
        c == digit_char(d as int),
        is_symbol(c),
{
    if d == 0 { '0' } else if d == 1 { '1' } else if d == 2 { '2' } else if d == 3 { '3' }
    else if d == 4 { '4' } else if d == 5 { '5' } else if d == 6 { '6' } else if d == 7 { '7' }
    else if d == 8 { '8' } else { '9' }
}

fn write_decimal(out: &mut String, n: u128)
    ensures
        final(out)@ == old(out)@ + decimal(n as nat),
    decreases n,
{
    if n >= 10 {
        write_decimal(out, n / 10);
    }
    let ghost mid = out@;
    put_symbol(out, digit_of(n % 10));
    assert(out@ =~= old(out)@ + decimal(n as nat));
}

fn write_text(out: &mut String, text: &String)
    ensures
        final(out)@ == old(out)@ + text@,
{
    out.append(text.as_str());
}

fn write_term(out: &mut String, t: &ConstantExpr)
    ensures
        final(out)@ == old(out)@ + render_term(t@),
    decreases t, 0nat,
{
    match t {
        ConstantExpr::Constant(c) => write_text(out, &c.0),
        ConstantExpr::Variable(v) => write_text(out, &v.name),
        ConstantExpr::Number(n) => {
            if *n < 0 {
                put_symbol(out, '-');
                let m = -(*n as i128);
                write_decimal(out, m as u128);
            } else {
                write_decimal(out, *n as u128);
            }
            assert(out@ =~= old(out)@ + render_term(t@));
        },
        ConstantExpr::Function { func, args } => {
            write_text(out, &func.0);
            put_symbol(out, '(');
            write_terms(out, args);
            put_symbol(out, ')');
            assert(out@ =~= old(out)@ + render_term(t@));
        },
        ConstantExpr::Operator(op, a, b) => {
            write_operand(out, a);
            put_symbol(out, ' ');
            write_text(out, op);
            put_symbol(out, ' ');
            write_operand(out, b);
            assert(out@ =~= old(out)@ + render_term(t@));
        },
    }
}

fn write_operand(out: &mut String, t: &ConstantExpr)
    ensures
        final(out)@ == old(out)@ + render_operand(t@),
    decreases t, 1nat,
{
    if let ConstantExpr::Operator(..) = t {
        put_symbol(out, '(');
        write_term(out, t);
        put_symbol(out, ')');
        assert(out@ =~= old(out)@ + render_operand(t@));
    } else {
        write_term(out, t);
    }
}

fn write_terms(out: &mut String, args: &Vec<ConstantExpr>)
    ensures
        final(out)@ == old(out)@ + render_terms(terms_of(args@)),
    decreases args, 0nat,
{
    let ghost ts = terms_of(args@);
    proof {
        lemma_terms_of(args@);
        assert(ts.subrange(0, 0) =~= Seq::<Term>::empty());
        assert(out@ =~= old(out)@ + render_terms(ts.subrange(0, 0)));
    }
    let mut i: usize = 0;
    while i < args.len()
        invariant
            i <= args.len(),
            ts == terms_of(args@),
            ts.len() == args.len(),
            forall|j: int| 0 <= j < args.len() ==> #[trigger] ts[j] == args@[j]@,
            out@ == old(out)@ + render_terms(ts.subrange(0, i as int)),
        decreases args.len() - i,
    {
        proof {
            assert(decreases_to!(args => args[i as int]));
            assert(ts.subrange(0, i + 1).subrange(0, i as int) =~= ts.subrange(0, i as int));
        }
        if i > 0 {
            put_symbol(out, ',');
            put_symbol(out, ' ');
        }
        write_term(out, &args[i]);
        i = i + 1;
        assert(out@ =~= old(out)@ + render_terms(ts.subrange(0, i as int)));
    }
    assert(ts.subrange(0, i as int) =~= ts);
}

fn write_binary(out: &mut String, e: &Expr)
    requires
        e is And || e is Or || e is Xor || e is Conditional || e is Biconditional,
    ensures
        final(out)@ == old(out)@ + render(e@),
    decreases e, 0nat,
{
    let (a, op, b) = match e {
        Expr::And(a, b) => (a, '∧', b),
        Expr::Or(a, b) => (a, '∨', b),
        Expr::Xor(a, b) => (a, '⊕', b),
        Expr::Conditional(a, b) => (a, '→', b),
        Expr::Biconditional(a, b) => (a, '↔', b),
        _ => {
            return;
        },
    };
    assert(render(e@) == infix(render(a@), seq![op], render(b@)));
    put_symbol(out, '(');
    write_formula(out, a);
    put_symbol(out, ')');
    put_symbol(out, ' ');
    put_symbol(out, op);
    put_symbol(out, ' ');
    put_symbol(out, '(');
    write_formula(out, b);
    put_symbol(out, ')');
    assert(out@ =~= old(out)@ + render(e@));
}

fn write_quantified(out: &mut String, e: &Expr)
    requires
        e is Universal || e is Existential,
    ensures
        final(out)@ == old(out)@ + render(e@),
    decreases e, 0nat,
{
    match e {
        Expr::Universal { iter, expr } | Expr::Existential { iter, expr } => {
            if let Expr::Universal { .. } = e {
                put_symbol(out, '∀');
            } else {
                put_symbol(out, '∃');
            }
            write_text(out, &iter.name);
            put_symbol(out, ' ');
            put_symbol(out, '(');
            write_formula(out, expr);
            put_symbol(out, ')');
            assert(out@ =~= old(out)@ + render(e@));
        },
        _ => {},
    }
}

fn write_unknown(out: &mut String, e: &Expr)
    requires
        e is UnknownOperator,
    ensures
        final(out)@ == old(out)@ + render(e@),
    decreases e, 0nat,
{
    if let Expr::UnknownOperator { left, operator, right } = e {
        put_symbol(out, '(');
        write_formula(out, left);
        put_symbol(out, ')');
        put_symbol(out, ' ');
        write_text(out, operator);
        put_symbol(out, ' ');
        put_symbol(out, '(');
        write_formula(out, right);
        put_symbol(out, ')');
        assert(out@ =~= old(out)@ + render(e@));
    }
}

fn write_wrapped(out: &mut String, e: &Expr)
    requires
        e is Not || e is Group,
    ensures
        final(out)@ == old(out)@ + render(e@),
    decreases e, 0nat,
{
    match e {
        Expr::Not(a) => {
            put_symbol(out, '¬');
            put_symbol(out, '(');
            write_formula(out, a);
            put_symbol(out, ')');
            assert(out@ =~= old(out)@ + render(e@));
        },
        Expr::Group(kind, a) => {
            let (open, close) = match kind {
                GroupKind::Paren => ('(', ')'),
                GroupKind::Bracket => ('[', ']'),
                GroupKind::Brace => ('{', '}'),
            };
            put_symbol(out, open);
            write_formula(out, a);
            put_symbol(out, close);
            assert(out@ =~= old(out)@ + render(e@));
        },
        _ => {},
    }
}

fn write_formula(out: &mut String, e: &Expr)
    ensures
        final(out)@ == old(out)@ + render(e@),
    decreases e, 1nat,
{
    match e {
        Expr::Literal(l) => write_text(out, &l.0),
        Expr::Variable(v) => write_text(out, &v.name),
        Expr::Generic(g) => write_text(out, g),
        Expr::Tautology => put_symbol(out, '⊤'),
        Expr::Contradiction => put_symbol(out, '⊥'),
        Expr::Predicate { pred, args } => {
            write_text(out, &pred.0);
            put_symbol(out, '(');
            write_terms(out, args);
            put_symbol(out, ')');
            assert(out@ =~= old(out)@ + render(e@));
        },
        Expr::ConstantValue(t) => write_term(out, t),
        Expr::Invalid => put_symbol(out, '?'),
        Expr::Not(_) | Expr::Group(..) => write_wrapped(out, e),
        Expr::Universal { .. } | Expr::Existential { .. } => write_quantified(out, e),
        Expr::UnknownOperator { .. } => write_unknown(out, e),
        _ => write_binary(out, e),
    }
}

impl Expr {
    /// The formula as text in the notation that the parser reads.
    pub fn render(&self) -> (r: String)
        ensures
            r@ == render(self@),
    {
        let mut out = String::new();
        write_formula(&mut out, self);
        assert(out@ =~= render(self@));
        out
    }
}

impl ConstantExpr {
    /// The term as text in the notation that the parser reads.
    pub fn render(&self) -> (r: String)
        ensures
            r@ == render_term(self@),
    {
        let mut out = String::new();
        write_term(&mut out, self);
        assert(out@ =~= render_term(self@));
        out
    }
}

} // verus!
