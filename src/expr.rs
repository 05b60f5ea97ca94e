use vstd::prelude::*;

verus! {

/// A propositional atom or predicate name, such as `P` or `Q1`.
#[derive(Debug, PartialEq, Eq, Hash)]
pub struct Literal(pub String);

/// The name of a constant or function symbol, such as `a` or `s`.
#[derive(Debug, PartialEq, Eq, Hash)]
pub struct Constant(pub String);

/// An occurrence of an individual variable: its surface name and the identity
/// of the quantifier that binds it.
#[derive(Debug, PartialEq, Eq, Hash)]
pub struct Variable {
    pub name: String,
    pub id: u64,
}

/// Mathematical model of a variable occurrence.
pub struct Binding {
    pub name: Seq<char>,
    pub id: u64,
}

impl View for Variable {
    type V = Binding;

    open spec fn view(&self) -> Binding {
        Binding { name: self.name@, id: self.id }
    }
}

/// A term of the constant-expression side grammar.
#[derive(Debug, PartialEq, Eq, Hash)]
pub enum ConstantExpr {
    Constant(Constant),
    Variable(Variable),
    Number(isize),
    Function { func: Constant, args: Vec<ConstantExpr> },
    Operator(String, Box<ConstantExpr>, Box<ConstantExpr>),
}

/// Mathematical model of a [`ConstantExpr`].
pub enum Term {
    Constant(Seq<char>),
    Variable(Binding),
    Number(int),
    Function(Seq<char>, Seq<Term>),
    Operator(Seq<char>, Box<Term>, Box<Term>),
}

pub open spec fn term_of(t: ConstantExpr) -> Term
    decreases t,
{
    match t {
        ConstantExpr::Constant(c) => Term::Constant(c.0@),
        ConstantExpr::Variable(v) => Term::Variable(v@),
        ConstantExpr::Number(n) => Term::Number(n as int),
        ConstantExpr::Function { func, args } => Term::Function(func.0@, terms_of(args@)),
        ConstantExpr::Operator(op, a, b) => Term::Operator(
            op@,
            Box::new(term_of(*a)),
            Box::new(term_of(*b)),
        ),
    }
}

pub open spec fn terms_of(s: Seq<ConstantExpr>) -> Seq<Term>
    decreases s,
{
    if s.len() == 0 {
        Seq::empty()
    } else {
        terms_of(s.subrange(0, s.len() - 1)).push(term_of(s[s.len() - 1]))
    }
}

/// The three bracket styles; all of them group in the same way.
#[derive(Clone, Copy, Debug, PartialEq, Eq, Hash)]
pub enum GroupKind {
    Paren,
    Bracket,
    Brace,
}

/// A parsed logic formula.
#[derive(Debug, PartialEq, Eq, Hash)]
pub enum Expr {
    Literal(Literal),
    Variable(Variable),
    /// Reserved for function symbols at the formula level; never accepted.
    Generic(String),
    Tautology,
    Contradiction,
    Predicate { pred: Literal, args: Vec<ConstantExpr> },
    Not(Box<Expr>),
    And(Box<Expr>, Box<Expr>),
    Or(Box<Expr>, Box<Expr>),
    Xor(Box<Expr>, Box<Expr>),
    Conditional(Box<Expr>, Box<Expr>),
    Biconditional(Box<Expr>, Box<Expr>),
    Universal { iter: Variable, expr: Box<Expr> },
    Existential { iter: Variable, expr: Box<Expr> },
    ConstantValue(ConstantExpr),
    UnknownOperator { left: Box<Expr>, operator: String, right: Box<Expr> },
    Group(GroupKind, Box<Expr>),
    Invalid,
}

/// Mathematical model of an [`Expr`].
pub enum Formula {
    Literal(Seq<char>),
    Variable(Binding),
    Generic(Seq<char>),
    Tautology,
    Contradiction,
    Predicate(Seq<char>, Seq<Term>),
    Not(Box<Formula>),
    And(Box<Formula>, Box<Formula>),
    Or(Box<Formula>, Box<Formula>),
    Xor(Box<Formula>, Box<Formula>),
    Conditional(Box<Formula>, Box<Formula>),
    Biconditional(Box<Formula>, Box<Formula>),
    Universal(Binding, Box<Formula>),
    Existential(Binding, Box<Formula>),
    ConstantValue(Term),
    UnknownOperator(Box<Formula>, Seq<char>, Box<Formula>),
    Group(GroupKind, Box<Formula>),
    Invalid,
}

pub open spec fn formula_of(e: Expr) -> Formula
    decreases e,
{
    match e {
        Expr::Literal(l) => Formula::Literal(l.0@),
        Expr::Variable(v) => Formula::Variable(v@),
        Expr::Generic(g) => Formula::Generic(g@),
        Expr::Tautology => Formula::Tautology,
        Expr::Contradiction => Formula::Contradiction,
        Expr::Predicate { pred, args } => Formula::Predicate(pred.0@, terms_of(args@)),
        Expr::Not(a) => Formula::Not(Box::new(formula_of(*a))),
        Expr::And(a, b) => Formula::And(Box::new(formula_of(*a)), Box::new(formula_of(*b))),
        Expr::Or(a, b) => Formula::Or(Box::new(formula_of(*a)), Box::new(formula_of(*b))),
        Expr::Xor(a, b) => Formula::Xor(Box::new(formula_of(*a)), Box::new(formula_of(*b))),
        Expr::Conditional(a, b) => Formula::Conditional(
            Box::new(formula_of(*a)),
            Box::new(formula_of(*b)),
        ),
        Expr::Biconditional(a, b) => Formula::Biconditional(
            Box::new(formula_of(*a)),
            Box::new(formula_of(*b)),
        ),
        Expr::Universal { iter, expr } => Formula::Universal(iter@, Box::new(formula_of(*expr))),
        Expr::Existential { iter, expr } => Formula::Existential(
            iter@,
            Box::new(formula_of(*expr)),
        ),
        Expr::ConstantValue(t) => Formula::ConstantValue(term_of(t)),
        Expr::UnknownOperator { left, operator, right } => Formula::UnknownOperator(
            Box::new(formula_of(*left)),
            operator@,
            Box::new(formula_of(*right)),
        ),
        Expr::Group(k, a) => Formula::Group(k, Box::new(formula_of(*a))),
        Expr::Invalid => Formula::Invalid,
    }
}

impl View for ConstantExpr {
    type V = Term;

    open spec fn view(&self) -> Term {
        term_of(*self)
    }
}

impl View for Expr {
    type V = Formula;

    open spec fn view(&self) -> Formula {
        formula_of(*self)
    }
}

/// The formula with every `Group` wrapper removed, at every depth. Two formulas
/// are structurally equal when their simplified forms are the same value.
pub open spec fn simplify(f: Formula) -> Formula
    decreases f,
{
    match f {
        Formula::Group(_, a) => simplify(*a),
        Formula::Not(a) => Formula::Not(Box::new(simplify(*a))),
        Formula::And(a, b) => Formula::And(Box::new(simplify(*a)), Box::new(simplify(*b))),
        Formula::Or(a, b) => Formula::Or(Box::new(simplify(*a)), Box::new(simplify(*b))),
        Formula::Xor(a, b) => Formula::Xor(Box::new(simplify(*a)), Box::new(simplify(*b))),
        Formula::Conditional(a, b) => Formula::Conditional(
            Box::new(simplify(*a)),
            Box::new(simplify(*b)),
        ),
        Formula::Biconditional(a, b) => Formula::Biconditional(
            Box::new(simplify(*a)),
            Box::new(simplify(*b)),
        ),
        Formula::Universal(v, a) => Formula::Universal(v, Box::new(simplify(*a))),
        Formula::Existential(v, a) => Formula::Existential(v, Box::new(simplify(*a))),
        Formula::UnknownOperator(a, op, b) => Formula::UnknownOperator(
            Box::new(simplify(*a)),
            op,
            Box::new(simplify(*b)),
        ),
        _ => f,
    }
}

/// Structural equality with brackets ignored.
pub open spec fn same_formula(a: Formula, b: Formula) -> bool {
    simplify(a) == simplify(b)
}

/// The model of a list of terms is the model of each term, in order.
pub proof fn lemma_terms_of(s: Seq<ConstantExpr>)
    ensures
        terms_of(s).len() == s.len(),
        forall|i: int| 0 <= i < s.len() ==> #[trigger] terms_of(s)[i] == term_of(s[i]),
    decreases s.len(),
{
    if s.len() > 0 {
        lemma_terms_of(s.subrange(0, s.len() - 1));
    }
}

proof fn lemma_terms_of_push(s: Seq<ConstantExpr>, t: ConstantExpr)
    ensures
        terms_of(s.push(t)) == terms_of(s).push(term_of(t)),
{
    assert(s.push(t).subrange(0, s.len() as int) =~= s);
}

impl Literal {
    pub fn copy(&self) -> (r: Literal)
        ensures
            r.0@ == self.0@,
    {
        Literal(self.0.clone())
    }
}

impl Constant {
    pub fn copy(&self) -> (r: Constant)
        ensures
            r.0@ == self.0@,
    {
        Constant(self.0.clone())
    }
}

impl Variable {
    pub fn copy(&self) -> (r: Variable)
        ensures
            r@ == self@,
    {
        Variable { name: self.name.clone(), id: self.id }
    }

    /// Same name and same binding identity.
    pub fn same(&self, other: &Variable) -> (r: bool)
        ensures
            r == (self@ == other@),
    {
        self.id == other.id && self.name == other.name
    }
}

/// A deep copy of a list of terms.
pub fn copy_terms(args: &Vec<ConstantExpr>) -> (r: Vec<ConstantExpr>)
    ensures
        terms_of(r@) == terms_of(args@),
    decreases args,
{
    let mut out: Vec<ConstantExpr> = Vec::new();
    let mut i: usize = 0;
    while i < args.len()
        invariant
            i <= args.len(),
            terms_of(out@) == terms_of(args@.subrange(0, i as int)),
        decreases args.len() - i,
    {
        proof {
            assert(decreases_to!(args => args[i as int]));
        }
        let t = args[i].copy();
        proof {
            lemma_terms_of_push(out@, t);
            lemma_terms_of_push(args@.subrange(0, i as int), args@[i as int]);
            assert(args@.subrange(0, i as int).push(args@[i as int]) =~= args@.subrange(0, i + 1));
        }
        out.push(t);
        i = i + 1;
    }
    assert(args@.subrange(0, args.len() as int) =~= args@);
    out
}

/// Element-wise structural equality of two lists of terms.
pub fn terms_equal(a: &Vec<ConstantExpr>, b: &Vec<ConstantExpr>) -> (r: bool)
    ensures
        r == (terms_of(a@) == terms_of(b@)),
    decreases a,
{
    proof {
        lemma_terms_of(a@);
        lemma_terms_of(b@);
    }
    if a.len() != b.len() {
        return false;
    }
    let mut i: usize = 0;
    while i < a.len()
        invariant
            i <= a.len(),
            a.len() == b.len(),
            terms_of(a@).len() == a.len(),
            terms_of(b@).len() == b.len(),
            forall|j: int| 0 <= j < a.len() ==> #[trigger] terms_of(a@)[j] == term_of(a@[j]),
            forall|j: int| 0 <= j < b.len() ==> #[trigger] terms_of(b@)[j] == term_of(b@[j]),
            forall|j: int| 0 <= j < i ==> terms_of(a@)[j] == #[trigger] terms_of(b@)[j],
        decreases a.len() - i,
    {
        proof {
            assert(decreases_to!(a => a[i as int]));
        }
        if !a[i].equals(&b[i]) {
            assert(terms_of(a@)[i as int] != terms_of(b@)[i as int]);
            return false;
        }
        i = i + 1;
    }
    assert(terms_of(a@) =~= terms_of(b@));
    true
}

impl ConstantExpr {
    /// A deep copy with the same model.
    pub fn copy(&self) -> (r: ConstantExpr)
        ensures
            r@ == self@,
        decreases self,
    {
        match self {
            ConstantExpr::Constant(c) => ConstantExpr::Constant(c.copy()),
            ConstantExpr::Variable(v) => ConstantExpr::Variable(v.copy()),
            ConstantExpr::Number(n) => ConstantExpr::Number(*n),
            ConstantExpr::Function { func, args } => ConstantExpr::Function {
                func: func.copy(),
                args: copy_terms(args),
            },
            ConstantExpr::Operator(op, a, b) => ConstantExpr::Operator(
                op.clone(),
                Box::new(a.copy()),
                Box::new(b.copy()),
            ),
        }
    }

    /// Structural equality of terms, binding identities included.
    pub fn equals(&self, other: &ConstantExpr) -> (r: bool)
        ensures
            r == (self@ == other@),
        decreases self,
    {
        match (self, other) {
            (ConstantExpr::Constant(c), ConstantExpr::Constant(d)) => c.0 == d.0,
            (ConstantExpr::Variable(v), ConstantExpr::Variable(w)) => v.same(w),
            (ConstantExpr::Number(n), ConstantExpr::Number(m)) => *n == *m,
            (
                ConstantExpr::Function { func: f, args: a },
                ConstantExpr::Function { func: g, args: b },
            ) => f.0 == g.0 && terms_equal(a, b),
            (ConstantExpr::Operator(o, a1, b1), ConstantExpr::Operator(p, a2, b2)) => {
                *o == *p && a1.equals(a2) && b1.equals(b2)
            },
            _ => false,
        }
    }
}

impl Expr {
    /// A deep copy with the same model.
    pub fn copy(&self) -> (r: Expr)
        ensures
            r@ == self@,
        decreases self,
    {
        match self {
            Expr::Literal(l) => Expr::Literal(l.copy()),
            Expr::Variable(v) => Expr::Variable(v.copy()),
            Expr::Generic(g) => Expr::Generic(g.clone()),
            Expr::Tautology => Expr::Tautology,
            Expr::Contradiction => Expr::Contradiction,
            Expr::Predicate { pred, args } => Expr::Predicate {
                pred: pred.copy(),
                args: copy_terms(args),
            },
            Expr::Not(a) => Expr::Not(Box::new(a.copy())),
            Expr::And(a, b) => Expr::And(Box::new(a.copy()), Box::new(b.copy())),
            Expr::Or(a, b) => Expr::Or(Box::new(a.copy()), Box::new(b.copy())),
            Expr::Xor(a, b) => Expr::Xor(Box::new(a.copy()), Box::new(b.copy())),
            Expr::Conditional(a, b) => Expr::Conditional(Box::new(a.copy()), Box::new(b.copy())),
            Expr::Biconditional(a, b) => Expr::Biconditional(
                Box::new(a.copy()),
                Box::new(b.copy()),
            ),
            Expr::Universal { iter, expr } => Expr::Universal {
                iter: iter.copy(),
                expr: Box::new(expr.copy()),
            },
            Expr::Existential { iter, expr } => Expr::Existential {
                iter: iter.copy(),
                expr: Box::new(expr.copy()),
            },
            Expr::ConstantValue(t) => Expr::ConstantValue(t.copy()),
            Expr::UnknownOperator { left, operator, right } => Expr::UnknownOperator {
                left: Box::new(left.copy()),
                operator: operator.clone(),
                right: Box::new(right.copy()),
            },
            Expr::Group(k, a) => Expr::Group(*k, Box::new(a.copy())),
            Expr::Invalid => Expr::Invalid,
        }
    }

    /// The same formula with every bracket removed.
    pub fn simplified(&self) -> (r: Expr)
        ensures
            r@ == simplify(self@),
        decreases self,
    {
        match self {
            Expr::Group(_, a) => a.simplified(),
            Expr::Not(a) => Expr::Not(Box::new(a.simplified())),
            Expr::And(a, b) => Expr::And(Box::new(a.simplified()), Box::new(b.simplified())),
            Expr::Or(a, b) => Expr::Or(Box::new(a.simplified()), Box::new(b.simplified())),
            Expr::Xor(a, b) => Expr::Xor(Box::new(a.simplified()), Box::new(b.simplified())),
            Expr::Conditional(a, b) => Expr::Conditional(
                Box::new(a.simplified()),
                Box::new(b.simplified()),
            ),
            Expr::Biconditional(a, b) => Expr::Biconditional(
                Box::new(a.simplified()),
                Box::new(b.simplified()),
            ),
            Expr::Universal { iter, expr } => Expr::Universal {
                iter: iter.copy(),
                expr: Box::new(expr.simplified()),
            },
            Expr::Existential { iter, expr } => Expr::Existential {
                iter: iter.copy(),
                expr: Box::new(expr.simplified()),
            },
            Expr::UnknownOperator { left, operator, right } => Expr::UnknownOperator {
                left: Box::new(left.simplified()),
                operator: operator.clone(),
                right: Box::new(right.simplified()),
            },
            _ => self.copy(),
        }
    }

    /// Structural equality with brackets ignored: `P ∧ Q` equals `(P) ∧ [Q]`.
    pub fn equals(&self, other: &Expr) -> (r: bool)
        ensures
            r == same_formula(self@, other@),
        decreases self, other,
    {
        match (self, other) {
            (Expr::Group(_, a), _) => a.equals(other),
            (_, Expr::Group(_, b)) => self.equals(b),
            (Expr::Literal(l), Expr::Literal(m)) => l.0 == m.0,
            (Expr::Variable(v), Expr::Variable(w)) => v.same(w),
            (Expr::Generic(g), Expr::Generic(h)) => *g == *h,
            (Expr::Tautology, Expr::Tautology) => true,
            (Expr::Contradiction, Expr::Contradiction) => true,
            (Expr::Predicate { pred: p, args: a }, Expr::Predicate { pred: q, args: b }) => {
                p.0 == q.0 && terms_equal(a, b)
            },
            (Expr::Not(a), Expr::Not(b)) => a.equals(b),
            (Expr::And(a1, b1), Expr::And(a2, b2)) => a1.equals(a2) && b1.equals(b2),
            (Expr::Or(a1, b1), Expr::Or(a2, b2)) => a1.equals(a2) && b1.equals(b2),
            (Expr::Xor(a1, b1), Expr::Xor(a2, b2)) => a1.equals(a2) && b1.equals(b2),
            (Expr::Conditional(a1, b1), Expr::Conditional(a2, b2)) => {
                a1.equals(a2) && b1.equals(b2)
            },
            (Expr::Biconditional(a1, b1), Expr::Biconditional(a2, b2)) => {
                a1.equals(a2) && b1.equals(b2)
            },
            (Expr::Universal { iter: v, expr: a }, Expr::Universal { iter: w, expr: b }) => {
                v.same(w) && a.equals(b)
            },
            (Expr::Existential { iter: v, expr: a }, Expr::Existential { iter: w, expr: b }) => {
                v.same(w) && a.equals(b)
            },
            (Expr::ConstantValue(s), Expr::ConstantValue(t)) => s.equals(t),
            (
                Expr::UnknownOperator { left: a1, operator: o, right: b1 },
                Expr::UnknownOperator { left: a2, operator: p, right: b2 },
            ) => *o == *p && a1.equals(a2) && b1.equals(b2),
            (Expr::Invalid, Expr::Invalid) => true,
            _ => false,
        }
    }
}

/// Brackets are transparent: a formula and the same formula wrapped in any
/// bracket style are equal, and simplify to the same value, so any hash taken
/// of the simplified form agrees on the two.
pub proof fn lemma_grouping_transparent(f: Formula, k: GroupKind)
    ensures
        same_formula(f, Formula::Group(k, Box::new(f))),
        simplify(Formula::Group(k, Box::new(f))) == simplify(f),
{
}

/// Simplifying twice changes nothing.
pub proof fn lemma_simplify_idempotent(f: Formula)
    ensures
        simplify(simplify(f)) == simplify(f),
    decreases f,
{
    match f {
        Formula::Group(_, a) => lemma_simplify_idempotent(*a),
        Formula::Not(a) => lemma_simplify_idempotent(*a),
        Formula::And(a, b) | Formula::Or(a, b) | Formula::Xor(a, b) | Formula::Conditional(a, b)
        | Formula::Biconditional(a, b) | Formula::UnknownOperator(a, _, b) => {
            lemma_simplify_idempotent(*a);
            lemma_simplify_idempotent(*b);
        },
        Formula::Universal(_, a) | Formula::Existential(_, a) => lemma_simplify_idempotent(*a),
        _ => {},
    }
}

/// The top-level kind of a formula, with no payload.
#[derive(Clone, Copy, Debug, PartialEq, Eq, Structural, Hash)]
pub enum ExprDiscriminants {
    Literal,
    Variable,
    Generic,
    Tautology,
    Contradiction,
    Predicate,
    Not,
    And,
    Or,
    Xor,
    Conditional,
    Biconditional,
    Universal,
    Existential,
    ConstantValue,
    UnknownOperator,
    Group,
    Invalid,
}

pub open spec fn shape_of(f: Formula) -> ExprDiscriminants {
    match f {
        Formula::Literal(_) => ExprDiscriminants::Literal,
        Formula::Variable(_) => ExprDiscriminants::Variable,
        Formula::Generic(_) => ExprDiscriminants::Generic,
        Formula::Tautology => ExprDiscriminants::Tautology,
        Formula::Contradiction => ExprDiscriminants::Contradiction,
        Formula::Predicate(..) => ExprDiscriminants::Predicate,
        Formula::Not(_) => ExprDiscriminants::Not,
        Formula::And(..) => ExprDiscriminants::And,
        Formula::Or(..) => ExprDiscriminants::Or,
        Formula::Xor(..) => ExprDiscriminants::Xor,
        Formula::Conditional(..) => ExprDiscriminants::Conditional,
        Formula::Biconditional(..) => ExprDiscriminants::Biconditional,
        Formula::Universal(..) => ExprDiscriminants::Universal,
        Formula::Existential(..) => ExprDiscriminants::Existential,
        Formula::ConstantValue(_) => ExprDiscriminants::ConstantValue,
        Formula::UnknownOperator(..) => ExprDiscriminants::UnknownOperator,
        Formula::Group(..) => ExprDiscriminants::Group,
        Formula::Invalid => ExprDiscriminants::Invalid,
    }
}

impl Expr {
    /// The top-level kind of this formula, brackets included.
    pub fn shape(&self) -> (r: ExprDiscriminants)
        ensures
            r == shape_of(self@),
    {
        match self {
            Expr::Literal(_) => ExprDiscriminants::Literal,
            Expr::Variable(_) => ExprDiscriminants::Variable,
            Expr::Generic(_) => ExprDiscriminants::Generic,
            Expr::Tautology => ExprDiscriminants::Tautology,
            Expr::Contradiction => ExprDiscriminants::Contradiction,
            Expr::Predicate { .. } => ExprDiscriminants::Predicate,
            Expr::Not(_) => ExprDiscriminants::Not,
            Expr::And(..) => ExprDiscriminants::And,
            Expr::Or(..) => ExprDiscriminants::Or,
            Expr::Xor(..) => ExprDiscriminants::Xor,
            Expr::Conditional(..) => ExprDiscriminants::Conditional,
            Expr::Biconditional(..) => ExprDiscriminants::Biconditional,
            Expr::Universal { .. } => ExprDiscriminants::Universal,
            Expr::Existential { .. } => ExprDiscriminants::Existential,
            Expr::ConstantValue(_) => ExprDiscriminants::ConstantValue,
            Expr::UnknownOperator { .. } => ExprDiscriminants::UnknownOperator,
            Expr::Group(..) => ExprDiscriminants::Group,
            Expr::Invalid => ExprDiscriminants::Invalid,
        }
    }
}

} // verus!
