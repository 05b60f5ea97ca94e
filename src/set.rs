use vstd::prelude::*;
use crate::expr::{simplify, Expr, Formula};

verus! {

/// The simplified models of a list of formulas, in order.
pub open spec fn simplified_all(s: Seq<Expr>) -> Seq<Formula> {
    s.map_values(|e: Expr| simplify(e@))
}

/// A finite set of formulas under bracket-transparent structural equality.
pub struct ExprSet {
    items: Vec<Expr>,
}

impl View for ExprSet {
    type V = Set<Formula>;

    closed spec fn view(&self) -> Set<Formula> {
        self.members().to_set()
    }
}

impl ExprSet {
    /// The simplified members, in the order they were inserted.
    pub closed spec fn members(&self) -> Seq<Formula> {
        simplified_all(self.items@)
    }

    /// No two members are structurally equal.
    pub closed spec fn wf(&self) -> bool {
        self.members().no_duplicates()
    }

    pub fn new() -> (r: ExprSet)
        ensures
            r.wf(),
            r@ == Set::<Formula>::empty(),
    {
        let r = ExprSet { items: Vec::new() };
        assert(r.members() =~= Seq::<Formula>::empty());
        r
    }

    /// Whether a formula structurally equal to `e` is a member.
    pub fn contains(&self, e: &Expr) -> (r: bool)
        ensures
            r == self@.contains(simplify(e@)),
    {
        let mut i: usize = 0;
        while i < self.items.len()
            invariant
                i <= self.items.len(),
                forall|j: int| 0 <= j < i ==> self.members()[j] != simplify(e@),
            decreases self.items.len() - i,
        {
            if self.items[i].equals(e) {
                assert(self.members()[i as int] == simplify(e@));
                return true;
            }
            i = i + 1;
        }
        assert(!self.members().contains(simplify(e@)));
        false
    }

    /// Adds `e` unless a structurally equal formula is already a member.
    pub fn insert(&mut self, e: Expr)
        requires
            old(self).wf(),
        ensures
            final(self).wf(),
            final(self)@ == old(self)@.insert(simplify(e@)),
    {
        if !self.contains(&e) {
            let ghost before = self.members();
            self.items.push(e);
            assert(self.members() =~= before.push(simplify(e@)));
            assert(self.members().to_set() =~= before.to_set().insert(simplify(e@))) by {
                broadcast use vstd::seq_lib::group_seq_properties;
            }
        } else {
            assert(self@.insert(simplify(e@)) =~= self@);
        }
    }

    /// The number of members.
    pub fn len(&self) -> (r: usize)
        requires
            self.wf(),
        ensures
            r == self@.len(),
    {
        proof {
            self.members().unique_seq_to_set();
        }
        self.items.len()
    }

    /// The members, in the order they were inserted.
    pub fn as_vec(&self) -> (r: &Vec<Expr>)
        ensures
            simplified_all(r@) == self.members(),
            simplified_all(r@).to_set() == self@,
    {
        &self.items
    }
}

} // verus!
