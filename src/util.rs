use vstd::prelude::*;
use crate::expr::{simplify, Expr, Formula};
use crate::set::ExprSet;

verus! {

/// The first `set@.len()` formulas of `list` are all members of `set`.
pub open spec fn list_starts_with(list: Seq<Expr>, set: Set<Formula>) -> bool {
    &&& list.len() >= set.len()
    &&& forall|i: int| 0 <= i < set.len() ==> set.contains(simplify(#[trigger] list[i]@))
}

/// The first `set@.len()` entries of `list` are present, members of `set`, and
/// pairwise distinct; that is, they are the members of `set` in some order.
pub open spec fn maybe_list_starts_with(list: Seq<Option<Expr>>, set: Set<Formula>) -> bool {
    &&& list.len() >= set.len()
    &&& forall|i: int| 0 <= i < set.len() ==> (#[trigger] list[i]) is Some
    &&& forall|i: int|
        0 <= i < set.len() ==> set.contains(simplify((#[trigger] list[i])->0@))
    &&& forall|i: int, j: int|
        0 <= i < j < set.len() ==> simplify((#[trigger] list[i])->0@) != simplify(
            (#[trigger] list[j])->0@,
        )
}

/// Whether `list` begins with members of `set`, as many as `set` has.
pub fn expr_list_starts_with(list: &Vec<Expr>, set: &ExprSet) -> (r: bool)
    requires
        set.wf(),
    ensures
        r == list_starts_with(list@, set@),
{
    let n = set.len();
    let mut found: usize = 0;
    while found < n && found < list.len()
        invariant
            n == set@.len(),
            found <= n,
            found <= list.len(),
            forall|i: int| 0 <= i < found ==> set@.contains(simplify(#[trigger] list@[i]@)),
        decreases n - found,
    {
        if set.contains(&list[found]) {
            found = found + 1;
        } else {
            return false;
        }
    }
    found >= n
}

/// Whether `list` begins with every member of `set`, in any order, each once.
/// An absent entry fails the match.
pub fn expr_maybe_list_starts_with(list: &Vec<Option<Expr>>, set: &ExprSet) -> (r: bool)
    requires
        set.wf(),
    ensures
        r == maybe_list_starts_with(list@, set@),
{
    let n = set.len();
    let mut found: usize = 0;
    let mut matched = ExprSet::new();
    while found < n && found < list.len()
        invariant
            n == set@.len(),
            found <= n,
            found <= list.len(),
            matched.wf(),
            forall|i: int| 0 <= i < found ==> (#[trigger] list@[i]) is Some,
            forall|i: int| 0 <= i < found ==> set@.contains(simplify((#[trigger] list@[i])->0@)),
            forall|i: int, j: int|
                0 <= i < j < found ==> simplify((#[trigger] list@[i])->0@) != simplify(
                    (#[trigger] list@[j])->0@,
                ),
            forall|f| #[trigger]
                matched@.contains(f) <==> exists|i: int|
                    0 <= i < found && f == simplify((#[trigger] list@[i])->0@),
        decreases n - found,
    {
        match &list[found] {
            Some(e) => {
                if set.contains(e) && !matched.contains(e) {
                    matched.insert(e.copy());
                    proof {
                        assert forall|f| #[trigger]
                            matched@.contains(f) <==> exists|i: int|
                                0 <= i < found + 1 && f == simplify(
                                    (#[trigger] list@[i])->0@,
                                ) by {
                            if f == simplify(e@) {
                                assert(list@[found as int]->0 == *e);
                            }
                        }
                    }
                    found = found + 1;
                } else {
                    proof {
                        if set@.contains(simplify(e@)) {
                            let i = choose|i: int|
                                0 <= i < found && simplify(e@) == simplify(
                                    (#[trigger] list@[i])->0@,
                                );
                            assert(simplify(list@[i]->0@) == simplify(list@[found as int]->0@));
                        }
                    }
                    return false;
                }
            },
            None => {
                return false;
            },
        }
    }
    found >= n
}

} // verus!
