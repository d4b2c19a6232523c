//! The structured error tree that a validation run produces.
use vstd::prelude::*;

verus! {

broadcast use vstd::std_specs::vec::group_vec_axioms;

/// The errors of one validation run, shaped like the value validated.
#[derive(Debug, PartialEq, Eq)]
pub enum ErrorTree {
    /// Nothing to report.
    Empty,
    /// The violations of one leaf field, one per failing rule.
    Simple(Vec<String>),
    /// One entry per named field.
    Fields(Vec<(String, ErrorTree)>),
    /// One entry per positional field.
    List(Vec<ErrorTree>),
}

/// A tree is empty when no leaf holds a violation.
pub open spec fn tree_is_empty(t: ErrorTree) -> bool
    decreases t,
{
    match t {
        ErrorTree::Empty => true,
        ErrorTree::Simple(v) => v@.len() == 0,
        ErrorTree::Fields(v) => forall|i: int| 0 <= i < v@.len() ==> tree_is_empty(#[trigger] v@[i].1),
        ErrorTree::List(v) => forall|i: int| 0 <= i < v@.len() ==> tree_is_empty(#[trigger] v@[i]),
    }
}

proof fn lemma_entry_decreases(t: ErrorTree, i: int)
    requires
        t is Fields,
        0 <= i < t->Fields_0@.len(),
    ensures
        decreases_to!(t => t->Fields_0@[i].1),
{
    assert(decreases_to!(t => t->Fields_0));
    assert(decreases_to!(t->Fields_0 => t->Fields_0@));
    assert(decreases_to!(t->Fields_0@ => t->Fields_0@[i]));
    assert(decreases_to!(t->Fields_0@[i] => t->Fields_0@[i].1));
}

proof fn lemma_item_decreases(t: ErrorTree, i: int)
    requires
        t is List,
        0 <= i < t->List_0@.len(),
    ensures
        decreases_to!(t => t->List_0@[i]),
{
    assert(decreases_to!(t => t->List_0));
    assert(decreases_to!(t->List_0 => t->List_0@));
    assert(decreases_to!(t->List_0@ => t->List_0@[i]));
}

proof fn lemma_fields_child(t: ErrorTree, i: int)
    requires
        t is Fields,
        0 <= i < t->Fields_0@.len(),
    ensures
        tree_is_empty(t) ==> tree_is_empty(t->Fields_0@[i].1),
{
    lemma_entry_decreases(t, i);
    let v = t->Fields_0;
    assert(t == ErrorTree::Fields(v));
    reveal_with_fuel(tree_is_empty, 2);
}

proof fn lemma_list_child(t: ErrorTree, i: int)
    requires
        t is List,
        0 <= i < t->List_0@.len(),
    ensures
        tree_is_empty(t) ==> tree_is_empty(t->List_0@[i]),
{
    lemma_item_decreases(t, i);
    let v = t->List_0;
    assert(t == ErrorTree::List(v));
    reveal_with_fuel(tree_is_empty, 2);
}

proof fn lemma_fields_all(t: ErrorTree)
    requires
        t is Fields,
        forall|i: int| 0 <= i < t->Fields_0@.len() ==> #[trigger] tree_is_empty(t->Fields_0@[i].1),
    ensures
        tree_is_empty(t),
{
    let v = t->Fields_0;
    assert(t == ErrorTree::Fields(v));
    assert forall|i: int| 0 <= i < v@.len() implies tree_is_empty(#[trigger] v@[i].1) by {
        lemma_entry_decreases(t, i);
    }
    reveal_with_fuel(tree_is_empty, 2);
}

proof fn lemma_list_all(t: ErrorTree)
    requires
        t is List,
        forall|i: int| 0 <= i < t->List_0@.len() ==> #[trigger] tree_is_empty(t->List_0@[i]),
    ensures
        tree_is_empty(t),
{
    let v = t->List_0;
    assert(t == ErrorTree::List(v));
    assert forall|i: int| 0 <= i < v@.len() implies tree_is_empty(#[trigger] v@[i]) by {
        lemma_item_decreases(t, i);
    }
    reveal_with_fuel(tree_is_empty, 2);
}

/// A `Fields` tree is empty exactly when each entry is.
pub proof fn lemma_fields_empty(t: ErrorTree)
    requires
        t is Fields,
    ensures
        tree_is_empty(t) <==> forall|i: int|
            0 <= i < t->Fields_0@.len() ==> tree_is_empty(#[trigger] t->Fields_0@[i].1),
{
    if forall|i: int| 0 <= i < t->Fields_0@.len() ==> tree_is_empty(#[trigger] t->Fields_0@[i].1) {
        lemma_fields_all(t);
    }
    assert forall|i: int| tree_is_empty(t) && 0 <= i < t->Fields_0@.len() implies tree_is_empty(
        #[trigger] t->Fields_0@[i].1,
    ) by {
        lemma_fields_child(t, i);
    }
}

/// A `List` tree is empty exactly when each item is.
pub proof fn lemma_list_empty(t: ErrorTree)
    requires
        t is List,
    ensures
        tree_is_empty(t) <==> forall|i: int|
            0 <= i < t->List_0@.len() ==> tree_is_empty(#[trigger] t->List_0@[i]),
{
    if forall|i: int| 0 <= i < t->List_0@.len() ==> tree_is_empty(#[trigger] t->List_0@[i]) {
        lemma_list_all(t);
    }
    assert forall|i: int| tree_is_empty(t) && 0 <= i < t->List_0@.len() implies tree_is_empty(
        #[trigger] t->List_0@[i],
    ) by {
        lemma_list_child(t, i);
    }
}

impl ErrorTree {
    /// Whether no leaf of the tree holds a violation.
    #[verifier::loop_isolation(false)]
    pub fn is_empty(&self) -> (r: bool)
        ensures
            r == tree_is_empty(*self),
        decreases self,
    {
        match self {
            ErrorTree::Empty => true,
            ErrorTree::Simple(v) => v.len() == 0,
            ErrorTree::Fields(v) => {
                let mut i: usize = 0;
                while i < v.len()
                    invariant
                        i <= v@.len(),
                        forall|j: int| 0 <= j < i ==> #[trigger] tree_is_empty(v@[j].1),
                    decreases v@.len() - i,
                {
                    proof {
                        lemma_entry_decreases(*self, i as int);
                    }
                    if !v[i].1.is_empty() {
                        proof {
                            lemma_fields_child(*self, i as int);
                        }
                        return false;
                    }
                    i = i + 1;
                }
                proof {
                    lemma_fields_all(*self);
                }
                true
            },
            ErrorTree::List(v) => {
                let mut i: usize = 0;
                while i < v.len()
                    invariant
                        i <= v@.len(),
                        forall|j: int| 0 <= j < i ==> #[trigger] tree_is_empty(v@[j]),
                    decreases v@.len() - i,
                {
                    proof {
                        lemma_item_decreases(*self, i as int);
                    }
                    if !v[i].is_empty() {
                        proof {
                            lemma_list_child(*self, i as int);
                        }
                        return false;
                    }
                    i = i + 1;
                }
                proof {
                    lemma_list_all(*self);
                }
                true
            },
        }
    }
}

/// The result of a run: `Ok` exactly when the tree is empty.
pub open spec fn finish_spec(t: ErrorTree) -> Result<(), ErrorTree> {
    if tree_is_empty(t) {
        Ok(())
    } else {
        Err(t)
    }
}

/// Turns the tree of a run into its result.
pub fn finish(t: ErrorTree) -> (r: Result<(), ErrorTree>)
    ensures
        r == finish_spec(t),
{
    if t.is_empty() {
        Ok(())
    } else {
        Err(t)
    }
}

} // verus!
