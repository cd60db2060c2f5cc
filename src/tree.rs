//! A plain tree of values, used for menus.
use vstd::prelude::*;

verus! {

pub struct Tree<T> {
    pub value: T,
    pub kids: Vec<Tree<T>>,
}

impl<T> Tree<T> {
    pub fn new_leaf(value: T) -> (r: Self)
        ensures
            r.value == value,
            r.kids@.len() == 0,
    {
        Tree { value, kids: Vec::new() }
    }

    pub fn new_branch(value: T, kids: Vec<Tree<T>>) -> (r: Self)
        ensures
            r.value == value,
            r.kids@ == kids@,
    {
        Tree { value, kids }
    }
}

} // verus!
