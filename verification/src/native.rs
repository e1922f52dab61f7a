//! What every native receives besides its positional arguments: the
//! refinements given at the call site, each with its arguments.
use vstd::prelude::*;

use crate::value::Value;

verus! {

/// The refinements of a call (`/pretty`, `/method 'sha256`, ...), in call
/// order, each with the values it was given.
pub struct RefineArgs {
    pub refs: Vec<(String, Vec<Value>)>,
}

impl RefineArgs {
    /// A call without refinements.
    pub fn empty() -> (r: RefineArgs)
        ensures
            r.refs@.len() == 0,
    {
        RefineArgs { refs: Vec::new() }
    }

    /// The refinement `name` was given.
    pub open spec fn spec_has(&self, name: Seq<char>) -> bool {
        exists|i: int| 0 <= i < self.refs@.len() && #[trigger] self.refs@[i].0@ == name
    }

    /// The position of the first refinement called `name`.
    pub open spec fn first_index(&self, name: Seq<char>) -> int
        recommends
            self.spec_has(name),
    {
        choose|i: int|
            0 <= i < self.refs@.len() && self.refs@[i].0@ == name && forall|j: int|
                0 <= j < i ==> #[trigger] self.refs@[j].0@ != name
    }

    /// Whether the refinement `name` was given.
    pub fn has(&self, name: &str) -> (r: bool)
        ensures
            r == self.spec_has(name@),
    {
        let key = String::from_str(name);
        let mut i: usize = 0;
        while i < self.refs.len()
            invariant
                i <= self.refs@.len(),
                key@ == name@,
                forall|j: int| 0 <= j < i ==> #[trigger] self.refs@[j].0@ != name@,
            decreases self.refs@.len() - i,
        {
            if self.refs[i].0 == key {
                return true;
            }
            i = i + 1;
        }
        false
    }

    /// The arguments of the first refinement called `name`, if it was given.
    pub fn get(&self, name: &str) -> (r: Option<&Vec<Value>>)
        ensures
            r is None <==> !self.spec_has(name@),
            r matches Some(args) ==> exists|i: int|
                0 <= i < self.refs@.len() && self.refs@[i].0@ == name@ && (forall|j: int|
                    0 <= j < i ==> #[trigger] self.refs@[j].0@ != name@) && args
                    == &self.refs@[i].1,
    {
        let key = String::from_str(name);
        let mut i: usize = 0;
        while i < self.refs.len()
            invariant
                i <= self.refs@.len(),
                key@ == name@,
                forall|j: int| 0 <= j < i ==> #[trigger] self.refs@[j].0@ != name@,
            decreases self.refs@.len() - i,
        {
            if self.refs[i].0 == key {
                return Some(&self.refs[i].1);
            }
            i = i + 1;
        }
        None
    }
}

} // verus!
