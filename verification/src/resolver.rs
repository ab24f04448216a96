//! The resolver: the pluggable name-to-value lookup the solver consults.

use vstd::prelude::*;

use crate::value::{Value, ValueModel};

verus! {

/// Resolves a variable name to a [`Value`], or `None` if the name is not
/// bound.  The spec-level binding [`Resolver::env`] pins each answer down, so
/// answers are consistent across one evaluation pass.
pub trait Resolver {
    /// The mathematical binding this resolver answers from.
    spec fn env(&self) -> Map<Seq<char>, ValueModel>;

    /// Resolve `name` to a value, or `None` if there is no value for `name`.
    fn resolve(&self, name: &str) -> (r: Option<Value>)
        ensures
            match r {
                Some(v) => self.env().contains_key(name@) && v@ == self.env()[name@],
                None => !self.env().contains_key(name@),
            },
    ;
}

} // verus!
