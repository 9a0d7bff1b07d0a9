//! The order of variables: a variable stands before another if its name
//! does.

use core::cmp::Ordering;
use vstd::prelude::*;
use vstd::std_specs::cmp::PartialOrdSpecImpl;
use crate::lir::Variable;
use crate::text::{compare_names, lex_order, NameOrder};

verus! {

impl PartialOrd for Variable {
    /// Compares two variables by their names.
    fn partial_cmp(&self, other: &Self) -> (r: Option<Ordering>) {
        match compare_names(self.name.as_str(), other.name.as_str()) {
            NameOrder::Before => Some(Ordering::Less),
            NameOrder::Same => Some(Ordering::Equal),
            NameOrder::After => Some(Ordering::Greater),
        }
    }
}

impl PartialOrdSpecImpl for Variable {
    /// The comparison does what `partial_cmp_spec` says.
    open spec fn obeys_partial_cmp_spec() -> bool {
        true
    }

    /// The order of two variables is the lexicographic order of their names.
    open spec fn partial_cmp_spec(&self, other: &Self) -> Option<Ordering> {
        match lex_order(self.name@, other.name@) {
            NameOrder::Before => Some(Ordering::Less),
            NameOrder::Same => Some(Ordering::Equal),
            NameOrder::After => Some(Ordering::Greater),
        }
    }
}

} // verus!
