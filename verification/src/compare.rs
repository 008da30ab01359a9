//! Agents compare by fitness: two agents are equal where their fitness is,
//! and the fitter one is the greater.

use crate::agent::Agent;
use std::cmp::Ordering;
use vstd::prelude::*;
use vstd::std_specs::cmp::{PartialEqSpecImpl, PartialOrdSpecImpl};

verus! {

impl PartialEq for Agent {
    fn eq(&self, other: &Self) -> (same: bool) {
        self.fitness() == other.fitness()
    }
}

impl PartialEqSpecImpl for Agent {
    open spec fn obeys_eq_spec() -> bool {
        true
    }

    open spec fn eq_spec(&self, other: &Self) -> bool {
        self@.fitness() == other@.fitness()
    }
}

impl PartialOrd for Agent {
    fn partial_cmp(&self, other: &Self) -> (order: Option<Ordering>) {
        let mine = self.fitness();
        let theirs = other.fitness();
        if mine < theirs {
            Some(Ordering::Less)
        } else if mine == theirs {
            Some(Ordering::Equal)
        } else {
            Some(Ordering::Greater)
        }
    }
}

impl PartialOrdSpecImpl for Agent {
    open spec fn obeys_partial_cmp_spec() -> bool {
        true
    }

    open spec fn partial_cmp_spec(&self, other: &Self) -> Option<Ordering> {
        if self@.fitness() < other@.fitness() {
            Some(Ordering::Less)
        } else if self@.fitness() == other@.fitness() {
            Some(Ordering::Equal)
        } else {
            Some(Ordering::Greater)
        }
    }
}

} // verus!
