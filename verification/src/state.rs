//! The state of an L-system: a generation of symbols together with the
//! shared rules that produced it.

use vstd::prelude::*;
use std::sync::Arc;

use crate::rules::HashMapRules;

verus! {

/// A shared, read-only handle to a rules table. Every generation derived
/// from the same seed shares one handle; no writer exists after
/// construction, so it is safe to read from many threads.
pub type RulesValue = Arc<HashMapRules>;

/// Wrap a rules table into a shared read-only handle.
pub fn new_rules_value(rules: HashMapRules) -> (r: RulesValue)
    ensures
        *r == rules,
{
    Arc::new(rules)
}

/// Structure containing all that is needed to fully describe the current
/// state of an L-system.
pub struct LSystem {
    /// The current iteration/generation: the number of rewrite steps that
    /// were needed to reach the current state.
    iteration: u64,
    /// The current internal state of the L-system, as a list of symbols.
    state: Vec<u32>,
    /// The L-system's production rules.
    rules: RulesValue,
}

impl LSystem {
    /// The iteration counter.
    pub closed spec fn iter_spec(&self) -> u64 {
        self.iteration
    }

    /// The symbol sequence of this generation.
    pub closed spec fn state_spec(&self) -> Seq<u32> {
        self.state@
    }

    /// The rules table behind the shared handle.
    pub closed spec fn rules_spec(&self) -> HashMapRules {
        *self.rules
    }

    /// An L-system is well formed when its rules table is.
    pub open spec fn wf(&self) -> bool {
        self.rules_spec().wf()
    }

    /// Create a new L-system with the given seed (its initial state)
    /// and production rules. Optionally, one can specify the current
    /// iteration of the L-system.
    pub fn new(seed: Vec<u32>, rules: RulesValue, iteration: Option<u64>) -> (r: LSystem)
        ensures
            r.state_spec() == seed@,
            r.rules_spec() == *rules,
            r.iter_spec() == (match iteration {
                Some(n) => n,
                None => 0u64,
            }),
    {
        LSystem {
            rules,
            iteration: match iteration {
                Some(n) => n,
                None => 0,
            },
            state: seed,
        }
    }

    /// Get the current iteration/generation.
    pub fn iteration(&self) -> (r: u64)
        ensures
            r == self.iter_spec(),
    {
        self.iteration
    }

    /// Get a view into the current state.
    pub fn state(&self) -> (r: &Vec<u32>)
        ensures
            r@ == self.state_spec(),
    {
        &self.state
    }

    /// Get the production rules.
    pub fn rules(&self) -> (r: &RulesValue)
        ensures
            **r == self.rules_spec(),
    {
        &self.rules
    }

    /// Easily create a new, char-based L-system.
    pub fn new_with_char(seed: &str, rules: RulesValue) -> (r: LSystem)
        ensures
            r.state_spec() == seed@.map_values(|c: char| c as u32),
            r.rules_spec() == *rules,
            r.iter_spec() == 0,
    {
        LSystem::new(crate::rules::symbols_of_str(seed), rules, None)
    }
}

} // verus!
