//! Production and interpretation rules of an L-system.
//!
//! A rule maps a symbol (a Unicode scalar value or a byte, stored as `u32`)
//! to the sequence that replaces it in the next generation, together with
//! the turtle command used when the state is interpreted for drawing.

use vstd::prelude::*;
use vstd::string::StrSliceExecFns;
use std::collections::HashMap;

use crate::interpret::TurtleCommand;

verus! {

broadcast use vstd::std_specs::hash::group_hash_axioms;

/// One symbol's rule: its production and its interpretation command.
struct SymbolRule {
    production: Vec<u32>,
    interpretation: TurtleCommand,
}

/// HashMap-based rules structure.
///
/// `biggest_expansion` tracks the largest production length seen over all
/// inserted rules (at least 1, the expansion of an unmapped symbol, which
/// rewrites to itself); it is maintained incrementally on every insert.
pub struct HashMapRules {
    rules: HashMap<u32, SymbolRule>,
    biggest_expansion: usize,
}

/// Byte-symbol (ASCII) flavour of `HashMapRules`.
pub type AsciiHashMapRules = HashMapRules;

impl HashMapRules {
    /// The production rules as a map from symbol to replacement sequence.
    pub closed spec fn prods(&self) -> Map<u32, Seq<u32>> {
        self.rules@.map_values(|r: SymbolRule| r.production@)
    }

    /// The interpretation rules as a map from symbol to turtle command.
    pub closed spec fn tags(&self) -> Map<u32, TurtleCommand> {
        self.rules@.map_values(|r: SymbolRule| r.interpretation)
    }

    /// The recorded worst-case expansion factor.
    pub closed spec fn be(&self) -> usize {
        self.biggest_expansion
    }

    /// Well-formedness: the recorded expansion factor bounds every
    /// production's length and is never below 1.
    pub open spec fn wf(&self) -> bool {
        &&& self.be() >= 1
        &&& forall|s: u32| #[trigger]
            self.prods().contains_key(s) ==> self.prods()[s].len() <= self.be()
    }

    /// Create an empty rules table.
    pub fn new() -> (r: HashMapRules)
        ensures
            r.wf(),
            r.prods() == Map::<u32, Seq<u32>>::empty(),
            r.tags() == Map::<u32, TurtleCommand>::empty(),
            r.be() == 1,
    {
        let r = HashMapRules { rules: HashMap::new(), biggest_expansion: 1 };
        proof {
            assert(r.prods() =~= Map::<u32, Seq<u32>>::empty());
            assert(r.tags() =~= Map::<u32, TurtleCommand>::empty());
        }
        r
    }

    /// Add a new symbol rule or modify an existing one.
    /// Return true if an existing rule was modified, false otherwise.
    /// The recorded expansion factor grows to the production's length when
    /// that is larger, and never decreases.
    pub fn set(&mut self, symbol: u32, production: Vec<u32>, interpretation: TurtleCommand) -> (modified: bool)
        requires
            old(self).wf(),
        ensures
            final(self).wf(),
            final(self).prods() == old(self).prods().insert(symbol, production@),
            final(self).tags() == old(self).tags().insert(symbol, interpretation),
            final(self).be() == (if production@.len() > old(self).be() {
                production@.len() as usize
            } else {
                old(self).be()
            }),
            final(self).be() >= old(self).be(),
            modified == old(self).prods().contains_key(symbol),
    {
        let production_len: usize = production.len();
        let prev = self.rules.insert(symbol, SymbolRule { production, interpretation });
        let modified = match prev {
            Some(_) => true,
            None => false,
        };
        if production_len > self.biggest_expansion {
            self.biggest_expansion = production_len;
        }
        proof {
            assert(self.prods() =~= old(self).prods().insert(symbol, production@));
            assert(self.tags() =~= old(self).tags().insert(symbol, interpretation));
            assert forall|s: u32| #[trigger] self.prods().contains_key(s)
                implies self.prods()[s].len() <= self.be() by {
                if s != symbol {
                    assert(old(self).prods().contains_key(s));
                }
            }
        }
        modified
    }

    /// Get the production of the given symbol, or None if no matching rule
    /// is found.
    pub fn production(&self, symbol: u32) -> (r: Option<&Vec<u32>>)
        ensures
            match r {
                Some(v) => self.prods().contains_key(symbol) && v@ == self.prods()[symbol],
                None => !self.prods().contains_key(symbol),
            },
    {
        match self.rules.get(&symbol) {
            Some(sr) => Some(&sr.production),
            None => None,
        }
    }

    /// Get the interpreter command for the given symbol, or None if no
    /// matching command is found.
    pub fn interpretation(&self, symbol: u32) -> (r: Option<&TurtleCommand>)
        ensures
            match r {
                Some(c) => self.tags().contains_key(symbol) && *c == self.tags()[symbol],
                None => !self.tags().contains_key(symbol),
            },
    {
        match self.rules.get(&symbol) {
            Some(sr) => Some(&sr.interpretation),
            None => None,
        }
    }

    /// Get the expansion size of the worst-case production.
    pub fn biggest_expansion(&self) -> (r: usize)
        ensures
            r == self.be(),
    {
        self.biggest_expansion
    }

    /// Convenience method for calling `set` directly with an str slice.
    pub fn set_str(&mut self, symbol: char, production: &str, interpretation: TurtleCommand) -> (modified: bool)
        requires
            old(self).wf(),
        ensures
            final(self).wf(),
            final(self).prods() == old(self).prods().insert(
                symbol as u32,
                production@.map_values(|c: char| c as u32),
            ),
            final(self).tags() == old(self).tags().insert(symbol as u32, interpretation),
            final(self).be() == (if production@.len() > old(self).be() {
                production@.len() as usize
            } else {
                old(self).be()
            }),
            modified == old(self).prods().contains_key(symbol as u32),
    {
        self.set(symbol as u32, symbols_of_str(production), interpretation)
    }

    /// Convenience method for calling `set` directly with a byte slice.
    pub fn set_ascii(&mut self, symbol: u8, production: &[u8], interpretation: TurtleCommand) -> (modified: bool)
        requires
            old(self).wf(),
        ensures
            final(self).wf(),
            final(self).prods() == old(self).prods().insert(
                symbol as u32,
                production@.map_values(|b: u8| b as u32),
            ),
            final(self).tags() == old(self).tags().insert(symbol as u32, interpretation),
            final(self).be() == (if production@.len() > old(self).be() {
                production@.len() as usize
            } else {
                old(self).be()
            }),
            modified == old(self).prods().contains_key(symbol as u32),
    {
        self.set(symbol as u32, symbols_of_bytes(production), interpretation)
    }
}

/// The symbols of a string, character by character.
pub fn symbols_of_str(s: &str) -> (r: Vec<u32>)
    ensures
        r@ == s@.map_values(|c: char| c as u32),
{
    let n: usize = s.unicode_len();
    let mut r: Vec<u32> = Vec::with_capacity(n);
    let mut i: usize = 0;
    while i < n
        invariant
            i <= n,
            n == s@.len(),
            r@ == s@.take(i as int).map_values(|c: char| c as u32),
        decreases n - i,
    {
        let c = s.get_char(i);
        r.push(c as u32);
        i = i + 1;
        proof {
            assert(s@.take(i as int) =~= s@.take(i - 1).push(s@[i - 1]));
            assert(s@.take(i as int).map_values(|c: char| c as u32)
                =~= s@.take(i - 1).map_values(|c: char| c as u32).push(s@[i - 1] as u32));
        }
    }
    proof {
        assert(s@.take(n as int) =~= s@);
    }
    r
}

/// The symbols of a byte slice, byte by byte.
pub fn symbols_of_bytes(b: &[u8]) -> (r: Vec<u32>)
    ensures
        r@ == b@.map_values(|x: u8| x as u32),
{
    let n: usize = b.len();
    let mut r: Vec<u32> = Vec::with_capacity(n);
    let mut i: usize = 0;
    while i < n
        invariant
            i <= n,
            n == b@.len(),
            r@ == b@.take(i as int).map_values(|x: u8| x as u32),
        decreases n - i,
    {
        let x = b[i];
        r.push(x as u32);
        i = i + 1;
        proof {
            assert(b@.take(i as int) =~= b@.take(i - 1).push(b@[i - 1]));
            assert(b@.take(i as int).map_values(|x: u8| x as u32)
                =~= b@.take(i - 1).map_values(|x: u8| x as u32).push(b@[i - 1] as u32));
        }
    }
    proof {
        assert(b@.take(n as int) =~= b@);
    }
    r
}

} // verus!
