//! The rewrite engine: the mathematical model of one rewrite step, and the
//! simple single-threaded processor.

use vstd::prelude::*;
use std::sync::Arc;

use crate::errors::RewriteError;
use crate::state::{LSystem, RulesValue};

verus! {

/// What one symbol rewrites to: its production if it has one, otherwise
/// itself (the identity default for unmapped symbols).
pub open spec fn production_of(prods: Map<u32, Seq<u32>>, s: u32) -> Seq<u32> {
    if prods.contains_key(s) {
        prods[s]
    } else {
        seq![s]
    }
}

/// One rewrite step over a whole symbol sequence: every symbol is replaced
/// by what it rewrites to, in order.
pub open spec fn rewrite_seq(prods: Map<u32, Seq<u32>>, state: Seq<u32>) -> Seq<u32>
    decreases state.len(),
{
    if state.len() == 0 {
        Seq::empty()
    } else {
        production_of(prods, state[0]) + rewrite_seq(prods, state.skip(1))
    }
}

/// The state after `n` rewrite steps from `s`.
pub open spec fn rewrite_n(prods: Map<u32, Seq<u32>>, s: Seq<u32>, n: nat) -> Seq<u32>
    decreases n,
{
    if n == 0 {
        s
    } else {
        rewrite_seq(prods, rewrite_n(prods, s, (n - 1) as nat))
    }
}

/// Rewriting a sequence extended by one symbol appends that symbol's
/// production to the rewrite of the prefix.
pub proof fn lemma_rewrite_push(prods: Map<u32, Seq<u32>>, s: Seq<u32>, x: u32)
    ensures
        rewrite_seq(prods, s.push(x)) == rewrite_seq(prods, s) + production_of(prods, x),
    decreases s.len(),
{
    if s.len() == 0 {
        assert(s.push(x)[0] == x);
        assert(s.push(x).skip(1) =~= Seq::<u32>::empty());
        assert(rewrite_seq(prods, s.push(x)) == production_of(prods, x) + rewrite_seq(
            prods,
            Seq::<u32>::empty(),
        ));
        assert(production_of(prods, x) + Seq::<u32>::empty() =~= production_of(prods, x));
        assert(rewrite_seq(prods, s) + production_of(prods, x) =~= production_of(prods, x));
    } else {
        assert(s.push(x).skip(1) =~= s.skip(1).push(x));
        lemma_rewrite_push(prods, s.skip(1), x);
        assert(rewrite_seq(prods, s.push(x)) =~= rewrite_seq(prods, s) + production_of(
            prods,
            x,
        )) by {
            assert(s.push(x)[0] == s[0]);
            assert(rewrite_seq(prods, s.push(x)) == production_of(prods, s[0]) + (rewrite_seq(
                prods,
                s.skip(1),
            ) + production_of(prods, x)));
        }
    }
}

/// Rewriting distributes over concatenation: the rewrite of `a + b` is the
/// rewrite of `a` followed by the rewrite of `b`.
pub proof fn lemma_rewrite_concat(prods: Map<u32, Seq<u32>>, a: Seq<u32>, b: Seq<u32>)
    ensures
        rewrite_seq(prods, a + b) == rewrite_seq(prods, a) + rewrite_seq(prods, b),
    decreases a.len(),
{
    if a.len() == 0 {
        assert(a + b =~= b);
        assert(rewrite_seq(prods, a) + rewrite_seq(prods, b) =~= rewrite_seq(prods, b));
    } else {
        assert((a + b).skip(1) =~= a.skip(1) + b);
        lemma_rewrite_concat(prods, a.skip(1), b);
        assert((a + b)[0] == a[0]);
        assert(rewrite_seq(prods, a + b) =~= rewrite_seq(prods, a) + rewrite_seq(prods, b)) by {
            assert(rewrite_seq(prods, a + b) == production_of(prods, a[0]) + (rewrite_seq(
                prods,
                a.skip(1),
            ) + rewrite_seq(prods, b)));
        }
    }
}

/// When every production's length is bounded by `k` (and unmapped symbols
/// expand to themselves, length 1 <= k), one rewrite step grows a sequence
/// by a factor of at most `k`.
pub proof fn lemma_rewrite_len_bound(prods: Map<u32, Seq<u32>>, s: Seq<u32>, k: nat)
    requires
        k >= 1,
        forall|y: u32| #[trigger] prods.contains_key(y) ==> prods[y].len() <= k,
    ensures
        rewrite_seq(prods, s).len() <= s.len() * k,
    decreases s.len(),
{
    if s.len() == 0 {
    } else {
        lemma_rewrite_len_bound(prods, s.skip(1), k);
        assert(production_of(prods, s[0]).len() <= k);
        assert((s.len() - 1) * k + k == s.len() * k) by (nonlinear_arith);
    }
}

/// Whether a slice rewrite on `chunk` succeeded with the right result or
/// failed for the right reason: success is owed exactly when the allocation
/// estimate `chunk.len() * biggest_expansion` fits in `usize`.
pub open spec fn slice_rewrite_ok(
    prods: Map<u32, Seq<u32>>,
    be: nat,
    chunk: Seq<u32>,
    r: Result<Vec<u32>, RewriteError>,
) -> bool {
    match r {
        Ok(v) => chunk.len() * be <= usize::MAX as nat && v@ == rewrite_seq(prods, chunk)
            && v@.len() <= chunk.len() * be,
        Err(e) => chunk.len() * be > usize::MAX as nat && e == RewriteError::Overflow,
    }
}

/// Release a populated buffer's excess capacity before handing it out.
/// Relies on `Vec::shrink_to_fit`, which only drops spare capacity and
/// leaves the contents unchanged.
#[verifier::external_body]
pub(crate) fn shrink_buffer<T>(v: &mut Vec<T>)
    ensures
        final(v)@ == old(v)@,
{
    v.shrink_to_fit();
}

/// Simple, linear L-system processor.
/// NB: can rapidly freeze its container thread on large states.
pub struct SimpleProcessor;

impl SimpleProcessor {
    /// When a rewrite step on `l` is owed success: exactly when the
    /// allocation estimate `len * biggest_expansion` fits in `usize`.
    pub open spec fn iterate_succeeds(&self, l: LSystem) -> bool {
        l.state_spec().len() * (l.rules_spec().be() as nat) <= usize::MAX as nat
    }

    /// Rewrite a sequence of symbols into its next generation according to
    /// the given production rules.
    ///
    /// The output buffer is pre-sized to `state.len() * biggest_expansion`,
    /// a safe upper bound on the result length; if that product cannot be
    /// represented in `usize` the call fails with an overflow error instead
    /// of wrapping.
    pub fn iterate_slice(state: &Vec<u32>, rules: &RulesValue) -> (r: Result<
        Vec<u32>,
        RewriteError,
    >)
        requires
            (**rules).wf(),
        ensures
            slice_rewrite_ok((**rules).prods(), (**rules).be() as nat, state@, r),
    {
        let size_factor: usize = rules.biggest_expansion();
        let result_size: usize = match state.len().checked_mul(size_factor) {
            Some(v) => v,
            None => {
                return Err(RewriteError::Overflow);
            },
        };
        let mut result: Vec<u32> = Vec::with_capacity(result_size);

        let n: usize = state.len();
        let mut i: usize = 0;
        while i < n
            invariant
                i <= n,
                n == state@.len(),
                (**rules).wf(),
                result@ == rewrite_seq((**rules).prods(), state@.take(i as int)),
            decreases n - i,
        {
            let ghost prev = result@;
            match rules.production(state[i]) {
                Some(symbols) => {
                    result.extend_from_slice(symbols.as_slice());
                    proof {
                        assert(result@ =~= prev + (**rules).prods()[state@[i as int]]);
                    }
                },
                None => {
                    result.push(state[i]);
                    proof {
                        assert(result@ =~= prev + seq![state@[i as int]]);
                    }
                },
            }
            proof {
                lemma_rewrite_push((**rules).prods(), state@.take(i as int), state@[i as int]);
                assert(state@.take(i + 1 as int) =~= state@.take(i as int).push(state@[i as int]));
            }
            i = i + 1;
        }
        shrink_buffer(&mut result);
        proof {
            assert(state@.take(n as int) =~= state@);
            lemma_rewrite_len_bound((**rules).prods(), state@, (**rules).be() as nat);
        }
        Ok(result)
    }

    /// Try to rewrite the given L-system into its next generation: same
    /// rules, one more iteration, state rewritten symbol by symbol.
    pub fn iterate(&mut self, lsystem: &LSystem) -> (r: Result<LSystem, RewriteError>)
        requires
            lsystem.wf(),
            old(self).iterate_succeeds(*lsystem) ==> lsystem.iter_spec() < u64::MAX,
        ensures
            match r {
                Ok(l2) => {
                    &&& lsystem.state_spec().len() * (lsystem.rules_spec().be() as nat)
                        <= usize::MAX as nat
                    &&& l2.state_spec() == rewrite_seq(
                        lsystem.rules_spec().prods(),
                        lsystem.state_spec(),
                    )
                    &&& l2.iter_spec() == lsystem.iter_spec() + 1
                    &&& l2.rules_spec() == lsystem.rules_spec()
                    &&& l2.wf()
                },
                Err(e) => {
                    &&& lsystem.state_spec().len() * (lsystem.rules_spec().be() as nat)
                        > usize::MAX as nat
                    &&& e == RewriteError::Overflow
                },
            },
    {
        let rules: RulesValue = Arc::clone(lsystem.rules());
        let new_state = match SimpleProcessor::iterate_slice(lsystem.state(), &rules) {
            Ok(v) => v,
            Err(e) => {
                return Err(e);
            },
        };
        Ok(LSystem::new(new_state, rules, Some(lsystem.iteration() + 1)))
    }
}

} // verus!
