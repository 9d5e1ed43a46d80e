//! Translation of an L-system state into turtle drawing commands.

use vstd::prelude::*;

use crate::errors::RewriteError;
use crate::state::LSystem;

verus! {

/// A drawing primitive for a turtle-style rendering of an L-system state.
/// Distances and angles are integer amounts (pixels and degrees by default).
#[derive(Clone, Copy, Debug, PartialEq, Eq, Structural)]
pub enum TurtleCommand {
    /// Advance the turtle by the given amount (forward if positive,
    /// backward otherwise).
    AdvanceBy(i32),
    /// Rotate the turtle by the given angle.
    RotateBy(i32),
    /// Push (save) the current turtle state onto the stack.
    PushState,
    /// Pop (restore) the last saved turtle state from the stack.
    PopState,
    /// Do-nothing command; suppressed from interpreter output.
    Nop,
}

/// What one symbol contributes to the interpretation: its configured
/// command, except that an unmapped symbol and the do-nothing command are
/// suppressed entirely to bound the output size.
pub open spec fn command_of(tags: Map<u32, TurtleCommand>, s: u32) -> Seq<TurtleCommand> {
    if tags.contains_key(s) && tags[s] != TurtleCommand::Nop {
        seq![tags[s]]
    } else {
        Seq::empty()
    }
}

/// The interpretation of a whole symbol sequence: each symbol's command,
/// in sequence order, with suppressed symbols contributing nothing.
pub open spec fn interpret_seq(tags: Map<u32, TurtleCommand>, s: Seq<u32>) -> Seq<TurtleCommand>
    decreases s.len(),
{
    if s.len() == 0 {
        Seq::empty()
    } else {
        command_of(tags, s[0]) + interpret_seq(tags, s.skip(1))
    }
}

/// Interpreting a sequence extended by one symbol appends that symbol's
/// contribution.
pub proof fn lemma_interpret_push(tags: Map<u32, TurtleCommand>, s: Seq<u32>, x: u32)
    ensures
        interpret_seq(tags, s.push(x)) == interpret_seq(tags, s) + command_of(tags, x),
    decreases s.len(),
{
    if s.len() == 0 {
        assert(s.push(x)[0] == x);
        assert(s.push(x).skip(1) =~= Seq::<u32>::empty());
        assert(interpret_seq(tags, s.push(x)) == command_of(tags, x) + interpret_seq(
            tags,
            Seq::<u32>::empty(),
        ));
        assert(command_of(tags, x) + Seq::<TurtleCommand>::empty() =~= command_of(tags, x));
        assert(interpret_seq(tags, s) + command_of(tags, x) =~= command_of(tags, x));
    } else {
        assert(s.push(x).skip(1) =~= s.skip(1).push(x));
        lemma_interpret_push(tags, s.skip(1), x);
        assert(s.push(x)[0] == s[0]);
        assert(interpret_seq(tags, s.push(x)) =~= interpret_seq(tags, s) + command_of(
            tags,
            x,
        )) by {
            assert(interpret_seq(tags, s.push(x)) == command_of(tags, s[0]) + (interpret_seq(
                tags,
                s.skip(1),
            ) + command_of(tags, x)));
        }
    }
}

/// Simple, linear L-system interpreter.
/// NB: can rapidly freeze its container thread on large states.
pub struct SimpleInterpreter;

impl SimpleInterpreter {
    /// Translate the state of an L-system into the sequence of drawing
    /// commands its symbols are tagged with, in state order; untagged
    /// symbols and the do-nothing command are suppressed.
    pub fn interpret(&mut self, lsystem: &LSystem) -> (r: Result<Vec<TurtleCommand>, RewriteError>)
        ensures
            match r {
                Ok(v) => v@ == interpret_seq(lsystem.rules_spec().tags(), lsystem.state_spec()),
                Err(_) => false,
            },
    {
        let rules = lsystem.rules();
        let state = lsystem.state();
        let n: usize = state.len();
        let mut commands: Vec<TurtleCommand> = Vec::with_capacity(n);

        let mut i: usize = 0;
        while i < n
            invariant
                i <= n,
                n == state@.len(),
                state@ == lsystem.state_spec(),
                (**rules).tags() == lsystem.rules_spec().tags(),
                commands@ == interpret_seq(
                    lsystem.rules_spec().tags(),
                    state@.take(i as int),
                ),
            decreases n - i,
        {
            let ghost prev = commands@;
            match rules.interpretation(state[i]) {
                Some(command) => match command {
                    TurtleCommand::Nop => {
                        proof {
                            assert(prev + command_of(lsystem.rules_spec().tags(), state@[i as int])
                                =~= prev);
                        }
                    },
                    _ => {
                        commands.push(*command);
                        proof {
                            assert(commands@ =~= prev + command_of(
                                lsystem.rules_spec().tags(),
                                state@[i as int],
                            ));
                        }
                    },
                },
                None => {
                    proof {
                        assert(prev + command_of(lsystem.rules_spec().tags(), state@[i as int])
                            =~= prev);
                    }
                },
            }
            proof {
                lemma_interpret_push(
                    lsystem.rules_spec().tags(),
                    state@.take(i as int),
                    state@[i as int],
                );
                assert(state@.take(i + 1 as int) =~= state@.take(i as int).push(state@[i as int]));
            }
            i = i + 1;
        }
        crate::process::shrink_buffer(&mut commands);
        proof {
            assert(state@.take(n as int) =~= state@);
        }
        Ok(commands)
    }
}

} // verus!
