//! The worker protocol: commands from a viewer, events back to it, and the
//! worker that owns a processor, an interpreter and the current L-system.
//!
//! Commands are consumed strictly one at a time, in the order received;
//! each command gets exactly one reply event, so the event stream is in
//! one-to-one FIFO correspondence with the command stream. The surrounding
//! thread-and-channel plumbing lives outside the library; the worker's
//! whole decision logic is `Worker::step`.

use vstd::prelude::*;
use std::sync::Arc;

use crate::chunks::{all_chunks_fit, chunks_of, unfit_count, ChunksProcessor};
use crate::errors::RewriteError;
use crate::interpret::{interpret_seq, SimpleInterpreter, TurtleCommand};
use crate::process::{rewrite_seq, SimpleProcessor};
use crate::rules::HashMapRules;
use crate::state::{LSystem, RulesValue};

verus! {

/// Common messages from the viewer application to the worker.
pub enum MessageFromViewer {
    /// Create a new L-system from the given seed and rules; replied to
    /// with `LoadingFinished`.
    LoadLSystem(Vec<u32>, HashMapRules),
    /// Re-derive the iteration-0 L-system from the remembered seed and
    /// rules; replied to with `ResettingFinised`.
    ResetLSystem,
    /// Rewrite the current L-system once; replied to with
    /// `IterationFinished` or an `Error` event.
    Iterate,
    /// Interpret the current L-system state; replied to with
    /// `InterpretationFinished` or an `Error` event.
    Interpret,
    /// Stop the worker; replied to with `Terminated`.
    Terminate,
}

/// Common messages from the worker back to the viewer application.
#[derive(Clone, Debug, PartialEq)]
pub enum MessageToViewer {
    /// A `LoadLSystem` command completed.
    LoadingFinished,
    /// A `ResetLSystem` command completed.
    ResettingFinised,
    /// The current L-system was successfully evolved to its n-th state.
    IterationFinished(u64),
    /// The current L-system state was interpreted into these commands.
    InterpretationFinished(Vec<TurtleCommand>),
    /// Confirm the worker termination; no further commands are accepted.
    Terminated,
    /// A command failed or was issued in an invalid state; carries the
    /// failure description.
    Error(String),
}

/// Whether two events are of the same kind, with no consideration of any
/// carried data.
pub open spec fn same_type_spec(a: &MessageToViewer, b: &MessageToViewer) -> bool {
    match (a, b) {
        (MessageToViewer::LoadingFinished, MessageToViewer::LoadingFinished) => true,
        (MessageToViewer::ResettingFinised, MessageToViewer::ResettingFinised) => true,
        (MessageToViewer::IterationFinished(_), MessageToViewer::IterationFinished(_)) => true,
        (
            MessageToViewer::InterpretationFinished(_),
            MessageToViewer::InterpretationFinished(_),
        ) => true,
        (MessageToViewer::Terminated, MessageToViewer::Terminated) => true,
        (MessageToViewer::Error(_), MessageToViewer::Error(_)) => true,
        _ => false,
    }
}

impl MessageToViewer {
    /// Return the kind of `MessageToViewer` expected as the reply to the
    /// given command, ignoring any possible errors. If the result carries
    /// meaningful data, it is loaded with dummy values.
    pub fn from_command(msg: &MessageFromViewer) -> (r: MessageToViewer)
        ensures
            match msg {
                MessageFromViewer::LoadLSystem(_, _) => r == MessageToViewer::LoadingFinished,
                MessageFromViewer::ResetLSystem => r == MessageToViewer::ResettingFinised,
                MessageFromViewer::Iterate => r == MessageToViewer::IterationFinished(0),
                MessageFromViewer::Interpret => r matches MessageToViewer::InterpretationFinished(
                    v,
                ) && v@ == Seq::<TurtleCommand>::empty(),
                MessageFromViewer::Terminate => r == MessageToViewer::Terminated,
            },
    {
        match msg {
            MessageFromViewer::LoadLSystem(_, _) => MessageToViewer::LoadingFinished,
            MessageFromViewer::ResetLSystem => MessageToViewer::ResettingFinised,
            MessageFromViewer::Iterate => MessageToViewer::IterationFinished(0),
            MessageFromViewer::Interpret => MessageToViewer::InterpretationFinished(Vec::new()),
            MessageFromViewer::Terminate => MessageToViewer::Terminated,
        }
    }

    /// Return true if the given argument is of the same `MessageToViewer`
    /// kind, with no consideration of any carried data.
    pub fn same_type(&self, other: &MessageToViewer) -> (r: bool)
        ensures
            r == same_type_spec(self, other),
    {
        match (self, other) {
            (MessageToViewer::LoadingFinished, MessageToViewer::LoadingFinished) => true,
            (MessageToViewer::ResettingFinised, MessageToViewer::ResettingFinised) => true,
            (MessageToViewer::IterationFinished(_), MessageToViewer::IterationFinished(_)) => true,
            (
                MessageToViewer::InterpretationFinished(_),
                MessageToViewer::InterpretationFinished(_),
            ) => true,
            (MessageToViewer::Terminated, MessageToViewer::Terminated) => true,
            (MessageToViewer::Error(_), MessageToViewer::Error(_)) => true,
            _ => false,
        }
    }
}

/// The reply sent for any state-dependent command while no L-system is
/// loaded.
pub open spec fn no_lsystem_message() -> Seq<char> {
    "no LSystem loaded"@
}

/// A processor choice for the worker: the simple engine or the chunked
/// one, as a tagged variant.
pub enum Processor {
    /// The single-threaded engine.
    Simple(SimpleProcessor),
    /// The chunk-splitting engine.
    Chunks(ChunksProcessor),
}

impl Processor {
    /// A processor is well formed when its configuration is.
    pub open spec fn wf(&self) -> bool {
        match self {
            Processor::Simple(_) => true,
            Processor::Chunks(c) => c.wf(),
        }
    }

    /// When a rewrite step on `l` is owed success: the simple engine fails
    /// only on allocation-estimate overflow; the chunked engine also
    /// rejects an empty state and checks its sizes chunk by chunk.
    pub open spec fn iterate_succeeds(&self, l: LSystem) -> bool {
        match self {
            Processor::Simple(p) => p.iterate_succeeds(l),
            Processor::Chunks(c) => c.iterate_succeeds(l),
        }
    }

    /// The description of the error an `iterate` on `l` fails with, where
    /// it is not owed success.
    pub open spec fn iterate_failure_message(&self, l: LSystem) -> Seq<char> {
        match self {
            Processor::Simple(_) => crate::errors::overflow_message(),
            Processor::Chunks(c) => {
                if l.state_spec().len() == 0 {
                    crate::errors::empty_state_message()
                } else if !all_chunks_fit(
                    l.rules_spec().be() as nat,
                    l.state_spec(),
                    c.chunk_size_spec() as nat,
                ) {
                    crate::errors::aggregated_message(
                        unfit_count(
                            l.rules_spec().be() as nat,
                            chunks_of(l.state_spec(), c.chunk_size_spec() as nat),
                        ),
                    )
                } else {
                    crate::errors::overflow_message()
                }
            },
        }
    }

    /// Try to rewrite the given L-system into its next generation with
    /// whichever engine this is.
    pub fn iterate(&mut self, lsystem: &LSystem) -> (r: Result<LSystem, RewriteError>)
        requires
            old(self).wf(),
            lsystem.wf(),
            old(self).iterate_succeeds(*lsystem) ==> lsystem.iter_spec() < u64::MAX,
        ensures
            *final(self) == *old(self),
            match r {
                Ok(l2) => {
                    &&& old(self).iterate_succeeds(*lsystem)
                    &&& l2.state_spec() == rewrite_seq(
                        lsystem.rules_spec().prods(),
                        lsystem.state_spec(),
                    )
                    &&& l2.iter_spec() == lsystem.iter_spec() + 1
                    &&& l2.rules_spec() == lsystem.rules_spec()
                    &&& l2.wf()
                },
                Err(e) => {
                    &&& !old(self).iterate_succeeds(*lsystem)
                    &&& e.message_spec() == old(self).iterate_failure_message(*lsystem)
                },
            },
    {
        match self {
            Processor::Simple(p) => p.iterate(lsystem),
            Processor::Chunks(c) => {
                let r = c.iterate(lsystem);
                proof {
                    if r is Err {
                        let e = r->Err_0;
                        if e is AggregatedChunks {
                            let idxs = e->AggregatedChunks_0;
                            let kk = c.chunk_size_spec() as nat;
                            let be = lsystem.rules_spec().be() as nat;
                            let s = lsystem.state_spec();
                            assert(idxs@.len() > 0);
                            let t = idxs@[0] as int;
                            assert(t < crate::chunks::chunks_of(s, kk).len()
                                && crate::chunks::chunks_of(s, kk)[t].len() * be
                                > usize::MAX as nat);
                            assert(!all_chunks_fit(be, s, kk));
                        }
                    }
                }
                r
            },
        }
    }
}

/// The worker owns one processor, one interpreter, the current L-system
/// (initially absent), and the seed and rules it was loaded with.
pub struct Worker {
    processor: Processor,
    interpreter: SimpleInterpreter,
    seed: Option<Vec<u32>>,
    rules: Option<RulesValue>,
    lsystem: Option<LSystem>,
}

impl Worker {
    /// The processor configuration.
    pub closed spec fn proc_spec(&self) -> Processor {
        self.processor
    }

    /// The remembered seed, if an L-system was loaded.
    pub closed spec fn seed_spec(&self) -> Option<Seq<u32>> {
        match self.seed {
            Some(v) => Some(v@),
            None => None,
        }
    }

    /// The remembered rules, if an L-system was loaded.
    pub closed spec fn rules_spec(&self) -> Option<HashMapRules> {
        match self.rules {
            Some(a) => Some(*a),
            None => None,
        }
    }

    /// The current L-system, if one is loaded.
    pub closed spec fn lsys_spec(&self) -> Option<LSystem> {
        self.lsystem
    }

    /// Whether an L-system is loaded.
    pub open spec fn loaded(&self) -> bool {
        self.lsys_spec() is Some
    }

    /// Well-formedness: the processor configuration is valid; the seed,
    /// rules and L-system are present together; the current L-system was
    /// built over the remembered rules.
    pub open spec fn wf(&self) -> bool {
        &&& self.proc_spec().wf()
        &&& (self.lsys_spec() is Some) == (self.seed_spec() is Some)
        &&& (self.lsys_spec() is Some) == (self.rules_spec() is Some)
        &&& match self.rules_spec() {
            Some(rt) => rt.wf(),
            None => true,
        }
        &&& match self.lsys_spec() {
            Some(l) => l.wf() && match self.rules_spec() {
                Some(rt) => l.rules_spec() == rt,
                None => false,
            },
            None => true,
        }
    }

    /// Create a worker around the given processor and interpreter, with no
    /// L-system loaded yet.
    pub fn new(processor: Processor, interpreter: SimpleInterpreter) -> (w: Worker)
        requires
            processor.wf(),
        ensures
            w.wf(),
            !w.loaded(),
            w.proc_spec() == processor,
    {
        Worker { processor, interpreter, seed: None, rules: None, lsystem: None }
    }

    /// Consume one command and produce its reply event, plus whether the
    /// worker stops afterwards. Commands are handled strictly one at a
    /// time: this is the entire decision logic of the worker loop.
    ///
    /// A failed `Iterate` leaves the current L-system unchanged; the
    /// worker never stops because of a processing error, only on
    /// `Terminate`.
    pub fn step(&mut self, msg: MessageFromViewer) -> (r: (MessageToViewer, bool))
        requires
            old(self).wf(),
            match msg {
                MessageFromViewer::LoadLSystem(_, rl) => rl.wf(),
                _ => true,
            },
        ensures
            final(self).wf(),
            final(self).proc_spec() == old(self).proc_spec(),
            match msg {
                MessageFromViewer::LoadLSystem(sd, rl) => {
                    &&& r.0 == MessageToViewer::LoadingFinished
                    &&& r.1 == false
                    &&& final(self).seed_spec() == Some(sd@)
                    &&& final(self).rules_spec() == Some(rl)
                    &&& match final(self).lsys_spec() {
                        Some(l) => l.state_spec() == sd@ && l.iter_spec() == 0 && l.rules_spec()
                            == rl,
                        None => false,
                    }
                },
                MessageFromViewer::ResetLSystem => {
                    if old(self).loaded() {
                        &&& r.0 == MessageToViewer::ResettingFinised
                        &&& r.1 == false
                        &&& final(self).seed_spec() == old(self).seed_spec()
                        &&& final(self).rules_spec() == old(self).rules_spec()
                        &&& match final(self).lsys_spec() {
                            Some(l) => Some(l.state_spec()) == old(self).seed_spec()
                                && l.iter_spec() == 0 && Some(l.rules_spec()) == old(
                                self,
                            ).rules_spec(),
                            None => false,
                        }
                    } else {
                        &&& r.0 matches MessageToViewer::Error(m) && m@ == no_lsystem_message()
                        &&& r.1 == false
                        &&& *final(self) == *old(self)
                    }
                },
                MessageFromViewer::Iterate => match old(self).lsys_spec() {
                    Some(l) => {
                        if l.iter_spec() == u64::MAX {
                            &&& r.0 matches MessageToViewer::Error(m) && m@
                                == "iteration counter at its maximum"@
                            &&& r.1 == false
                            &&& *final(self) == *old(self)
                        } else if old(self).proc_spec().iterate_succeeds(l) {
                            &&& r.0 == MessageToViewer::IterationFinished((l.iter_spec() + 1) as u64)
                            &&& r.1 == false
                            &&& final(self).seed_spec() == old(self).seed_spec()
                            &&& final(self).rules_spec() == old(self).rules_spec()
                            &&& match final(self).lsys_spec() {
                                Some(l2) => l2.iter_spec() == l.iter_spec() + 1 && l2.state_spec()
                                    == rewrite_seq(l.rules_spec().prods(), l.state_spec())
                                    && l2.rules_spec() == l.rules_spec(),
                                None => false,
                            }
                        } else {
                            &&& r.0 matches MessageToViewer::Error(m) && m@ == old(
                                self,
                            ).proc_spec().iterate_failure_message(l)
                            &&& r.1 == false
                            &&& *final(self) == *old(self)
                        }
                    },
                    None => {
                        &&& r.0 matches MessageToViewer::Error(m) && m@ == no_lsystem_message()
                        &&& r.1 == false
                        &&& *final(self) == *old(self)
                    },
                },
                MessageFromViewer::Interpret => match old(self).lsys_spec() {
                    Some(l) => {
                        &&& r.0 matches MessageToViewer::InterpretationFinished(v) && v@
                            == interpret_seq(l.rules_spec().tags(), l.state_spec())
                        &&& r.1 == false
                        &&& *final(self) == *old(self)
                    },
                    None => {
                        &&& r.0 matches MessageToViewer::Error(m) && m@ == no_lsystem_message()
                        &&& r.1 == false
                        &&& *final(self) == *old(self)
                    },
                },
                MessageFromViewer::Terminate => {
                    &&& r.0 == MessageToViewer::Terminated
                    &&& r.1 == true
                    &&& *final(self) == *old(self)
                },
            },
    {
        broadcast use vstd::string::to_string_from_display_ensures_for_str;

        match msg {
            MessageFromViewer::LoadLSystem(sd, rl) => {
                let rules_value: RulesValue = Arc::new(rl);
                let sd2 = sd.clone();
                proof {
                    assert(sd2@ =~= sd@);
                }
                let l = LSystem::new(sd2, Arc::clone(&rules_value), None);
                self.seed = Some(sd);
                self.rules = Some(rules_value);
                self.lsystem = Some(l);
                (MessageToViewer::LoadingFinished, false)
            },
            MessageFromViewer::ResetLSystem => {
                if self.lsystem.is_some() {
                    let sd2: Vec<u32>;
                    let rv2: RulesValue;
                    match (&self.seed, &self.rules) {
                        (Some(s_), Some(r_)) => {
                            sd2 = s_.clone();
                            rv2 = Arc::clone(r_);
                        },
                        _ => {
                            proof {
                                assert(false);
                            }
                            sd2 = Vec::new();
                            rv2 = Arc::new(HashMapRules::new());
                        },
                    }
                    proof {
                        match old(self).seed_spec() {
                            Some(s0) => {
                                assert(sd2@ =~= s0);
                            },
                            None => {},
                        }
                    }
                    self.lsystem = Some(LSystem::new(sd2, rv2, None));
                    (MessageToViewer::ResettingFinised, false)
                } else {
                    (MessageToViewer::Error("no LSystem loaded".to_string()), false)
                }
            },
            MessageFromViewer::Iterate => {
                if self.lsystem.is_none() {
                    return (MessageToViewer::Error("no LSystem loaded".to_string()), false);
                }
                let maxed = match &self.lsystem {
                    Some(l) => l.iteration() == u64::MAX,
                    None => false,
                };
                if maxed {
                    return (
                        MessageToViewer::Error("iteration counter at its maximum".to_string()),
                        false,
                    );
                }
                let res = match &self.lsystem {
                    Some(l) => self.processor.iterate(l),
                    None => {
                        proof {
                            assert(false);
                        }
                        Err(RewriteError::Overflow)
                    },
                };
                match res {
                    Ok(l2) => {
                        let it = l2.iteration();
                        self.lsystem = Some(l2);
                        (MessageToViewer::IterationFinished(it), false)
                    },
                    Err(e) => (MessageToViewer::Error(e.describe()), false),
                }
            },
            MessageFromViewer::Interpret => {
                if self.lsystem.is_none() {
                    return (MessageToViewer::Error("no LSystem loaded".to_string()), false);
                }
                let res = match &self.lsystem {
                    Some(l) => self.interpreter.interpret(l),
                    None => {
                        proof {
                            assert(false);
                        }
                        Err(RewriteError::Overflow)
                    },
                };
                match res {
                    Ok(v) => (MessageToViewer::InterpretationFinished(v), false),
                    Err(e) => (MessageToViewer::Error(e.describe()), false),
                }
            },
            MessageFromViewer::Terminate => (MessageToViewer::Terminated, true),
        }
    }
}

} // verus!
