//! A demonstration driver: it configures a turtle-tagged rule set, loads a
//! worker with it and issues the standard command script, collecting the
//! reply events in order.
//!
//! The configured rule set grows slowly enough that every size computation
//! of the sixteen rewrite steps provably fits in `usize`, so the script's
//! replies are pinned exactly: the symbols `A` and `B` each rewrite to
//! seven symbols of which three are again `A` or `B`, and every other
//! symbol rewrites to one symbol that is neither; hence the `A`/`B` count
//! triples per step and bounds the whole growth.

use vstd::prelude::*;

use crate::chunks::{all_chunks_fit, chunks_of, lemma_chunk_len_le, ChunksProcessor};
use crate::interpret::{SimpleInterpreter, TurtleCommand};
use crate::process::{rewrite_seq, SimpleProcessor};
use crate::rules::{symbols_of_str, HashMapRules};
use crate::view::{MessageFromViewer, MessageToViewer, Processor, Worker};

verus! {

/// Whether a symbol is one of the two growing symbols of the configured
/// rule set.
pub open spec fn is_growing(x: u32) -> bool {
    x == 'A' as u32 || x == 'B' as u32
}

/// How many growing symbols a sequence holds.
pub open spec fn growing_count(s: Seq<u32>) -> nat
    decreases s.len(),
{
    if s.len() == 0 {
        0
    } else {
        (if is_growing(s[0]) {
            1nat
        } else {
            0nat
        }) + growing_count(s.skip(1))
    }
}

/// The growing-symbol count distributes over concatenation.
proof fn lemma_growing_count_concat(a: Seq<u32>, b: Seq<u32>)
    ensures
        growing_count(a + b) == growing_count(a) + growing_count(b),
    decreases a.len(),
{
    if a.len() == 0 {
        assert(a + b =~= b);
    } else {
        assert((a + b).skip(1) =~= a.skip(1) + b);
        lemma_growing_count_concat(a.skip(1), b);
        assert((a + b)[0] == a[0]);
    }
}

/// The shape of the rule set `run` configures: only `A`, `B`, `+` and `-`
/// are mapped; the two growing symbols produce seven symbols of which
/// three grow; the two others produce one non-growing symbol.
pub open spec fn run_rules_shape(prods: Map<u32, Seq<u32>>) -> bool {
    &&& forall|x: u32| #[trigger]
        prods.contains_key(x) ==> (x == 'A' as u32 || x == 'B' as u32 || x == '+' as u32 || x
            == '-' as u32)
    &&& prods.contains_key('A' as u32)
    &&& prods['A' as u32].len() == 7
    &&& growing_count(prods['A' as u32]) == 3
    &&& prods.contains_key('B' as u32)
    &&& prods['B' as u32].len() == 7
    &&& growing_count(prods['B' as u32]) == 3
    &&& prods.contains_key('+' as u32)
    &&& prods['+' as u32].len() == 1
    &&& growing_count(prods['+' as u32]) == 0
    &&& prods.contains_key('-' as u32)
    &&& prods['-' as u32].len() == 1
    &&& growing_count(prods['-' as u32]) == 0
}

/// One rewrite step under rules of that shape adds six symbols per growing
/// symbol and triples the growing-symbol count.
proof fn lemma_run_rules_growth(prods: Map<u32, Seq<u32>>, s: Seq<u32>)
    requires
        run_rules_shape(prods),
    ensures
        rewrite_seq(prods, s).len() == s.len() + 6 * growing_count(s),
        growing_count(rewrite_seq(prods, s)) == 3 * growing_count(s),
    decreases s.len(),
{
    if s.len() == 0 {
    } else {
        lemma_run_rules_growth(prods, s.skip(1));
        let head = crate::process::production_of(prods, s[0]);
        lemma_growing_count_concat(head, rewrite_seq(prods, s.skip(1)));
        if !prods.contains_key(s[0]) {
            assert(head == seq![s[0]]);
            assert(head[0] == s[0]);
            assert(head.skip(1) =~= Seq::<u32>::empty());
            assert(growing_count(Seq::<u32>::empty()) == 0);
            assert(growing_count(head) == (if is_growing(s[0]) {
                1nat
            } else {
                0nat
            }));
            assert(!is_growing(s[0]));
        } else {
            if is_growing(s[0]) {
                assert(head.len() == 7 && growing_count(head) == 3);
            } else {
                assert(head.len() == 1 && growing_count(head) == 0);
            }
        }
    }
}

/// Powers of three, the growth rate of the configured rule set.
pub open spec fn pow3(n: nat) -> nat
    decreases n,
{
    if n == 0 {
        1
    } else {
        3 * pow3((n - 1) as nat)
    }
}

/// Powers of three are positive and monotone.
proof fn lemma_pow3_le(a: nat, b: nat)
    requires
        a <= b,
    ensures
        pow3(a) <= pow3(b),
        pow3(a) >= 1,
    decreases b,
{
    if a < b {
        lemma_pow3_le(a, (b - 1) as nat);
    } else if b > 0 {
        lemma_pow3_le((a - 1) as nat, (b - 1) as nat);
    }
}

/// The application for viewing L-systems.
pub struct Application;

impl Application {
    /// Issue one `Iterate` before anything is loaded (answered by an error
    /// event), load an L-system, iterate it sixteen times and terminate,
    /// returning the nineteen reply events in command order: one reply per
    /// command, none skipped and none reordered, the n-th iterate answered
    /// by `IterationFinished(n)`.
    pub fn run() -> (replies: Vec<MessageToViewer>)
        ensures
            replies@.len() == 19,
            replies@[0] is Error,
            replies@[1] == MessageToViewer::LoadingFinished,
            forall|t: int|
                2 <= t < 18 ==> #[trigger] replies@[t] == MessageToViewer::IterationFinished(
                    (t - 1) as u64,
                ),
            replies@[18] == MessageToViewer::Terminated,
    {
        // L-system definition
        let mut lsystem_rules = HashMapRules::new();
        lsystem_rules.set_str('A', "+B-A-B+", TurtleCommand::AdvanceBy(10));
        lsystem_rules.set_str('B', "\u{2212}A+B+A\u{2212}", TurtleCommand::AdvanceBy(15));
        lsystem_rules.set_str('+', "+", TurtleCommand::RotateBy(60));
        lsystem_rules.set_str('-', "-", TurtleCommand::RotateBy(-60));
        proof {
            lemma_run_rules_built(lsystem_rules.prods());
            assert(lsystem_rules.be() == 7);
        }

        let processor = match ChunksProcessor::new(4, 100_000) {
            Ok(c) => Processor::Chunks(c),
            Err(_) => {
                proof {
                    assert(false);
                }
                Processor::Simple(SimpleProcessor)
            },
        };
        let mut worker = Worker::new(processor, SimpleInterpreter);
        let mut replies: Vec<MessageToViewer> = Vec::new();

        // An Iterate before any load is answered by an error event.
        let (r0, _) = worker.step(MessageFromViewer::Iterate);
        replies.push(r0);

        let seed: Vec<u32> = symbols_of_str("A");
        proof {
            reveal_strlit("A");
            assert(seed@ =~= seq!['A' as u32]);
            assert(seq!['A' as u32][0] == 'A' as u32);
            assert(seq!['A' as u32].skip(1) =~= Seq::<u32>::empty());
            assert(growing_count(Seq::<u32>::empty()) == 0);
            assert(growing_count(seed@) == 1);
        }
        let (r1, _) = worker.step(MessageFromViewer::LoadLSystem(seed, lsystem_rules));
        replies.push(r1);

        let mut i: usize = 0;
        while i < 16
            invariant
                i <= 16,
                replies@.len() == i + 2,
                worker.wf(),
                worker.proc_spec() matches Processor::Chunks(c) && c.chunk_size_spec() == 100_000,
                match worker.lsys_spec() {
                    Some(l) => {
                        &&& l.iter_spec() == i as u64
                        &&& run_rules_shape(l.rules_spec().prods())
                        &&& l.rules_spec().be() == 7
                        &&& l.state_spec().len() >= 1
                        &&& l.state_spec().len() <= 3 * pow3(i as nat)
                        &&& growing_count(l.state_spec()) <= pow3(i as nat)
                    },
                    None => false,
                },
                replies@[0] is Error,
                replies@[1] == MessageToViewer::LoadingFinished,
                forall|t: int|
                    2 <= t < i + 2 ==> #[trigger] replies@[t] == MessageToViewer::IterationFinished(
                        (t - 1) as u64,
                    ),
            decreases 16 - i,
        {
            proof {
                lemma_step_succeeds(&worker, i as nat);
            }
            let (r, _) = worker.step(MessageFromViewer::Iterate);
            replies.push(r);
            proof {
                match worker.lsys_spec() {
                    Some(l2) => {
                        lemma_pow3_le(0, i as nat);
                        assert(l2.state_spec().len() <= 3 * pow3((i + 1) as nat));
                        assert(growing_count(l2.state_spec()) <= pow3((i + 1) as nat));
                    },
                    None => {
                        assert(false);
                    },
                }
            }
            i = i + 1;
        }

        let (rt, _) = worker.step(MessageFromViewer::Terminate);
        replies.push(rt);
        replies
    }
}

/// The rule table `run` builds has the shape the growth argument needs.
proof fn lemma_run_rules_built(prods: Map<u32, Seq<u32>>)
    requires
        prods == Map::<u32, Seq<u32>>::empty().insert(
            'A' as u32,
            "+B-A-B+"@.map_values(|c: char| c as u32),
        ).insert('B' as u32, "\u{2212}A+B+A\u{2212}"@.map_values(|c: char| c as u32)).insert(
            '+' as u32,
            "+"@.map_values(|c: char| c as u32),
        ).insert('-' as u32, "-"@.map_values(|c: char| c as u32)),
    ensures
        run_rules_shape(prods),
{
    reveal_strlit("+B-A-B+");
    reveal_strlit("\u{2212}A+B+A\u{2212}");
    reveal_strlit("+");
    reveal_strlit("-");
    let pa = "+B-A-B+"@.map_values(|c: char| c as u32);
    let pb = "\u{2212}A+B+A\u{2212}"@.map_values(|c: char| c as u32);
    let pp = "+"@.map_values(|c: char| c as u32);
    let pm = "-"@.map_values(|c: char| c as u32);
    assert(pa =~= seq![
        '+' as u32,
        'B' as u32,
        '-' as u32,
        'A' as u32,
        '-' as u32,
        'B' as u32,
        '+' as u32,
    ]);
    assert(pb =~= seq![
        '\u{2212}' as u32,
        'A' as u32,
        '+' as u32,
        'B' as u32,
        '+' as u32,
        'A' as u32,
        '\u{2212}' as u32,
    ]);
    assert(pp =~= seq!['+' as u32]);
    assert(pm =~= seq!['-' as u32]);
    reveal_with_fuel(growing_count, 9);
    lemma_growing_eval(pa);
    lemma_growing_eval(pb);
    assert(growing_count(pp) == 0);
    assert(growing_count(pm) == 0);
    assert(prods['A' as u32] == pa);
    assert(prods['B' as u32] == pb);
    assert(prods['+' as u32] == pp);
    assert(prods['-' as u32] == pm);
}

/// Evaluate the growing-symbol count of a seven-symbol production with
/// growing symbols at positions 1, 3 and 5.
proof fn lemma_growing_eval(p: Seq<u32>)
    requires
        p.len() == 7,
        !is_growing(p[0]),
        is_growing(p[1]),
        !is_growing(p[2]),
        is_growing(p[3]),
        !is_growing(p[4]),
        is_growing(p[5]),
        !is_growing(p[6]),
    ensures
        growing_count(p) == 3,
{
    let s1 = p.skip(1);
    let s2 = p.skip(2);
    let s3 = p.skip(3);
    let s4 = p.skip(4);
    let s5 = p.skip(5);
    let s6 = p.skip(6);
    let s7 = p.skip(7);
    assert(s1.skip(1) =~= s2);
    assert(s2.skip(1) =~= s3);
    assert(s3.skip(1) =~= s4);
    assert(s4.skip(1) =~= s5);
    assert(s5.skip(1) =~= s6);
    assert(s6.skip(1) =~= s7);
    assert(s7.len() == 0);
    assert(s1[0] == p[1] && s2[0] == p[2] && s3[0] == p[3] && s4[0] == p[4] && s5[0] == p[5]
        && s6[0] == p[6]);
    assert(growing_count(s7) == 0);
    assert(growing_count(s6) == 0);
    assert(growing_count(s5) == 1);
    assert(growing_count(s4) == 1);
    assert(growing_count(s3) == 2);
    assert(growing_count(s2) == 2);
    assert(growing_count(s1) == 3);
    assert(growing_count(p) == 3);
}

/// Before each iterate of the script, the chunked rewrite is owed success:
/// every chunk estimate and the total length stay far below `usize::MAX`.
proof fn lemma_step_succeeds(worker: &Worker, i: nat)
    requires
        i < 16,
        worker.wf(),
        worker.proc_spec() matches Processor::Chunks(c) && c.chunk_size_spec() == 100_000,
        match worker.lsys_spec() {
            Some(l) => {
                &&& run_rules_shape(l.rules_spec().prods())
                &&& l.rules_spec().be() == 7
                &&& l.state_spec().len() >= 1
                &&& l.state_spec().len() <= 3 * pow3(i)
                &&& growing_count(l.state_spec()) <= pow3(i)
            },
            None => false,
        },
    ensures
        match worker.lsys_spec() {
            Some(l) => {
                &&& worker.proc_spec().iterate_succeeds(l)
                &&& rewrite_seq(l.rules_spec().prods(), l.state_spec()).len() <= 3 * pow3(i + 1)
                &&& growing_count(rewrite_seq(l.rules_spec().prods(), l.state_spec())) <= pow3(
                    i + 1,
                )
                &&& rewrite_seq(l.rules_spec().prods(), l.state_spec()).len() >= 1
            },
            None => false,
        },
{
    match worker.lsys_spec() {
        Some(l) => {
            let prods = l.rules_spec().prods();
            let s = l.state_spec();
            lemma_run_rules_growth(prods, s);
            // Each chunk's allocation estimate fits.
            lemma_chunk_len_le(s, 100_000);
            assert(usize::MAX >= 0xffff_ffffusize);
            assert forall|c: int| 0 <= c < chunks_of(s, 100_000).len() implies #[trigger] chunks_of(
                s,
                100_000,
            )[c].len() * 7 <= usize::MAX as nat by {
                assert(chunks_of(s, 100_000)[c].len() <= 100_000);
                assert(chunks_of(s, 100_000)[c].len() * 7 <= 700_000);
            }
            assert(all_chunks_fit(7, s, 100_000));
            // The total rewritten length fits: it is bounded by 3^(i+2),
            // and i + 2 <= 18 with 3^18 below the 32-bit limit.
            lemma_pow3_le(i + 2, 18);
            reveal_with_fuel(pow3, 19);
            assert(pow3(18) == 387420489);
            assert(rewrite_seq(prods, s).len() == s.len() + 6 * growing_count(s));
            assert(s.len() + 6 * growing_count(s) <= 3 * pow3(i) + 6 * pow3(i));
            assert(pow3(i + 2) == 3 * pow3(i + 1) && pow3(i + 1) == 3 * pow3(i));
            assert(rewrite_seq(prods, s).len() <= pow3(i + 2));
            assert(rewrite_seq(prods, s).len() <= usize::MAX as nat);
            assert(growing_count(rewrite_seq(prods, s)) == 3 * growing_count(s));
        },
        None => {
            assert(false);
        },
    }
}

} // verus!
