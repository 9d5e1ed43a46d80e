use rustlsystem::chunks::ChunksProcessor;
use rustlsystem::errors::{ConfigError, RewriteError};
use rustlsystem::interpret::TurtleCommand;
use rustlsystem::process::SimpleProcessor;
use rustlsystem::rules::HashMapRules;
use rustlsystem::state::{new_rules_value, LSystem};

fn algae_rules() -> HashMapRules {
    let mut rules = HashMapRules::new();
    rules.set_str('A', "AB", TurtleCommand::Nop);
    rules.set_str('B', "A", TurtleCommand::Nop);
    rules
}

fn chars_of(s: &str) -> Vec<u32> {
    s.chars().map(|c| c as u32).collect()
}

#[test]
fn process_simple_processing() {
    let rules = algae_rules();
    let expected_states = [
        "A",
        "AB",
        "ABA",
        "ABAAB",
        "ABAABABA",
        "ABAABABAABAAB",
        "ABAABABAABAABABAABABA",
        "ABAABABAABAABABAABABAABAABABAABAAB",
    ];
    let mut lsystem = LSystem::new_with_char(expected_states[0], new_rules_value(rules));

    for n in 0..expected_states.len() {
        assert_eq!(lsystem.iteration(), n as u64);
        let expected = chars_of(expected_states[n]);
        assert_eq!(lsystem.state(), &expected);
        lsystem = SimpleProcessor.iterate(&lsystem).ok().unwrap();
    }
}

#[test]
fn mod_simple_processing() {
    let rules = algae_rules();
    let expected_states = [
        "A",
        "AB",
        "ABA",
        "ABAAB",
        "ABAABABA",
        "ABAABABAABAAB",
        "ABAABABAABAABABAABABA",
        "ABAABABAABAABABAABABAABAABABAABAAB",
    ];
    let mut lsystem = LSystem::new_with_char(expected_states[0], new_rules_value(rules));

    for n in 0..expected_states.len() {
        assert_eq!(lsystem.iteration(), n as u64);
        let expected = chars_of(expected_states[n]);
        assert_eq!(lsystem.state(), &expected);
        lsystem = SimpleProcessor::iterate_slice(lsystem.state(), lsystem.rules())
            .ok()
            .map(|new_state| {
                LSystem::new(
                    new_state,
                    std::sync::Arc::clone(lsystem.rules()),
                    Some(lsystem.iteration() + 1),
                )
            })
            .unwrap();
    }
}

#[test]
fn chunks_processing() {
    let rules = algae_rules();
    let expected_sizes = [
        1, 2, 3, 5, 8, 13, 21, 34, 55, 89, 144, 233, 377, 610, 987, 1597, 2584, 4181, 6765,
        10946, 17711, 28657, 46368,
    ];
    let mut lsystem = LSystem::new_with_char("A", new_rules_value(rules));
    let mut processor = ChunksProcessor::new(4, 10_000).ok().unwrap();

    for n in 0..expected_sizes.len() {
        assert_eq!(lsystem.iteration(), n as u64);
        assert_eq!(lsystem.state().len(), expected_sizes[n]);
        lsystem = processor.iterate(&lsystem).ok().unwrap();
    }
}

#[test]
fn length_growth_fibonacci() {
    let rules = algae_rules();
    let expected_lengths = [1usize, 2, 3, 5, 8, 13, 21, 34];
    let mut lsystem = LSystem::new_with_char("A", new_rules_value(rules));
    for n in 0..expected_lengths.len() {
        assert_eq!(lsystem.state().len(), expected_lengths[n]);
        lsystem = SimpleProcessor.iterate(&lsystem).ok().unwrap();
    }
}

#[test]
fn chunked_matches_sequential() {
    // Whatever the chunk size and task bound, the chunked processor's output
    // is identical to the simple processor's, generation after generation.
    for &(max_tasks, chunk_size) in [(1usize, 1usize), (2, 2), (4, 3), (3, 5), (8, 100)].iter() {
        let mut sequential = LSystem::new_with_char("A", new_rules_value(algae_rules()));
        let mut chunked = LSystem::new_with_char("A", new_rules_value(algae_rules()));
        let mut processor = ChunksProcessor::new(max_tasks, chunk_size).ok().unwrap();
        for _ in 0..12 {
            sequential = SimpleProcessor.iterate(&sequential).ok().unwrap();
            chunked = processor.iterate(&chunked).ok().unwrap();
            assert_eq!(sequential.state(), chunked.state());
            assert_eq!(sequential.iteration(), chunked.iteration());
        }
    }
}

#[test]
fn unmapped_symbols_rewrite_to_themselves() {
    // The identity convention: a symbol without a rule is preserved, not
    // dropped.
    let mut rules = HashMapRules::new();
    rules.set_str('A', "AB", TurtleCommand::Nop);
    let mut lsystem = LSystem::new_with_char("XAY", new_rules_value(rules));
    lsystem = SimpleProcessor.iterate(&lsystem).ok().unwrap();
    assert_eq!(lsystem.state(), &chars_of("XABY"));
}

#[test]
fn empty_production_shrinks_the_state() {
    let mut rules = HashMapRules::new();
    rules.set_str('A', "", TurtleCommand::Nop);
    let mut lsystem = LSystem::new_with_char("A", new_rules_value(rules));
    lsystem = SimpleProcessor.iterate(&lsystem).ok().unwrap();
    assert_eq!(lsystem.state().len(), 0);
    // A chunked rewrite of the now-empty state is rejected.
    let mut processor = ChunksProcessor::new(2, 3).ok().unwrap();
    assert!(matches!(processor.iterate(&lsystem), Err(RewriteError::EmptyState)));
}

#[test]
fn aggregated_error_carries_underlying_messages() {
    // One underlying failure description per failed chunk, in order,
    // after the header line.
    let e = RewriteError::AggregatedChunks(vec![0, 2]);
    let expected = "iteration error(s) in one or more chunks:\n\
                    usize overflow when computing the new state size\n\
                    usize overflow when computing the new state size";
    assert_eq!(e.describe(), expected);
    assert_eq!(
        RewriteError::Overflow.describe(),
        "usize overflow when computing the new state size"
    );
}

#[test]
fn chunks_config_errors() {
    assert!(matches!(ChunksProcessor::new(0, 10_000), Err(ConfigError::ZeroMaxTasks)));
    assert!(matches!(ChunksProcessor::new(4, 0), Err(ConfigError::ZeroChunkSize)));
    assert_eq!(
        ChunksProcessor::new(0, 10_000).err().unwrap().describe(),
        "invalid maximum tasks number (0)"
    );
    assert_eq!(ChunksProcessor::new(4, 0).err().unwrap().describe(), "invalid chunks size (0)");
}

#[test]
fn chunks_empty_state_error() {
    let rules = algae_rules();
    let lsystem = LSystem::new(Vec::new(), new_rules_value(rules), None);
    let mut processor = ChunksProcessor::new(4, 10_000).ok().unwrap();
    match processor.iterate(&lsystem) {
        Err(RewriteError::EmptyState) => {}
        _ => panic!("an empty state must be rejected"),
    }
    assert_eq!(RewriteError::EmptyState.describe(), "cannot iterate an empty state");
}
