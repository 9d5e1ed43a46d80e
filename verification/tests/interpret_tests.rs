use rustlsystem::interpret::{SimpleInterpreter, TurtleCommand};
use rustlsystem::process::SimpleProcessor;
use rustlsystem::rules::HashMapRules;
use rustlsystem::state::{new_rules_value, LSystem};

#[test]
fn simple_interpreter() {
    let mut rules: HashMapRules = HashMapRules::new();
    rules.set_str('A', "+B-A-B+", TurtleCommand::AdvanceBy(10));
    rules.set_str('B', "−A+B+A−", TurtleCommand::AdvanceBy(15));
    rules.set_str('+', "+", TurtleCommand::RotateBy(60));
    rules.set_str('-', "-", TurtleCommand::RotateBy(-60));
    let mut lsystem = LSystem::new_with_char("A", new_rules_value(rules));

    let at_iteration = 1u64;
    let expected_commands = [
        TurtleCommand::RotateBy(60),
        TurtleCommand::AdvanceBy(15),
        TurtleCommand::RotateBy(-60),
        TurtleCommand::AdvanceBy(10),
        TurtleCommand::RotateBy(-60),
        TurtleCommand::AdvanceBy(15),
        TurtleCommand::RotateBy(60),
    ];

    for _ in 0..at_iteration {
        lsystem = SimpleProcessor.iterate(&lsystem).ok().unwrap();
    }
    assert_eq!(lsystem.iteration(), at_iteration);
    let commands = SimpleInterpreter.interpret(&lsystem).ok().unwrap();
    assert_eq!(commands.len(), expected_commands.len());
    for i in 0..commands.len() {
        assert_eq!(commands[i], expected_commands[i]);
    }
}

#[test]
fn interpretation_scenario() {
    // All-ASCII rule set: one rewrite of "A" interprets to exactly this
    // command sequence, with untagged symbols and do-nothing tags dropped.
    let mut rules: HashMapRules = HashMapRules::new();
    rules.set_str('A', "+B-A-B+", TurtleCommand::AdvanceBy(10));
    rules.set_str('B', "-A+B+A-", TurtleCommand::AdvanceBy(15));
    rules.set_str('+', "+", TurtleCommand::RotateBy(60));
    rules.set_str('-', "-", TurtleCommand::RotateBy(-60));
    let mut lsystem = LSystem::new_with_char("A", new_rules_value(rules));
    lsystem = SimpleProcessor.iterate(&lsystem).ok().unwrap();

    let commands = SimpleInterpreter.interpret(&lsystem).ok().unwrap();
    let expected = vec![
        TurtleCommand::RotateBy(60),
        TurtleCommand::AdvanceBy(15),
        TurtleCommand::RotateBy(-60),
        TurtleCommand::AdvanceBy(10),
        TurtleCommand::RotateBy(-60),
        TurtleCommand::AdvanceBy(15),
        TurtleCommand::RotateBy(60),
    ];
    assert_eq!(commands, expected);
}

#[test]
fn nop_commands_are_suppressed() {
    let mut rules: HashMapRules = HashMapRules::new();
    rules.set_str('A', "AB", TurtleCommand::Nop);
    rules.set_str('B', "A", TurtleCommand::AdvanceBy(5));
    let lsystem = LSystem::new_with_char("AAB", new_rules_value(rules));
    let commands = SimpleInterpreter.interpret(&lsystem).ok().unwrap();
    assert_eq!(commands, vec![TurtleCommand::AdvanceBy(5)]);
}
