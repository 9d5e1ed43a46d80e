use rustlsystem::interpret::TurtleCommand;
use rustlsystem::rules::{AsciiHashMapRules, HashMapRules};

#[test]
fn hashmap_rules_char() {
    let mut rules: HashMapRules = HashMapRules::new();
    rules.set_str('A', "+B−A−B+", TurtleCommand::AdvanceBy(10));
    rules.set_str('B', "−A+B+A−", TurtleCommand::AdvanceBy(10));
    rules.set_str('+', "+", TurtleCommand::RotateBy(60));
    rules.set_str('-', "-", TurtleCommand::RotateBy(-60));

    assert_eq!(rules.biggest_expansion(), 7);
    let expected_a: Vec<u32> = "+B−A−B+".chars().map(|c| c as u32).collect();
    let expected_b: Vec<u32> = "−A+B+A−".chars().map(|c| c as u32).collect();
    assert_eq!(rules.production('A' as u32), Some(&expected_a));
    assert_eq!(rules.production('B' as u32), Some(&expected_b));
    assert_eq!(rules.production('C' as u32), None);
}

#[test]
fn hashmap_rules_ascii() {
    let mut rules = AsciiHashMapRules::new();
    rules.set_ascii(b'A', b"AB", TurtleCommand::Nop);
    rules.set_ascii(b'B', b"A", TurtleCommand::Nop);

    assert_eq!(rules.biggest_expansion(), 2);
    let expected_a: Vec<u32> = b"AB".iter().map(|&b| b as u32).collect();
    let expected_b: Vec<u32> = b"A".iter().map(|&b| b as u32).collect();
    assert_eq!(rules.production(b'A' as u32), Some(&expected_a));
    assert_eq!(rules.production(b'B' as u32), Some(&expected_b));
    assert_eq!(rules.production(b'C' as u32), None);
}

#[test]
fn expansion_starts_at_one_and_never_decreases() {
    let mut rules: HashMapRules = HashMapRules::new();
    assert_eq!(rules.biggest_expansion(), 1);
    rules.set_str('A', "ABCD", TurtleCommand::Nop);
    assert_eq!(rules.biggest_expansion(), 4);
    // Updating a rule with a shorter production keeps the observed maximum.
    rules.set_str('A', "A", TurtleCommand::Nop);
    assert_eq!(rules.biggest_expansion(), 4);
    rules.set_str('B', "AB", TurtleCommand::Nop);
    assert_eq!(rules.biggest_expansion(), 4);
    rules.set_str('B', "ABCDEF", TurtleCommand::Nop);
    assert_eq!(rules.biggest_expansion(), 6);
}

#[test]
fn set_reports_modification() {
    let mut rules: HashMapRules = HashMapRules::new();
    assert!(!rules.set_str('A', "AB", TurtleCommand::Nop));
    assert!(rules.set_str('A', "BA", TurtleCommand::Nop));
    let expected: Vec<u32> = "BA".chars().map(|c| c as u32).collect();
    assert_eq!(rules.production('A' as u32), Some(&expected));
}

#[test]
fn interpretation_lookup() {
    let mut rules: HashMapRules = HashMapRules::new();
    rules.set_str('A', "AB", TurtleCommand::AdvanceBy(10));
    assert_eq!(rules.interpretation('A' as u32), Some(&TurtleCommand::AdvanceBy(10)));
    assert_eq!(rules.interpretation('B' as u32), None);
}
