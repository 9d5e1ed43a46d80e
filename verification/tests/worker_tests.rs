use rustlsystem::chunks::ChunksProcessor;
use rustlsystem::interpret::{SimpleInterpreter, TurtleCommand};
use rustlsystem::rules::HashMapRules;
use rustlsystem::view::{MessageFromViewer, MessageToViewer, Processor, Worker};

fn scenario_rules() -> HashMapRules {
    let mut rules = HashMapRules::new();
    rules.set_str('A', "+B-A-B+", TurtleCommand::AdvanceBy(10));
    rules.set_str('B', "-A+B+A-", TurtleCommand::AdvanceBy(15));
    rules.set_str('+', "+", TurtleCommand::RotateBy(60));
    rules.set_str('-', "-", TurtleCommand::RotateBy(-60));
    rules
}

fn seed_a() -> Vec<u32> {
    "A".chars().map(|c| c as u32).collect()
}

#[test]
fn actor_ordering() {
    // LoadGeneration, IterateOnce x3, Interpret, Terminate: exactly six
    // events, in that exact order, the third iterate reporting iteration 3.
    let processor = Processor::Chunks(ChunksProcessor::new(4, 10_000).ok().unwrap());
    let mut worker = Worker::new(processor, SimpleInterpreter);
    let mut events: Vec<MessageToViewer> = Vec::new();

    let commands = vec![
        MessageFromViewer::LoadLSystem(seed_a(), scenario_rules()),
        MessageFromViewer::Iterate,
        MessageFromViewer::Iterate,
        MessageFromViewer::Iterate,
        MessageFromViewer::Interpret,
        MessageFromViewer::Terminate,
    ];
    for command in commands {
        let (reply, _stop) = worker.step(command);
        events.push(reply);
    }

    assert_eq!(events.len(), 6);
    assert_eq!(events[0], MessageToViewer::LoadingFinished);
    assert_eq!(events[1], MessageToViewer::IterationFinished(1));
    assert_eq!(events[2], MessageToViewer::IterationFinished(2));
    assert_eq!(events[3], MessageToViewer::IterationFinished(3));
    assert!(matches!(events[4], MessageToViewer::InterpretationFinished(_)));
    assert_eq!(events[5], MessageToViewer::Terminated);
}

#[test]
fn commands_before_load_are_errors() {
    let mut worker = Worker::new(Processor::Simple(rustlsystem::process::SimpleProcessor), SimpleInterpreter);
    let (reply, stop) = worker.step(MessageFromViewer::Iterate);
    assert_eq!(reply, MessageToViewer::Error("no LSystem loaded".to_string()));
    assert!(!stop);
    let (reply, _) = worker.step(MessageFromViewer::Interpret);
    assert_eq!(reply, MessageToViewer::Error("no LSystem loaded".to_string()));
    let (reply, _) = worker.step(MessageFromViewer::ResetLSystem);
    assert_eq!(reply, MessageToViewer::Error("no LSystem loaded".to_string()));
    let (reply, stop) = worker.step(MessageFromViewer::Terminate);
    assert_eq!(reply, MessageToViewer::Terminated);
    assert!(stop);
}

#[test]
fn reset_rederives_iteration_zero() {
    let processor = Processor::Simple(rustlsystem::process::SimpleProcessor);
    let mut worker = Worker::new(processor, SimpleInterpreter);
    let (reply, _) = worker.step(MessageFromViewer::LoadLSystem(seed_a(), scenario_rules()));
    assert_eq!(reply, MessageToViewer::LoadingFinished);
    let (reply, _) = worker.step(MessageFromViewer::Iterate);
    assert_eq!(reply, MessageToViewer::IterationFinished(1));
    let (reply, _) = worker.step(MessageFromViewer::ResetLSystem);
    assert_eq!(reply, MessageToViewer::ResettingFinised);
    // After a reset the next iterate starts again from iteration 0.
    let (reply, _) = worker.step(MessageFromViewer::Iterate);
    assert_eq!(reply, MessageToViewer::IterationFinished(1));
}

#[test]
fn load_replaces_the_current_lsystem() {
    let processor = Processor::Simple(rustlsystem::process::SimpleProcessor);
    let mut worker = Worker::new(processor, SimpleInterpreter);
    worker.step(MessageFromViewer::LoadLSystem(seed_a(), scenario_rules()));
    worker.step(MessageFromViewer::Iterate);
    worker.step(MessageFromViewer::Iterate);
    // A second load starts over at iteration 0.
    let (reply, _) = worker.step(MessageFromViewer::LoadLSystem(seed_a(), scenario_rules()));
    assert_eq!(reply, MessageToViewer::LoadingFinished);
    let (reply, _) = worker.step(MessageFromViewer::Iterate);
    assert_eq!(reply, MessageToViewer::IterationFinished(1));
}

#[test]
fn worker_interpret_matches_direct_interpretation() {
    let processor = Processor::Simple(rustlsystem::process::SimpleProcessor);
    let mut worker = Worker::new(processor, SimpleInterpreter);
    worker.step(MessageFromViewer::LoadLSystem(seed_a(), scenario_rules()));
    worker.step(MessageFromViewer::Iterate);
    let (reply, _) = worker.step(MessageFromViewer::Interpret);
    let expected = vec![
        TurtleCommand::RotateBy(60),
        TurtleCommand::AdvanceBy(15),
        TurtleCommand::RotateBy(-60),
        TurtleCommand::AdvanceBy(10),
        TurtleCommand::RotateBy(-60),
        TurtleCommand::AdvanceBy(15),
        TurtleCommand::RotateBy(60),
    ];
    assert_eq!(reply, MessageToViewer::InterpretationFinished(expected));
}

#[test]
fn from_command_and_same_type() {
    let load = MessageFromViewer::LoadLSystem(seed_a(), scenario_rules());
    assert_eq!(MessageToViewer::from_command(&load), MessageToViewer::LoadingFinished);
    assert_eq!(
        MessageToViewer::from_command(&MessageFromViewer::Iterate),
        MessageToViewer::IterationFinished(0)
    );
    assert_eq!(
        MessageToViewer::from_command(&MessageFromViewer::Interpret),
        MessageToViewer::InterpretationFinished(Vec::new())
    );
    assert_eq!(
        MessageToViewer::from_command(&MessageFromViewer::Terminate),
        MessageToViewer::Terminated
    );
    assert_eq!(
        MessageToViewer::from_command(&MessageFromViewer::ResetLSystem),
        MessageToViewer::ResettingFinised
    );

    let a = MessageToViewer::IterationFinished(1);
    let b = MessageToViewer::IterationFinished(7);
    assert!(a.same_type(&b));
    assert!(!a.same_type(&MessageToViewer::Terminated));
    let e1 = MessageToViewer::Error("x".to_string());
    let e2 = MessageToViewer::Error("y".to_string());
    assert!(e1.same_type(&e2));
    assert!(!e1.same_type(&MessageToViewer::LoadingFinished));
}
