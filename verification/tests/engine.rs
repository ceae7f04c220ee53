use bmk::engine::{run, Arguable, EngineError};
use bmk::script::{run_script, Log, ScriptCmd, StepKind};

fn cmd(label: &str, kind: StepKind, children: Vec<ScriptCmd>) -> ScriptCmd {
    ScriptCmd { label: label.to_owned(), kind, children }
}

fn leaf(label: &str) -> ScriptCmd {
    cmd(label, StepKind::Run, vec![])
}

fn empty_log() -> Log {
    Log { entries: vec![] }
}

/// `A -> [B, C]`, `B -> [D]`, `C -> []`, `D -> []`: the realized order is
/// depth first, `A, B, D, C`.
fn chain() -> ScriptCmd {
    cmd(
        "a",
        StepKind::Run,
        vec![cmd("b", StepKind::Run, vec![leaf("d")]), leaf("c")],
    )
}

#[test]
fn depth_first_order() {
    let out = run(empty_log(), chain()).expect("the run should succeed");
    assert_eq!(out.entries, vec!["a", "b", "d", "c"]);
}

#[test]
fn round_trip_preserves_execution() {
    let tokens = chain().to_args();
    let reparsed = ScriptCmd::from_args(tokens).expect("serialized tokens should parse");
    let direct = run(empty_log(), chain()).expect("the run should succeed");
    let via_tokens = run(empty_log(), reparsed).expect("the run should succeed");
    assert_eq!(direct.entries, via_tokens.entries);
}

#[test]
fn tokens_of_a_leaf() {
    let tokens = leaf("x").to_args();
    assert_eq!(tokens, vec!["(", "run", "x", ")"]);
}

#[test]
fn tokens_of_a_nested_command() {
    let tokens = cmd("p", StepKind::Skip, vec![leaf("q")]).to_args();
    assert_eq!(tokens, vec!["(", "skip", "p", "(", "run", "q", ")", ")"]);
}

#[test]
fn empty_expansion_terminates() {
    let out = run(empty_log(), leaf("only")).expect("a leaf command should end the run");
    assert_eq!(out.entries, vec!["only"]);
}

#[test]
fn fail_fast_discards_partial_state() {
    let root = cmd(
        "root",
        StepKind::Skip,
        vec![
            leaf("first"),
            leaf("second"),
            cmd("third", StepKind::Fail, vec![]),
            leaf("fourth"),
        ],
    );
    let err = run(empty_log(), root).err().expect("the failing step should abort the run");
    assert!(matches!(err, EngineError::Execution(_)));
}

#[test]
fn idempotent_noop_returns_input_state() {
    let seeded = Log { entries: vec!["seed".to_owned()] };
    let out = run(seeded, cmd("noop", StepKind::Skip, vec![])).expect("a no-op should succeed");
    assert_eq!(out.entries, vec!["seed"]);
}

#[test]
fn skip_emits_children_without_logging() {
    let out = run(empty_log(), cmd("quiet", StepKind::Skip, vec![leaf("loud")]))
        .expect("the run should succeed");
    assert_eq!(out.entries, vec!["loud"]);
}

#[test]
fn malformed_tokens_are_a_serialization_error() {
    let err = ScriptCmd::from_args(vec!["(".to_owned(), "bogus".to_owned()])
        .err()
        .expect("malformed tokens should not parse");
    assert!(matches!(err, EngineError::Serialization(_)));
}

#[test]
fn leftover_tokens_are_a_serialization_error() {
    let mut tokens = leaf("x").to_args();
    tokens.push(")".to_owned());
    let err = ScriptCmd::from_args(tokens).err().expect("leftover tokens should not parse");
    assert!(matches!(err, EngineError::Serialization(_)));
}

#[test]
fn unterminated_tokens_are_a_serialization_error() {
    let err = ScriptCmd::from_args(vec!["(".to_owned(), "run".to_owned(), "x".to_owned()])
        .err()
        .expect("an unterminated command should not parse");
    assert!(matches!(err, EngineError::Serialization(_)));
}

#[test]
fn error_messages_carry_the_cause() {
    let err = run(empty_log(), cmd("bad", StepKind::Fail, vec![]))
        .err()
        .expect("the failing step should abort the run");
    assert!(!err.message().is_empty());
}

#[test]
fn run_script_matches_run() {
    let direct = run(empty_log(), chain()).expect("the run should succeed");
    let via = run_script(empty_log(), chain()).expect("the run should succeed");
    assert_eq!(direct.entries, via.entries);
    assert_eq!(via.entries, vec!["a", "b", "d", "c"]);
}

#[test]
fn deep_nesting_round_trips_and_runs_in_order() {
    let tree = || {
        cmd(
            "top",
            StepKind::Run,
            vec![
                cmd(
                    "left",
                    StepKind::Skip,
                    vec![leaf("ll"), cmd("lr", StepKind::Run, vec![leaf("lrl")])],
                ),
                leaf("right"),
            ],
        )
    };
    let reparsed = ScriptCmd::from_args(tree().to_args()).expect("serialized tokens should parse");
    let out = run_script(empty_log(), reparsed).expect("the run should succeed");
    assert_eq!(out.entries, vec!["top", "ll", "lr", "lrl", "right"]);
}
