use miniasm::executor::{ExecOutcome, Executor, State, StepEffect};
use miniasm::parser::{Variable, parse_lines};

fn program(src: &[&str]) -> Executor {
    let lines: Vec<String> = src.iter().map(|s| s.to_string()).collect();
    Executor::new(parse_lines(&lines).unwrap())
}

fn run(src: &[&str], inputs: &[&str]) -> (String, ExecOutcome) {
    let input_lines: Vec<String> = inputs.iter().map(|s| s.to_string()).collect();
    program(src).execute(&input_lines, 10_000)
}

#[test]
fn set_then_print() {
    assert_eq!(run(&["SET A 5", "PVR A"], &[]), ("5".to_string(), ExecOutcome::Done));
}

#[test]
fn add_accumulates() {
    assert_eq!(
        run(&["SET A 5", "ADD A 3", "PVR A"], &[]),
        ("8".to_string(), ExecOutcome::Done)
    );
}

#[test]
fn sub_goes_negative() {
    assert_eq!(
        run(&["SET A 0", "SUB A 5", "PVR A"], &[]),
        ("-5".to_string(), ExecOutcome::Done)
    );
}

#[test]
fn registers_start_at_zero() {
    assert_eq!(
        run(&["PVR A", "PVR B", "PVR C", "PVR D"], &[]),
        ("0000".to_string(), ExecOutcome::Done)
    );
}

#[test]
fn register_operands_resolve() {
    assert_eq!(
        run(&["SET A 2", "SET B A", "ADD B B", "PVR B"], &[]),
        ("4".to_string(), ExecOutcome::Done)
    );
}

#[test]
fn straight_line_runs_in_source_order() {
    assert_eq!(
        run(&["PTX \"a\"", "PTX \"b\"", "PTX \"c\""], &[]),
        ("abc".to_string(), ExecOutcome::Done)
    );
}

#[test]
fn newline_only_program() {
    assert_eq!(run(&["NLN"], &[]), ("\n".to_string(), ExecOutcome::Done));
}

#[test]
fn ptx_prints_unescaped_text() {
    assert_eq!(
        run(&["PTX \"a\\\"b\\\\c\""], &[]),
        ("a\"b\\c".to_string(), ExecOutcome::Done)
    );
}

#[test]
fn conditional_takes_then_branch_on_zero() {
    let mut ex = program(&["IFJ A EQ 0 3 5"]);
    assert_eq!(ex.step(), StepEffect::Continue);
    // line 3 is the third command, at 0-based position 2
    assert_eq!(ex.pc(), 2);
}

#[test]
fn conditional_takes_else_branch_on_nonzero() {
    let mut ex = program(&["SET A 1", "IFJ A EQ 0 3 5"]);
    assert_eq!(ex.step(), StepEffect::Continue);
    assert_eq!(ex.step(), StepEffect::Continue);
    // line 5 is the fifth command, at 0-based position 4
    assert_eq!(ex.pc(), 4);
}

#[test]
fn conditional_branches_select_output() {
    let src = &[
        "IFJ A EQ 0 3 5",
        "NLN",
        "PTX \"zero\"",
        "JMP END",
        "PTX \"nonzero\"",
    ];
    assert_eq!(run(src, &[]), ("zero".to_string(), ExecOutcome::Done));
    let src2 = &[
        "SET A 7",
        "IFJ A EQ 0 4 6",
        "NLN",
        "PTX \"zero\"",
        "JMP END",
        "PTX \"nonzero\"",
    ];
    assert_eq!(run(src2, &[]), ("nonzero".to_string(), ExecOutcome::Done));
}

#[test]
fn out_of_range_jump_terminates_normally() {
    assert_eq!(
        run(&["PTX \"x\"", "NLN", "JMP 9999"], &[]),
        ("x\n".to_string(), ExecOutcome::Done)
    );
}

#[test]
fn jump_end_terminates() {
    assert_eq!(
        run(&["PTX \"a\"", "JMP END", "PTX \"b\""], &[]),
        ("a".to_string(), ExecOutcome::Done)
    );
}

#[test]
fn jump_next_falls_through() {
    assert_eq!(
        run(&["JMP NXT", "PTX \"ok\""], &[]),
        ("ok".to_string(), ExecOutcome::Done)
    );
}

#[test]
fn backward_jump_loops() {
    let src = &[
        "ADD A 1",
        "PVR A",
        "IFJ A < 4 1 NXT",
    ];
    assert_eq!(run(src, &[]), ("1234".to_string(), ExecOutcome::Done));
}

#[test]
fn infinite_loop_hits_step_limit() {
    let (out, outcome) = program(&["JMP 1"]).execute(&Vec::new(), 10);
    assert_eq!(out, "");
    assert_eq!(outcome, ExecOutcome::StepLimit);
}

#[test]
fn input_is_trimmed_and_stored() {
    assert_eq!(
        run(&["LTV A", "PVR A"], &["  42  "]),
        ("42".to_string(), ExecOutcome::Done)
    );
}

#[test]
fn negative_input_is_an_error() {
    assert_eq!(run(&["LTV A", "PVR A"], &["-1"]), (String::new(), ExecOutcome::BadInput));
}

#[test]
fn non_numeric_input_is_an_error() {
    assert_eq!(run(&["LTV A", "PVR A"], &["abc"]), (String::new(), ExecOutcome::BadInput));
}

#[test]
fn missing_input_is_an_error() {
    assert_eq!(run(&["LTV A"], &[]), (String::new(), ExecOutcome::BadInput));
}

#[test]
fn input_error_keeps_prior_output() {
    assert_eq!(
        run(&["PTX \"p\"", "LTV A"], &["zzz"]),
        ("p".to_string(), ExecOutcome::BadInput)
    );
}

#[test]
fn huge_input_wraps_to_signed() {
    assert_eq!(
        run(&["LTV A", "PVR A"], &["18446744073709551615"]),
        ("-1".to_string(), ExecOutcome::Done)
    );
}

#[test]
fn oversized_input_is_an_error() {
    assert_eq!(
        run(&["LTV A"], &["18446744073709551616"]),
        (String::new(), ExecOutcome::BadInput)
    );
}

#[test]
fn large_literal_prints_exactly() {
    assert_eq!(
        run(&["SET A 4294967295", "PVR A"], &[]),
        ("4294967295".to_string(), ExecOutcome::Done)
    );
}

#[test]
fn feed_input_sets_register() {
    let mut ex = program(&["LTV C"]);
    match ex.step() {
        StepEffect::ReadInto(var) => {
            assert_eq!(var, Variable::C);
            ex.feed_input(&var, "17").unwrap();
        }
        other => panic!("expected a read effect, got {:?}", other),
    }
    assert_eq!(
        ex.registers(),
        State { a: 0, b: 0, c: 17, d: 0 }
    );
}

#[test]
fn feed_input_rejects_bad_line() {
    let mut ex = program(&["LTV A"]);
    match ex.step() {
        StepEffect::ReadInto(var) => {
            assert!(ex.feed_input(&var, "nope").is_err());
        }
        other => panic!("expected a read effect, got {:?}", other),
    }
    assert_eq!(ex.registers(), State { a: 0, b: 0, c: 0, d: 0 });
}

#[test]
fn comments_do_not_change_execution() {
    assert_eq!(
        run(&["SET A 5 # five", "PVR A # print it"], &[]),
        ("5".to_string(), ExecOutcome::Done)
    );
}
