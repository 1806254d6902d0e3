use bytie::brainfuck::{interpret_brainfuck, past_deadline, run_program, validate, BfError, Machine, MAX_RUNTIME_NANOS, TAPE_LEN};
use bytie::text::chars_of;

#[test]
fn test_hello_world() {
    let code = String::from("++++++++++[>+++++++>++++++++++>+++>+<<<<-]>++.>+.+++++++..+++.>++.<<+++++++++++++++.>.+++.------.--------.>+.>.");
    let inputs = vec![];
    assert_eq!(
        interpret_brainfuck(code, inputs),
        Ok(String::from("Hello World!\n"))
    );
}

#[test]
fn test_echo_until_null() {
    let code = String::from(",[.,]");
    let inputs = vec![72, 101, 108, 108, 111, 33, 0];
    assert_eq!(
        interpret_brainfuck(code, inputs),
        Ok(String::from("Hello!"))
    );
}

#[test]
fn test_addition() {
    let code = String::from(",>,[-<+>]<.");
    let inputs = vec![3, 5];
    assert_eq!(interpret_brainfuck(code, inputs), Ok(String::from("\u{8}")));
}

#[test]
fn test_insufficient_input() {
    let code = String::from(",>,<.");
    let inputs = vec![65];
    assert_eq!(
        interpret_brainfuck(code, inputs),
        Err((
            String::from("Not enough input values provided"),
            String::from("")
        ))
    );
}

#[test]
fn test_unmatched_opening_bracket() {
    let code = String::from("[");
    let inputs = vec![];
    assert_eq!(
        interpret_brainfuck(code, inputs),
        Err((
            String::from("Unmatched opening bracket at position 0"),
            String::from("")
        ))
    );
}

#[test]
fn test_unmatched_closing_bracket() {
    let code = String::from("]");
    let inputs = vec![];
    assert_eq!(
        interpret_brainfuck(code, inputs),
        Err((
            String::from("Unmatched closing bracket at position 0"),
            String::from("")
        ))
    );
}

#[test]
fn test_nested_loops() {
    let code = String::from("++++[>++[>+<-]<-]>>.");
    let inputs = vec![];
    assert_eq!(interpret_brainfuck(code, inputs), Ok(String::from("\u{8}")));
}

fn code_of(s: &str) -> Vec<char> {
    chars_of(s)
}

#[test]
fn same_program_same_output() {
    let first = interpret_brainfuck(String::from(",[.-]"), vec![3]);
    let second = interpret_brainfuck(String::from(",[.-]"), vec![3]);
    assert_eq!(first, Ok(String::from("\u{3}\u{2}\u{1}")));
    assert_eq!(first, second);
}

#[test]
fn pointer_wraps_left_from_first_cell() {
    // Moving left from cell 0 reaches the last cell; moving right again is back at 0.
    let code = code_of("<");
    let mut m = Machine::new(vec![]);
    assert_eq!(m.step(&code), Ok(()));
    assert_eq!(m.ptr, TAPE_LEN - 1);
    assert_eq!(m.pc, 1);
    let code = code_of(">");
    m.pc = 0;
    assert_eq!(m.step(&code), Ok(()));
    assert_eq!(m.ptr, 0);
}

#[test]
fn pointer_wraps_in_a_program() {
    // Mark the last cell through the left wrap, then reach it again through the right wrap.
    assert_eq!(
        interpret_brainfuck(String::from("<+++>.<."), vec![]),
        Ok(String::from("\u{0}\u{3}"))
    );
}

#[test]
fn cell_wraps_both_ways() {
    assert_eq!(interpret_brainfuck(String::from("-."), vec![]), Ok(String::from("\u{ff}")));
    assert_eq!(interpret_brainfuck(String::from("-+."), vec![]), Ok(String::from("\u{0}")));
    assert_eq!(interpret_brainfuck(String::from(",+."), vec![255]), Ok(String::from("\u{0}")));
}

#[test]
fn output_maps_bytes_to_code_points() {
    let r = interpret_brainfuck(String::from(",.,."), vec![200, 65]);
    assert_eq!(r, Ok(String::from("\u{c8}A")));
    assert_eq!(r.unwrap().chars().count(), 2);
}

#[test]
fn unmatched_close_after_balanced_prefix() {
    assert_eq!(
        interpret_brainfuck(String::from("+[-]+.]"), vec![]),
        Err((String::from("Unmatched closing bracket at position 6"), String::from("")))
    );
}

#[test]
fn unmatched_close_reported_before_unclosed_open() {
    assert_eq!(
        interpret_brainfuck(String::from("]["), vec![]),
        Err((String::from("Unmatched closing bracket at position 0"), String::from("")))
    );
}

#[test]
fn unmatched_open_cites_innermost() {
    assert_eq!(
        interpret_brainfuck(String::from("+.[[-][+[.]"), vec![]),
        Err((String::from("Unmatched opening bracket at position 6"), String::from("")))
    );
    assert_eq!(
        validate(&code_of("[[]")),
        Err(BfError::UnmatchedOpeningBracket { position: 0 })
    );
    assert_eq!(
        validate(&code_of("x[y[z]")),
        Err(BfError::UnmatchedOpeningBracket { position: 1 })
    );
}

#[test]
fn position_has_several_digits() {
    let mut code = String::new();
    for _ in 0..123 {
        code.push('+');
    }
    code.push(']');
    assert_eq!(
        interpret_brainfuck(code, vec![]),
        Err((String::from("Unmatched closing bracket at position 123"), String::from("")))
    );
}

#[test]
fn endless_loop_hits_step_ceiling() {
    assert_eq!(
        run_program(&code_of("+[]"), vec![]),
        Err((BfError::StepLimitExceeded, String::new()))
    );
    assert_eq!(
        interpret_brainfuck(String::from("+[]"), vec![]),
        Err((String::from("Instruction limit exceeded"), String::new()))
    );
}

#[test]
fn step_ceiling_keeps_partial_output() {
    assert_eq!(
        run_program(&code_of("++++++++[>++++++++<-]>+.[]"), vec![]),
        Err((BfError::StepLimitExceeded, String::from("A")))
    );
}

#[test]
fn insufficient_input_keeps_prior_output() {
    assert_eq!(
        interpret_brainfuck(String::from(",.,.,."), vec![104, 105]),
        Err((String::from("Not enough input values provided"), String::from("hi")))
    );
    assert_eq!(
        run_program(&code_of(","), vec![]),
        Err((BfError::InsufficientInput, String::new()))
    );
}

#[test]
fn skipped_loop_is_not_entered() {
    assert_eq!(
        interpret_brainfuck(String::from("[.[.]].+."), vec![]),
        Ok(String::from("\u{0}\u{1}"))
    );
}

#[test]
fn other_characters_are_ignored() {
    assert_eq!(
        interpret_brainfuck(String::from("a+b+c. é"), vec![]),
        Ok(String::from("\u{2}"))
    );
    assert_eq!(interpret_brainfuck(String::new(), vec![1, 2]), Ok(String::new()));
}

#[test]
fn positions_count_characters_not_bytes() {
    assert_eq!(
        interpret_brainfuck(String::from("éé]"), vec![]),
        Err((String::from("Unmatched closing bracket at position 2"), String::from("")))
    );
}

#[test]
fn stray_close_with_empty_loop_stack_is_reported() {
    // Driving the machine by hand past the validator: a `]` on a non-zero cell
    // with no loop entered fails at its position and leaves the machine as it was.
    let code = code_of("+]");
    let mut m = Machine::new(vec![]);
    assert_eq!(m.step(&code), Ok(()));
    assert_eq!(m.step(&code), Err(BfError::UnmatchedClosingBracket { position: 1 }));
    assert_eq!(m.pc, 1);
    assert_eq!(m.tape[0], 1);
}

#[test]
fn skip_without_close_is_reported() {
    let code = code_of("[+");
    let mut m = Machine::new(vec![]);
    assert_eq!(m.step(&code), Err(BfError::UnmatchedOpeningBracket { position: 0 }));
    assert_eq!(m.pc, 0);
}

#[test]
fn error_messages() {
    assert_eq!(
        BfError::UnmatchedOpeningBracket { position: 4096 }.message(),
        String::from("Unmatched opening bracket at position 4096")
    );
    assert_eq!(BfError::StepLimitExceeded.message(), String::from("Instruction limit exceeded"));
    assert_eq!(BfError::TimeLimitExceeded.message(), String::from("Execution time limit exceeded"));
    assert_eq!(
        BfError::InsufficientInput.message(),
        String::from("Not enough input values provided")
    );
}

#[test]
fn deadline_is_strictly_after_ceiling() {
    assert!(!past_deadline(0));
    assert!(!past_deadline(MAX_RUNTIME_NANOS));
    assert!(past_deadline(MAX_RUNTIME_NANOS + 1));
}
