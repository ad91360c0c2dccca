use tapec::assembler::assemble;
use tapec::compiler::compile;
use tapec::CompileError;

/// A small tape-machine interpreter for the end-to-end checks: a head over
/// 8-bit cells, with wrapping increments, reading from `input` and
/// collecting what the program writes.
fn run_tape(program: &str, input: &[u8]) -> (Vec<u8>, Vec<u8>) {
    let prog: Vec<char> = program.chars().collect();
    let mut tape = vec![0u8; 4096];
    let mut pos = 0usize;
    let mut pc = 0usize;
    let mut next_in = 0usize;
    let mut out = Vec::new();
    let mut steps = 0u64;
    while pc < prog.len() {
        steps += 1;
        if steps > 10_000_000 {
            panic!("tape program ran too long");
        }
        match prog[pc] {
            '>' => pos += 1,
            '<' => pos -= 1,
            '+' => tape[pos] = tape[pos].wrapping_add(1),
            '-' => tape[pos] = tape[pos].wrapping_sub(1),
            '.' => out.push(tape[pos]),
            ',' => {
                tape[pos] = input[next_in];
                next_in += 1;
            },
            '[' => {
                if tape[pos] == 0 {
                    let mut depth = 1;
                    while depth > 0 {
                        pc += 1;
                        match prog[pc] {
                            '[' => depth += 1,
                            ']' => depth -= 1,
                            _ => {},
                        }
                    }
                }
            },
            ']' => {
                if tape[pos] != 0 {
                    let mut depth = 1;
                    while depth > 0 {
                        pc -= 1;
                        match prog[pc] {
                            ']' => depth += 1,
                            '[' => depth -= 1,
                            _ => {},
                        }
                    }
                }
            },
            _ => {},
        }
        pc += 1;
    }
    (tape, out)
}

#[test]
fn test_end_to_end_assign_output() {
    let text = compile("x = 1\noutput ( x )").unwrap();
    let program = assemble(&text).unwrap();
    let (_, out) = run_tape(&program, &[]);
    assert_eq!(out, vec![1]);
}

#[test]
fn test_end_to_end_if_taken_and_not_taken() {
    let source = "x = 3\nif x == 3 { y = 7 }\noutput ( y )\nif x == 4 { y = 9 }\noutput ( y )";
    let text = compile(source).unwrap();
    let program = assemble(&text).unwrap();
    let (_, out) = run_tape(&program, &[]);
    assert_eq!(out, vec![7, 7]);
}

#[test]
fn test_end_to_end_if_else() {
    let source = "x = 3\nif x != 3 { y = 1 } else { y = 2 }\noutput ( y )";
    let text = compile(source).unwrap();
    let program = assemble(&text).unwrap();
    let (_, out) = run_tape(&program, &[]);
    assert_eq!(out, vec![2]);
}

#[test]
fn test_end_to_end_while_counts_down() {
    // the condition is re-evaluated each pass: the loop echoes its input
    // until a zero arrives
    let source = "input ( x )\nwhile x != 0 { output ( x )\ninput ( x ) }";
    let text = compile(source).unwrap();
    let program = assemble(&text).unwrap();
    let (_, out) = run_tape(&program, &[2, 1, 0]);
    assert_eq!(out, vec![2, 1]);
}

#[test]
fn test_end_to_end_input_round_trip() {
    let source = "input ( x )\noutput ( x )\noutput ( x )";
    let text = compile(source).unwrap();
    let program = assemble(&text).unwrap();
    let (_, out) = run_tape(&program, &[42]);
    assert_eq!(out, vec![42, 42]);
}

#[test]
fn test_condition_preserves_variable() {
    // evaluating a condition must not corrupt the compared variable
    let source = "x = 5\nif x == 5 { y = 1 }\nif x == 5 { y = 2 }\noutput ( y )\noutput ( x )";
    let text = compile(source).unwrap();
    let program = assemble(&text).unwrap();
    let (_, out) = run_tape(&program, &[]);
    assert_eq!(out, vec![2, 5]);
}

#[test]
fn test_copy_round_trip_all_bytes() {
    // copying a source into a scratch cell and a destination, then the
    // scratch cell back, preserves the source and duplicates the value,
    // for every byte value
    let copy_out = assemble("copy 1 2 3").unwrap();
    let copy_back = assemble("copy 2 1").unwrap();
    for v in 0..=255u8 {
        let mut program = String::from(">");
        program.push_str(&"+".repeat(v as usize));
        program.push('<');
        program.push_str(&copy_out);
        program.push_str(&copy_back);
        let (tape, _) = run_tape(&program, &[]);
        assert_eq!(tape[1], v);
        assert_eq!(tape[2], 0);
        assert_eq!(tape[3], v);
    }
}

#[test]
fn test_lexical_error() {
    assert_eq!(compile("x = $"), Err(CompileError::LexicalError));
}

#[test]
fn test_parse_error_incomplete() {
    assert_eq!(compile("x ="), Err(CompileError::ParseError(0)));
    assert_eq!(compile("if x == 1 { y = 1"), Err(CompileError::ParseError(0)));
}

#[test]
fn test_literal_out_of_range_is_parse_error() {
    assert_eq!(compile("x = 256"), Err(CompileError::ParseError(0)));
}

#[test]
fn test_variable_named_like_mnemonic() {
    // a user variable named like a mnemonic must not derail the assembler:
    // only operand positions are substituted by the define pass
    let text = compile("set = 5\noutput ( set )").unwrap();
    let program = assemble(&text).unwrap();
    let (_, out) = run_tape(&program, &[]);
    assert_eq!(out, vec![5]);
}
