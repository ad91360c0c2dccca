use tapec::assembler::{assemble, preprocess};
use tapec::CompileError;

#[test]
fn assembler_test_add() {
    let source = "add 1 2";
    let expect = ">++<";
    let output = assemble(source).unwrap();
    assert_eq!(output, expect);
}

#[test]
fn assembler_test_sub() {
    let source = "sub 3 5";
    let expect = ">>>-----<<<";
    let output = assemble(source).unwrap();
    assert_eq!(output, expect);
}

#[test]
fn assembler_test_set() {
    let source = "set 3 5";
    let expect = ">>>[-]+++++<<<";
    let output = assemble(source).unwrap();
    assert_eq!(output, expect);
}

#[test]
fn assembler_test_rs() {
    let source = "rs 3";
    let expect = ">>>";
    let output = assemble(source).unwrap();
    assert_eq!(output, expect);
}

#[test]
fn assembler_test_ls() {
    let source = "ls 4";
    let expect = "<<<<";
    let output = assemble(source).unwrap();
    assert_eq!(output, expect);
}

#[test]
fn assembler_test_loop() {
    let source = "#define a 1\nloop a\nls 3\nend a";
    let expect = ">[<<<<>]<";
    let output = assemble(source).unwrap();
    assert_eq!(output, expect);
}

#[test]
fn assembler_test_copy_2() {
    let source = "copy 1 2 3";
    let expect = ">[-<>>+<<>>>+<<<>]<";
    let output = assemble(source).unwrap();
    assert_eq!(output, expect);
}

#[test]
fn assembler_test_copy_3() {
    let source = "copy 1 2 3 4";
    let expect = ">[-<>>+<<>>>+<<<>>>>+<<<<>]<";
    let output = assemble(source).unwrap();
    assert_eq!(output, expect);
}

#[test]
fn assembler_test_preprocess() {
    let source = "#define a 3\nadd a 2";
    let expect = "add 3 2\n";
    let output = preprocess(source).unwrap();
    assert_eq!(output, expect);
}

#[test]
fn test_comment() {
    let source = "#define a 3\nadd a 2\n# this is a comment";
    let expect = ">>>++<<<";
    let output = assemble(source).unwrap();
    assert_eq!(output, expect);
}

#[test]
fn test_read() {
    let source = "read 3";
    let expect = ">>>,<<<";
    let output = assemble(source).unwrap();
    assert_eq!(output, expect);
}

#[test]
fn test_write() {
    let source = "write 4";
    let expect = ">>>>.<<<<";
    let output = assemble(source).unwrap();
    assert_eq!(output, expect);
}

#[test]
fn test_assemble_wide_offset() {
    let output = assemble("add 10 2").unwrap();
    assert_eq!(output, ">>>>>>>>>>++<<<<<<<<<<");
}

#[test]
fn test_unknown_operation_error() {
    assert_eq!(assemble("frobnicate 1"), Err(CompileError::UnknownOperation));
}

#[test]
fn test_malformed_unresolved_symbol() {
    assert_eq!(assemble("add a 2"), Err(CompileError::MalformedInstruction));
}

#[test]
fn test_malformed_missing_operand() {
    assert_eq!(assemble("add 1"), Err(CompileError::MalformedInstruction));
}

#[test]
fn test_malformed_define() {
    assert_eq!(assemble("#define a"), Err(CompileError::MalformedInstruction));
    assert_eq!(assemble("#define a x"), Err(CompileError::MalformedInstruction));
}

#[test]
fn test_define_shadowing() {
    let output = assemble("#define a 1\n#define a 2\nadd a 1").unwrap();
    assert_eq!(output, ">>+<<");
}

#[test]
fn test_empty_source_assembles_to_nothing() {
    assert_eq!(assemble("").unwrap(), "");
    assert_eq!(assemble("\n\n").unwrap(), "");
}

#[test]
fn test_operand_too_large() {
    assert_eq!(
        assemble("rs 99999999999999999999999999"),
        Err(CompileError::MalformedInstruction)
    );
}

#[test]
fn test_comment_without_space() {
    let source = "#define a 3\nadd a 2\n#this is a comment";
    assert_eq!(assemble(source).unwrap(), ">>>++<<<");
    assert_eq!(assemble("#foo").unwrap(), "");
}

#[test]
fn test_mnemonic_position_not_substituted() {
    // the first pass substitutes operands only, never the mnemonic
    assert_eq!(assemble("#define add 9\nadd 1 2").unwrap(), ">++<");
    assert_eq!(preprocess("#define add 9\nadd add 2").unwrap(), "add 9 2\n");
}
