use tapec::assembler::bare::{assemble, preprocess};

#[test]
fn asm_test_add() {
    let source = "add 1 2";
    let expect = ">++<";
    let output = assemble(source).unwrap();
    assert_eq!(output, expect);
}

#[test]
fn asm_test_sub() {
    let source = "sub 3 5";
    let expect = ">>>-----<<<";
    let output = assemble(source).unwrap();
    assert_eq!(output, expect);
}

#[test]
fn asm_test_set() {
    let source = "set 3 5";
    let expect = ">>>[-]+++++<<<";
    let output = assemble(source).unwrap();
    assert_eq!(output, expect);
}

#[test]
fn asm_test_rs() {
    let source = "rs 3";
    let expect = ">>>";
    let output = assemble(source).unwrap();
    assert_eq!(output, expect);
}

#[test]
fn asm_test_ls() {
    let source = "ls 4";
    let expect = "<<<<";
    let output = assemble(source).unwrap();
    assert_eq!(output, expect);
}

#[test]
fn asm_test_loop() {
    let source = "loop\nls 3\nend";
    let expect = "[<<<]";
    let output = assemble(source).unwrap();
    assert_eq!(output, expect);
}

#[test]
fn asm_test_copy_2() {
    let source = "copy 1 2 3";
    let expect = ">[-<>>+<<>>>+<<<>]<";
    let output = assemble(source).unwrap();
    assert_eq!(output, expect);
}

#[test]
fn asm_test_copy_3() {
    let source = "copy 1 2 3 4";
    let expect = ">[-<>>+<<>>>+<<<>>>>+<<<<>]<";
    let output = assemble(source).unwrap();
    assert_eq!(output, expect);
}

#[test]
fn asm_test_preprocess() {
    let source = "#define a 3\nadd a 2";
    let expect = "add 3 2\n";
    let output = preprocess(source).unwrap();
    assert_eq!(output, expect);
}

#[test]
fn asm_test_no_comment_form() {
    assert!(assemble("# a comment").is_err());
    assert!(assemble("read 3").is_err());
    assert!(assemble("write 3").is_err());
}

#[test]
fn asm_test_comment_marker_unknown() {
    assert!(assemble("#foo").is_err());
}
