use tapec::assembler::{Value, Variable};
use tapec::compiler::compile;
use tapec::generator::{code_gen, generate, list_variables, Asm};
use tapec::parser::{Bool, Function, Statement, Variable as Name, AST};
use tapec::scanner::TokenStream;
use tapec::CompileError;

fn parse_program(program: &str) -> AST {
    let tokens = TokenStream::tokenize(program).unwrap();
    let tokens = tokens.into_tokens();
    AST::parse(&tokens).unwrap()
}

fn compile_to_ops(program: &str) -> Vec<Asm> {
    generate(&parse_program(program))
}

fn check_variables(testcases: &[(&str, &[&str])]) {
    for (program, expect) in testcases {
        let mut variables = list_variables(&parse_program(program));
        let mut expected: Vec<String> = expect.iter().map(|s| s.to_string()).collect();
        variables.sort();
        expected.sort();
        assert_eq!(variables, expected);
    }
}

#[test]
fn test_list_pure_variables() {
    let testcases: [(&str, &[&str]); 2] = [
        ("input ( x )", &["x"]),
        ("output ( y )\nx = 1\noutput ( x )", &["y", "x"]),
    ];
    check_variables(&testcases);
}

#[test]
fn test_list_if_variables() {
    let testcases: [(&str, &[&str]); 3] = [
        ("if  x == 1 { input ( y ) }", &["x", "y"]),
        (
            "if x == 1 {
                if y == 1 {
                    input ( y )
                }
            } else {
                input ( z )
            }",
            &["x", "y", "z"],
        ),
        (
            "if x == 1 {
                input ( y )
            } else {
                if y == 1 {
                    input ( z )
                }
            }",
            &["x", "y", "z"],
        ),
    ];
    check_variables(&testcases);
}

#[test]
fn test_input() {
    let program = "input ( x )";
    let ops = compile_to_ops(program);
    let expect = vec![Asm::Read(Variable::new("x"))];
    assert_eq!(ops, expect);
}

#[test]
fn test_output() {
    let program = "output ( x )";
    let ops = compile_to_ops(program);
    let expect = vec![Asm::Write(Variable::new("x"))];
    assert_eq!(ops, expect);
}

#[test]
fn generator_test_assign() {
    let program = "x = 1";
    let ops = compile_to_ops(program);
    let expect = vec![Asm::SetTo(Variable::new("x"), Value::new_num(1))];
    assert_eq!(ops, expect);
}

#[test]
fn test_move_right() {
    let program = "move_right";
    let ops = compile_to_ops(program);
    let expect = vec![Asm::Rs(Value::new_const("__cell_size"))];
    assert_eq!(ops, expect);
}

#[test]
fn test_move_left() {
    let program = "move_left";
    let ops = compile_to_ops(program);
    let expect = vec![Asm::Ls(Value::new_const("__cell_size"))];
    assert_eq!(ops, expect);
}

#[test]
fn test_single_ne_condition_if() {
    let program = "if a != 10 { input ( x ) }";
    let ops = compile_to_ops(program);
    let expect = vec![
        Asm::Copy(
            Variable::new("a"),
            vec![Variable::new("tmp"), Variable::new("IF")],
        ),
        Asm::Copy(Variable::new("tmp"), vec![Variable::new("a")]),
        Asm::Sub(Variable::new("IF"), Value::new_num(10)),
        Asm::Loop(Variable::new("IF")),
        Asm::Read(Variable::new("x")),
        Asm::SetTo(Variable::new("IF"), Value::new_num(0)),
        Asm::End(Variable::new("IF")),
    ];
    assert_eq!(ops, expect);
}

#[test]
fn test_single_eq_condition_if() {
    let program = "if a == 10 { input ( x )  }";
    let ops = compile_to_ops(program);
    let expect = vec![
        Asm::SetTo(Variable::new("IS_EQ"), Value::new_num(1)),
        Asm::Copy(
            Variable::new("a"),
            vec![Variable::new("tmp"), Variable::new("IF")],
        ),
        Asm::Copy(Variable::new("tmp"), vec![Variable::new("a")]),
        Asm::Sub(Variable::new("IF"), Value::new_num(10)),
        Asm::Loop(Variable::new("IF")),
        Asm::SetTo(Variable::new("IS_EQ"), Value::new_num(0)),
        Asm::SetTo(Variable::new("IF"), Value::new_num(0)),
        Asm::End(Variable::new("IF")),
        Asm::Loop(Variable::new("IS_EQ")),
        Asm::Read(Variable::new("x")),
        Asm::SetTo(Variable::new("IS_EQ"), Value::new_num(0)),
        Asm::End(Variable::new("IS_EQ")),
    ];
    assert_eq!(ops, expect);
}

#[test]
fn test_single_ne_condition_if_else() {
    let program = "if a != 10 { input ( x ) } else { input ( y ) }";
    let ops = compile_to_ops(program);
    let expect = vec![
        Asm::SetTo(Variable::new("ELSE"), Value::new_num(1)),
        Asm::Copy(
            Variable::new("a"),
            vec![Variable::new("tmp"), Variable::new("IF")],
        ),
        Asm::Copy(Variable::new("tmp"), vec![Variable::new("a")]),
        Asm::Sub(Variable::new("IF"), Value::new_num(10)),
        Asm::Loop(Variable::new("IF")),
        Asm::Read(Variable::new("x")),
        Asm::SetTo(Variable::new("ELSE"), Value::new_num(0)),
        Asm::SetTo(Variable::new("IF"), Value::new_num(0)),
        Asm::End(Variable::new("IF")),
        Asm::Loop(Variable::new("ELSE")),
        Asm::Read(Variable::new("y")),
        Asm::SetTo(Variable::new("ELSE"), Value::new_num(0)),
        Asm::End(Variable::new("ELSE")),
    ];
    assert_eq!(ops, expect);
}

#[test]
fn test_single_eq_condition_if_else() {
    let program = "if a == 10 { input ( x ) } else { input ( y ) }";
    let ops = compile_to_ops(program);
    let expect = vec![
        Asm::SetTo(Variable::new("ELSE"), Value::new_num(1)),
        Asm::SetTo(Variable::new("IS_EQ"), Value::new_num(1)),
        Asm::Copy(
            Variable::new("a"),
            vec![Variable::new("tmp"), Variable::new("IF")],
        ),
        Asm::Copy(Variable::new("tmp"), vec![Variable::new("a")]),
        Asm::Sub(Variable::new("IF"), Value::new_num(10)),
        Asm::Loop(Variable::new("IF")),
        Asm::SetTo(Variable::new("IS_EQ"), Value::new_num(0)),
        Asm::SetTo(Variable::new("IF"), Value::new_num(0)),
        Asm::End(Variable::new("IF")),
        Asm::Loop(Variable::new("IS_EQ")),
        Asm::Read(Variable::new("x")),
        Asm::SetTo(Variable::new("ELSE"), Value::new_num(0)),
        Asm::SetTo(Variable::new("IS_EQ"), Value::new_num(0)),
        Asm::End(Variable::new("IS_EQ")),
        Asm::Loop(Variable::new("ELSE")),
        Asm::Read(Variable::new("y")),
        Asm::SetTo(Variable::new("ELSE"), Value::new_num(0)),
        Asm::End(Variable::new("ELSE")),
    ];
    assert_eq!(ops, expect);
}

#[test]
fn test_multi_condition_if_eq() {
    let program = "if a == 10 && b != 11 { input ( x ) }";
    let ops = compile_to_ops(program);
    let expect = vec![
        Asm::SetTo(Variable::new("IS_EQ"), Value::new_num(1)),
        Asm::Copy(
            Variable::new("a"),
            vec![Variable::new("tmp"), Variable::new("IF")],
        ),
        Asm::Copy(Variable::new("tmp"), vec![Variable::new("a")]),
        Asm::Sub(Variable::new("IF"), Value::new_num(10)),
        Asm::Loop(Variable::new("IF")),
        Asm::SetTo(Variable::new("IS_EQ"), Value::new_num(0)),
        Asm::SetTo(Variable::new("IF"), Value::new_num(0)),
        Asm::End(Variable::new("IF")),
        Asm::Loop(Variable::new("IS_EQ")),
        Asm::Copy(
            Variable::new("b"),
            vec![Variable::new("tmp"), Variable::new("IF")],
        ),
        Asm::Copy(Variable::new("tmp"), vec![Variable::new("b")]),
        Asm::Sub(Variable::new("IF"), Value::new_num(11)),
        Asm::Loop(Variable::new("IF")),
        Asm::Read(Variable::new("x")),
        Asm::SetTo(Variable::new("IF"), Value::new_num(0)),
        Asm::End(Variable::new("IF")),
        Asm::SetTo(Variable::new("IS_EQ"), Value::new_num(0)),
        Asm::End(Variable::new("IS_EQ")),
    ];
    assert_eq!(ops, expect);
}

#[test]
fn test_multi_condition_if_ne() {
    let program = "if a != 10 && b == 11 { input ( x ) }";
    let ops = compile_to_ops(program);
    let expect = vec![
        Asm::Copy(
            Variable::new("a"),
            vec![Variable::new("tmp"), Variable::new("IF")],
        ),
        Asm::Copy(Variable::new("tmp"), vec![Variable::new("a")]),
        Asm::Sub(Variable::new("IF"), Value::new_num(10)),
        Asm::Loop(Variable::new("IF")),
        Asm::SetTo(Variable::new("IS_EQ"), Value::new_num(1)),
        Asm::Copy(
            Variable::new("b"),
            vec![Variable::new("tmp"), Variable::new("IF")],
        ),
        Asm::Copy(Variable::new("tmp"), vec![Variable::new("b")]),
        Asm::Sub(Variable::new("IF"), Value::new_num(11)),
        Asm::Loop(Variable::new("IF")),
        Asm::SetTo(Variable::new("IS_EQ"), Value::new_num(0)),
        Asm::SetTo(Variable::new("IF"), Value::new_num(0)),
        Asm::End(Variable::new("IF")),
        Asm::Loop(Variable::new("IS_EQ")),
        Asm::Read(Variable::new("x")),
        Asm::SetTo(Variable::new("IS_EQ"), Value::new_num(0)),
        Asm::End(Variable::new("IS_EQ")),
        Asm::SetTo(Variable::new("IF"), Value::new_num(0)),
        Asm::End(Variable::new("IF")),
    ];
    assert_eq!(ops, expect);
}

#[test]
fn test_multi_condition_if_else_eq() {
    let program = "if a == 10 && b != 11 { input ( x ) } else { input ( y ) }";
    let ops = compile_to_ops(program);
    let expect = vec![
        Asm::SetTo(Variable::new("ELSE"), Value::new_num(1)),
        Asm::SetTo(Variable::new("IS_EQ"), Value::new_num(1)),
        Asm::Copy(
            Variable::new("a"),
            vec![Variable::new("tmp"), Variable::new("IF")],
        ),
        Asm::Copy(Variable::new("tmp"), vec![Variable::new("a")]),
        Asm::Sub(Variable::new("IF"), Value::new_num(10)),
        Asm::Loop(Variable::new("IF")),
        Asm::SetTo(Variable::new("IS_EQ"), Value::new_num(0)),
        Asm::SetTo(Variable::new("IF"), Value::new_num(0)),
        Asm::End(Variable::new("IF")),
        Asm::Loop(Variable::new("IS_EQ")),
        Asm::Copy(
            Variable::new("b"),
            vec![Variable::new("tmp"), Variable::new("IF")],
        ),
        Asm::Copy(Variable::new("tmp"), vec![Variable::new("b")]),
        Asm::Sub(Variable::new("IF"), Value::new_num(11)),
        Asm::Loop(Variable::new("IF")),
        Asm::Read(Variable::new("x")),
        Asm::SetTo(Variable::new("ELSE"), Value::new_num(0)),
        Asm::SetTo(Variable::new("IF"), Value::new_num(0)),
        Asm::End(Variable::new("IF")),
        Asm::SetTo(Variable::new("IS_EQ"), Value::new_num(0)),
        Asm::End(Variable::new("IS_EQ")),
        Asm::Loop(Variable::new("ELSE")),
        Asm::Read(Variable::new("y")),
        Asm::SetTo(Variable::new("ELSE"), Value::new_num(0)),
        Asm::End(Variable::new("ELSE")),
    ];
    assert_eq!(ops, expect);
}

#[test]
fn test_multi_condition_if_else_ne() {
    let program = "if a != 10 && b == 11 { input ( x ) } else { input ( y ) }";
    let ops = compile_to_ops(program);
    let expect = vec![
        Asm::SetTo(Variable::new("ELSE"), Value::new_num(1)),
        Asm::Copy(
            Variable::new("a"),
            vec![Variable::new("tmp"), Variable::new("IF")],
        ),
        Asm::Copy(Variable::new("tmp"), vec![Variable::new("a")]),
        Asm::Sub(Variable::new("IF"), Value::new_num(10)),
        Asm::Loop(Variable::new("IF")),
        Asm::SetTo(Variable::new("IS_EQ"), Value::new_num(1)),
        Asm::Copy(
            Variable::new("b"),
            vec![Variable::new("tmp"), Variable::new("IF")],
        ),
        Asm::Copy(Variable::new("tmp"), vec![Variable::new("b")]),
        Asm::Sub(Variable::new("IF"), Value::new_num(11)),
        Asm::Loop(Variable::new("IF")),
        Asm::SetTo(Variable::new("IS_EQ"), Value::new_num(0)),
        Asm::SetTo(Variable::new("IF"), Value::new_num(0)),
        Asm::End(Variable::new("IF")),
        Asm::Loop(Variable::new("IS_EQ")),
        Asm::Read(Variable::new("x")),
        Asm::SetTo(Variable::new("ELSE"), Value::new_num(0)),
        Asm::SetTo(Variable::new("IS_EQ"), Value::new_num(0)),
        Asm::End(Variable::new("IS_EQ")),
        Asm::SetTo(Variable::new("IF"), Value::new_num(0)),
        Asm::End(Variable::new("IF")),
        Asm::Loop(Variable::new("ELSE")),
        Asm::Read(Variable::new("y")),
        Asm::SetTo(Variable::new("ELSE"), Value::new_num(0)),
        Asm::End(Variable::new("ELSE")),
    ];
    assert_eq!(ops, expect);
}

#[test]
fn test_while() {
    let program = "while a != 10 { input ( x ) }";
    let ops = compile_to_ops(program);
    let expect = vec![
        Asm::SetTo(Variable::new("WHILE"), Value::new_num(1)),
        Asm::Loop(Variable::new("WHILE")),
        Asm::SetTo(Variable::new("WHILE"), Value::new_num(0)),
        Asm::Copy(
            Variable::new("a"),
            vec![Variable::new("tmp"), Variable::new("IF")],
        ),
        Asm::Copy(Variable::new("tmp"), vec![Variable::new("a")]),
        Asm::Sub(Variable::new("IF"), Value::new_num(10)),
        Asm::Loop(Variable::new("IF")),
        Asm::Read(Variable::new("x")),
        Asm::SetTo(Variable::new("WHILE"), Value::new_num(1)),
        Asm::SetTo(Variable::new("IF"), Value::new_num(0)),
        Asm::End(Variable::new("IF")),
        Asm::End(Variable::new("WHILE")),
    ];
    assert_eq!(ops, expect);
}

#[test]
fn test_simple_program_one_op_each() {
    let ops = compile_to_ops("x = 1\ninput ( y )\noutput ( x )\ny = 2");
    assert_eq!(ops.len(), 4);
}

#[test]
fn test_equal_uses_two_gating_loops() {
    let eq_ops = compile_to_ops("if a == 10 { input ( x ) }");
    let ne_ops = compile_to_ops("if a != 10 { input ( x ) }");
    let count = |ops: &Vec<Asm>| {
        ops.iter()
            .filter(|op| matches!(op, Asm::Loop(_)))
            .count()
    };
    assert_eq!(count(&eq_ops), 2);
    assert_eq!(count(&ne_ops), 1);
}

#[test]
fn test_allocation_is_dense_and_unique() {
    let text = code_gen(&parse_program("b = 1\na = 2\nif a == 1 { input ( c ) }")).unwrap();
    let mut names: Vec<String> = Vec::new();
    let mut indices: Vec<usize> = Vec::new();
    let mut stride: Option<usize> = None;
    for line in text.split('\n') {
        let parts: Vec<&str> = line.split(' ').collect();
        if parts[0] == "#define" {
            if parts[1] == "__cell_size" {
                stride = Some(parts[2].parse().unwrap());
            } else {
                names.push(parts[1].to_string());
                indices.push(parts[2].parse().unwrap());
            }
        }
    }
    // three user variables plus the five internal names
    assert_eq!(names.len(), 8);
    assert_eq!(stride, Some(8));
    let mut sorted = indices.clone();
    sorted.sort();
    assert_eq!(sorted, (0..8).collect::<Vec<usize>>());
    let mut unique = names.clone();
    unique.sort();
    unique.dedup();
    assert_eq!(unique.len(), 8);
}

#[test]
fn test_reserved_name_collision_fails() {
    for name in ["tmp", "IF", "ELSE", "IS_EQ", "WHILE"] {
        let program = format!("{} = 1", name);
        assert_eq!(compile(&program), Err(CompileError::ReservedName));
    }
}

#[test]
fn test_reserved_name_in_condition_fails() {
    assert_eq!(
        compile("if tmp == 1 { x = 1 }"),
        Err(CompileError::ReservedName)
    );
}

#[test]
fn test_empty_condition_passes_body_through() {
    let stmt = Statement::IF(
        Bool { compares: vec![] },
        Function(vec![Statement::Input(Name("x".to_string()))]),
        None,
    );
    let ops = tapec::generator::statement_to_asm(&stmt);
    assert_eq!(ops, vec![Asm::Read(Variable::new("x"))]);
}
