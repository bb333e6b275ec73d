use cauchemar::ast::CauchemarAST;
use cauchemar::instruction::CauchemarVMInstruction;
use cauchemar::value::CauchemarVMValue;

#[test]
fn numbers_are_printed_in_decimal() {
    assert_eq!(CauchemarVMValue::Number(0).to_text(), "0");
    assert_eq!(CauchemarVMValue::Number(7).to_text(), "7");
    assert_eq!(CauchemarVMValue::Number(-42).to_text(), "-42");
    assert_eq!(CauchemarVMValue::Number(1000).to_text(), "1000");
    assert_eq!(CauchemarVMValue::Number(i32::MAX).to_text(), "2147483647");
    assert_eq!(CauchemarVMValue::Number(i32::MIN).to_text(), "-2147483648");
}

#[test]
fn booleans_and_text_are_printed_plainly() {
    assert_eq!(CauchemarVMValue::Bool(true).to_text(), "TRUE");
    assert_eq!(CauchemarVMValue::Bool(false).to_text(), "FALSE");
    assert_eq!(CauchemarVMValue::String("hello world".to_string()).to_text(), "hello world");
    assert_eq!(CauchemarVMValue::String(String::new()).to_text(), "");
}

#[test]
fn instructions_are_listed_with_their_operands() {
    let cases = vec![
        (CauchemarVMInstruction::Push(CauchemarVMValue::Number(-5)), "PUSH -5"),
        (CauchemarVMInstruction::Push(CauchemarVMValue::Bool(true)), "PUSH TRUE"),
        (CauchemarVMInstruction::Push(CauchemarVMValue::String("a b".to_string())), "PUSH a b"),
        (CauchemarVMInstruction::Call("GREATER-THAN".to_string()), "CALL GREATER-THAN"),
        (CauchemarVMInstruction::Jump(12), "JUMP 12"),
        (CauchemarVMInstruction::JumpIfFalse(0), "JUMP_IF_FALSE 0"),
        (CauchemarVMInstruction::Add, "ADD"),
        (CauchemarVMInstruction::Sub, "SUB"),
        (CauchemarVMInstruction::Mul, "MUL"),
        (CauchemarVMInstruction::Div, "DIV"),
        (CauchemarVMInstruction::Return, "RETURN"),
        (CauchemarVMInstruction::Nop, "NOP"),
    ];
    for (instruction, expected) in cases {
        assert_eq!(instruction.to_text(), expected);
    }
}

#[test]
fn commands_are_written_as_in_a_source() {
    assert_eq!(CauchemarAST::Number(-3).to_text(), "-3");
    assert_eq!(CauchemarAST::Bool(true).to_text(), "TRUE");
    assert_eq!(CauchemarAST::Bool(false).to_text(), "FALSE");
    assert_eq!(CauchemarAST::String("hi".to_string()).to_text(), "\"hi\"");
    assert_eq!(CauchemarAST::Identifier("DUP".to_string()).to_text(), "DUP");
    assert_eq!(CauchemarAST::Add.to_text(), "+");
    assert_eq!(CauchemarAST::Sub.to_text(), "-");
    assert_eq!(CauchemarAST::Mul.to_text(), "*");
    assert_eq!(CauchemarAST::Div.to_text(), "/");
}

#[test]
fn conditionals_and_loops_are_written_with_their_commands() {
    let conditional = CauchemarAST::If(
        vec![CauchemarAST::Number(1), CauchemarAST::Identifier("PRINT".to_string())],
        vec![CauchemarAST::Number(2)],
    );
    assert_eq!(conditional.to_text(), "IF 1 PRINT ELSE 2 THEN");
    assert_eq!(CauchemarAST::If(vec![], vec![]).to_text(), "IF ELSE THEN");
    let repeat = CauchemarAST::While(vec![
        CauchemarAST::If(vec![CauchemarAST::Add], vec![]),
        CauchemarAST::Bool(false),
    ]);
    assert_eq!(repeat.to_text(), "DOIF + ELSE THEN FALSE WHILE");
}
