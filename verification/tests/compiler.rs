use cauchemar::ast::{CauchemarAST, CauchemarProgram};
use cauchemar::compiler::{compile_cauchemar_program, compile_routine};
use cauchemar::instruction::CauchemarVMInstruction;
use cauchemar::native::NativeRoutine;
use cauchemar::table::NameTable;
use cauchemar::value::CauchemarVMValue;
use cauchemar::vm::CauchemarVMRoutine;

fn push(n: i32) -> CauchemarVMInstruction {
    CauchemarVMInstruction::Push(CauchemarVMValue::Number(n))
}

fn compiled(routine: Vec<CauchemarAST>) -> Vec<CauchemarVMInstruction> {
    let mut instructions = Vec::new();
    compile_routine(&mut instructions, &routine);
    instructions
}

#[test]
fn literals_calls_and_operators_are_one_instruction_each() {
    assert_eq!(
        compiled(vec![
            CauchemarAST::Number(-3),
            CauchemarAST::Bool(true),
            CauchemarAST::String("hi".to_string()),
            CauchemarAST::Identifier("SOMETHING".to_string()),
            CauchemarAST::Add,
            CauchemarAST::Sub,
            CauchemarAST::Mul,
            CauchemarAST::Div,
        ]),
        vec![
            push(-3),
            CauchemarVMInstruction::Push(CauchemarVMValue::Bool(true)),
            CauchemarVMInstruction::Push(CauchemarVMValue::String("hi".to_string())),
            CauchemarVMInstruction::Call("SOMETHING".to_string()),
            CauchemarVMInstruction::Add,
            CauchemarVMInstruction::Sub,
            CauchemarVMInstruction::Mul,
            CauchemarVMInstruction::Div,
        ]
    );
}

#[test]
fn conditional_jumps_are_patched() {
    assert_eq!(
        compiled(vec![
            CauchemarAST::Bool(true),
            CauchemarAST::If(vec![CauchemarAST::Number(1)], vec![CauchemarAST::Number(2)]),
            CauchemarAST::Identifier("PRINT".to_string()),
        ]),
        vec![
            CauchemarVMInstruction::Push(CauchemarVMValue::Bool(true)),
            CauchemarVMInstruction::JumpIfFalse(4),
            push(1),
            CauchemarVMInstruction::Jump(5),
            push(2),
            CauchemarVMInstruction::Nop,
            CauchemarVMInstruction::Call("PRINT".to_string()),
        ]
    );
}

#[test]
fn conditional_without_else_still_has_its_jump_and_no_op() {
    assert_eq!(
        compiled(vec![CauchemarAST::If(vec![CauchemarAST::Number(1)], vec![])]),
        vec![
            CauchemarVMInstruction::JumpIfFalse(3),
            push(1),
            CauchemarVMInstruction::Jump(3),
            CauchemarVMInstruction::Nop,
        ]
    );
}

#[test]
fn loop_jumps_back_to_its_start() {
    assert_eq!(
        compiled(vec![
            CauchemarAST::Number(0),
            CauchemarAST::While(vec![CauchemarAST::Number(1), CauchemarAST::Bool(false)]),
        ]),
        vec![
            push(0),
            push(1),
            CauchemarVMInstruction::Push(CauchemarVMValue::Bool(false)),
            CauchemarVMInstruction::JumpIfFalse(5),
            CauchemarVMInstruction::Jump(1),
            CauchemarVMInstruction::Nop,
        ]
    );
}

#[test]
fn nested_forms_use_absolute_targets() {
    assert_eq!(
        compiled(vec![CauchemarAST::While(vec![CauchemarAST::If(
            vec![CauchemarAST::While(vec![CauchemarAST::Bool(false)])],
            vec![CauchemarAST::Number(7)],
        )])]),
        vec![
            CauchemarVMInstruction::JumpIfFalse(6),
            CauchemarVMInstruction::Push(CauchemarVMValue::Bool(false)),
            CauchemarVMInstruction::JumpIfFalse(4),
            CauchemarVMInstruction::Jump(1),
            CauchemarVMInstruction::Nop,
            CauchemarVMInstruction::Jump(7),
            push(7),
            CauchemarVMInstruction::Nop,
            CauchemarVMInstruction::JumpIfFalse(10),
            CauchemarVMInstruction::Jump(0),
            CauchemarVMInstruction::Nop,
        ]
    );
}

#[test]
fn compiling_appends_behind_what_is_there() {
    let mut instructions = vec![CauchemarVMInstruction::Nop, CauchemarVMInstruction::Nop];
    compile_routine(
        &mut instructions,
        &vec![CauchemarAST::If(vec![], vec![CauchemarAST::Add])],
    );
    assert_eq!(
        instructions,
        vec![
            CauchemarVMInstruction::Nop,
            CauchemarVMInstruction::Nop,
            CauchemarVMInstruction::JumpIfFalse(4),
            CauchemarVMInstruction::Jump(5),
            CauchemarVMInstruction::Add,
            CauchemarVMInstruction::Nop,
        ]
    );
}

#[test]
fn routines_end_with_a_return() {
    let mut routines = NameTable::new();
    routines.insert("PROGRAM".to_string(), vec![CauchemarAST::Number(1)]);
    routines.insert("EMPTY".to_string(), vec![]);
    let vm = compile_cauchemar_program(CauchemarProgram { routines });
    assert_eq!(
        vm.routines.get(&"PROGRAM".to_string()),
        Some(&CauchemarVMRoutine::User(vec![push(1), CauchemarVMInstruction::Return]))
    );
    assert_eq!(
        vm.routines.get(&"EMPTY".to_string()),
        Some(&CauchemarVMRoutine::User(vec![CauchemarVMInstruction::Return]))
    );
}

#[test]
fn table_holds_every_built_in_routine() {
    let vm = compile_cauchemar_program(CauchemarProgram { routines: NameTable::new() });
    let names = [
        "PRINT", "DROP", "DUP", "SWAP", "ROT", "OVER", "EQUALS", "NOT", "OR", "AND",
        "GREATER-THAN", "GREATER-EQUAL", "LESS-THAN", "LESS-EQUAL", "ASSERT",
    ];
    let all = NativeRoutine::all();
    assert_eq!(all.len(), names.len());
    for (name, native) in names.iter().zip(all) {
        assert_eq!(native.name(), *name);
        assert_eq!(
            vm.routines.get(&name.to_string()),
            Some(&CauchemarVMRoutine::Native(native))
        );
    }
    assert_eq!(vm.routines.get(&"PROGRAM".to_string()), None);
}
