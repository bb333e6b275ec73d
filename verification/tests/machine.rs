use cauchemar::ast::{CauchemarAST, CauchemarProgram};
use cauchemar::compiler::{compile_cauchemar_program, load_cauchemar_program};
use cauchemar::fault::{CauchemarFault, FaultKind};
use cauchemar::instruction::CauchemarVMInstruction;
use cauchemar::table::NameTable;
use cauchemar::value::CauchemarVMValue;
use cauchemar::vm::{
    run_vm, CauchemarFrame, CauchemarStatus, CauchemarVM, CauchemarVMRoutine,
};

fn num(n: i32) -> CauchemarAST {
    CauchemarAST::Number(n)
}

fn call(name: &str) -> CauchemarAST {
    CauchemarAST::Identifier(name.to_string())
}

fn text(s: &str) -> CauchemarAST {
    CauchemarAST::String(s.to_string())
}

fn program(routines: Vec<(&str, Vec<CauchemarAST>)>) -> CauchemarProgram {
    let mut table = NameTable::new();
    for (name, body) in routines {
        table.insert(name.to_string(), body);
    }
    CauchemarProgram { routines: table }
}

fn machine(body: Vec<CauchemarAST>) -> CauchemarVM {
    compile_cauchemar_program(program(vec![("PROGRAM", body)]))
}

fn finish(vm: &mut CauchemarVM) -> Result<CauchemarStatus, CauchemarFault> {
    run_vm(vm, u64::MAX)
}

fn numbers(values: &[i32]) -> Vec<CauchemarVMValue> {
    values.iter().map(|n| CauchemarVMValue::Number(*n)).collect()
}

fn stack_after(body: Vec<CauchemarAST>) -> Vec<CauchemarVMValue> {
    let mut vm = machine(body);
    assert_eq!(finish(&mut vm), Ok(CauchemarStatus::Halted));
    vm.stack
}

fn fault_of(body: Vec<CauchemarAST>) -> CauchemarFault {
    let mut vm = machine(body);
    match finish(&mut vm) {
        Err(fault) => fault,
        Ok(status) => panic!("no fault, but {:?}", status),
    }
}

#[test]
fn conditional_true_prints_then_branch() {
    let mut vm = machine(vec![
        CauchemarAST::Bool(true),
        CauchemarAST::If(vec![num(1)], vec![num(2)]),
        call("PRINT"),
    ]);
    assert_eq!(finish(&mut vm), Ok(CauchemarStatus::Halted));
    assert_eq!(vm.output, numbers(&[1]));
    assert!(vm.stack.is_empty());
    assert!(vm.ip.is_empty());
}

#[test]
fn conditional_false_prints_else_branch() {
    let mut vm = machine(vec![
        CauchemarAST::Bool(false),
        CauchemarAST::If(vec![num(1)], vec![num(2)]),
        call("PRINT"),
    ]);
    assert_eq!(finish(&mut vm), Ok(CauchemarStatus::Halted));
    assert_eq!(vm.output, numbers(&[2]));
}

#[test]
fn conditional_false_without_else_runs_no_branch() {
    let mut vm = machine(vec![
        CauchemarAST::Bool(false),
        CauchemarAST::If(vec![num(1), call("PRINT")], vec![]),
    ]);
    // push, jump-if-false, closing no-op, return: nothing of the branch
    assert_eq!(run_vm(&mut vm, 3), Ok(CauchemarStatus::Running));
    assert_eq!(
        vm.ip,
        vec![CauchemarFrame { routine: "PROGRAM".to_string(), index: 6 }]
    );
    assert_eq!(run_vm(&mut vm, 1), Ok(CauchemarStatus::Halted));
    assert!(vm.output.is_empty());
    assert!(vm.stack.is_empty());
}

#[test]
fn conditional_needs_a_boolean() {
    let fault = fault_of(vec![num(1), CauchemarAST::If(vec![], vec![])]);
    assert_eq!(fault.kind, FaultKind::TypeMismatch);
    assert_eq!(fault.index, 1);
    assert_eq!(fault.instruction, Some(CauchemarVMInstruction::JumpIfFalse(3)));
    let fault = fault_of(vec![CauchemarAST::If(vec![], vec![])]);
    assert_eq!(fault.kind, FaultKind::StackUnderflow);
}

#[test]
fn loop_counts_up_to_its_bound() {
    let mut vm = machine(vec![
        num(0),
        CauchemarAST::While(vec![
            num(1),
            CauchemarAST::Add,
            call("DUP"),
            call("PRINT"),
            call("DUP"),
            num(3),
            call("LESS-THAN"),
        ]),
        call("DROP"),
    ]);
    assert_eq!(finish(&mut vm), Ok(CauchemarStatus::Halted));
    assert_eq!(vm.output, numbers(&[1, 2, 3]));
    assert!(vm.stack.is_empty());
}

#[test]
fn loop_with_false_condition_runs_body_once() {
    let mut vm = machine(vec![CauchemarAST::While(vec![
        text("once"),
        call("PRINT"),
        CauchemarAST::Bool(false),
    ])]);
    assert_eq!(finish(&mut vm), Ok(CauchemarStatus::Halted));
    assert_eq!(vm.output, vec![CauchemarVMValue::String("once".to_string())]);
    assert!(vm.stack.is_empty());
}

#[test]
fn swap_leaves_one_on_top_of_two() {
    let mut vm = machine(vec![num(1), num(2), call("SWAP")]);
    assert_eq!(finish(&mut vm), Ok(CauchemarStatus::Halted));
    assert_eq!(vm.residue(), numbers(&[1, 2]));
    assert_eq!(vm.stack, numbers(&[2, 1]));
}

#[test]
fn deep_recursion_needs_no_host_stack() {
    let countdown = vec![
        call("DUP"),
        num(0),
        call("EQUALS"),
        CauchemarAST::If(
            vec![call("DROP")],
            vec![num(1), CauchemarAST::Sub, call("COUNTDOWN")],
        ),
    ];
    let mut vm = compile_cauchemar_program(program(vec![
        ("COUNTDOWN", countdown),
        ("PROGRAM", vec![num(20000), call("COUNTDOWN"), text("done"), call("PRINT")]),
    ]));
    let mut deepest = 0;
    loop {
        match run_vm(&mut vm, 1000) {
            Ok(CauchemarStatus::Running) => deepest = deepest.max(vm.ip.len()),
            Ok(CauchemarStatus::Halted) => break,
            Err(fault) => panic!("fault {:?}", fault),
        }
    }
    assert!(deepest >= 10000);
    assert_eq!(vm.output, vec![CauchemarVMValue::String("done".to_string())]);
    assert!(vm.stack.is_empty());
}

#[test]
fn dup_on_empty_stack_underflows() {
    let fault = fault_of(vec![call("DUP")]);
    assert_eq!(fault.kind, FaultKind::StackUnderflow);
    assert_eq!(fault.routine, "DUP");
    assert_eq!(fault.index, 0);
    assert_eq!(fault.instruction, None);
}

#[test]
fn adding_a_boolean_is_a_type_mismatch() {
    let fault = fault_of(vec![num(1), CauchemarAST::Bool(true), CauchemarAST::Add]);
    assert_eq!(fault.kind, FaultKind::TypeMismatch);
    assert_eq!(fault.routine, "PROGRAM");
    assert_eq!(fault.index, 2);
    assert_eq!(fault.instruction, Some(CauchemarVMInstruction::Add));
}

#[test]
fn dividing_by_zero_faults() {
    let mut vm = machine(vec![num(1), num(0), CauchemarAST::Div]);
    let fault = finish(&mut vm).unwrap_err();
    assert_eq!(
        fault,
        CauchemarFault {
            kind: FaultKind::DivisionByZero,
            routine: "PROGRAM".to_string(),
            index: 2,
            instruction: Some(CauchemarVMInstruction::Div),
        }
    );
    // the machine is as it was before the failing step
    assert_eq!(vm.stack, numbers(&[1, 0]));
    assert_eq!(vm.ip, vec![CauchemarFrame { routine: "PROGRAM".to_string(), index: 2 }]);
}

#[test]
fn calling_an_undefined_routine_faults() {
    let fault = fault_of(vec![num(1), call("NOWHERE")]);
    assert_eq!(fault.kind, FaultKind::UnknownRoutine);
    assert_eq!(fault.routine, "NOWHERE");
    assert_eq!(fault.index, 0);
    assert_eq!(fault.instruction, None);
}

#[test]
fn program_without_entry_routine_does_not_load() {
    let fault = load_cauchemar_program(program(vec![("MAIN", vec![num(1)])])).unwrap_err();
    assert_eq!(fault.kind, FaultKind::MissingEntryRoutine);
    assert_eq!(fault.routine, "PROGRAM");
    assert_eq!(fault.instruction, None);
}

#[test]
fn program_with_entry_routine_loads_ready_to_run() {
    let vm = load_cauchemar_program(program(vec![("PROGRAM", vec![num(1)])])).unwrap();
    assert_eq!(vm.ip, vec![CauchemarFrame { routine: "PROGRAM".to_string(), index: 0 }]);
    assert!(vm.stack.is_empty());
    assert!(vm.output.is_empty());
}

#[test]
fn compiling_without_entry_routine_faults_at_the_first_step() {
    let mut vm = compile_cauchemar_program(program(vec![("MAIN", vec![num(1)])]));
    let fault = finish(&mut vm).unwrap_err();
    assert_eq!(fault.kind, FaultKind::UnknownRoutine);
    assert_eq!(fault.routine, "PROGRAM");
}

#[test]
fn division_truncates_toward_zero() {
    assert_eq!(stack_after(vec![num(7), num(2), CauchemarAST::Div]), numbers(&[3]));
    assert_eq!(stack_after(vec![num(-7), num(2), CauchemarAST::Div]), numbers(&[-3]));
    assert_eq!(stack_after(vec![num(7), num(-2), CauchemarAST::Div]), numbers(&[-3]));
    assert_eq!(stack_after(vec![num(-7), num(-2), CauchemarAST::Div]), numbers(&[3]));
    assert_eq!(stack_after(vec![num(1), num(5), CauchemarAST::Div]), numbers(&[0]));
}

#[test]
fn subtraction_is_left_minus_right() {
    assert_eq!(stack_after(vec![num(5), num(3), CauchemarAST::Sub]), numbers(&[2]));
    assert_eq!(stack_after(vec![num(3), num(5), CauchemarAST::Sub]), numbers(&[-2]));
}

#[test]
fn addition_and_multiplication() {
    assert_eq!(stack_after(vec![num(5), num(3), CauchemarAST::Add]), numbers(&[8]));
    assert_eq!(stack_after(vec![num(5), num(-3), CauchemarAST::Mul]), numbers(&[-15]));
}

#[test]
fn arithmetic_wraps_around() {
    assert_eq!(
        stack_after(vec![num(i32::MAX), num(1), CauchemarAST::Add]),
        numbers(&[i32::MIN])
    );
    assert_eq!(
        stack_after(vec![num(i32::MIN), num(1), CauchemarAST::Sub]),
        numbers(&[i32::MAX])
    );
    assert_eq!(
        stack_after(vec![num(65536), num(65536), CauchemarAST::Mul]),
        numbers(&[0])
    );
    assert_eq!(
        stack_after(vec![num(i32::MIN), num(-1), CauchemarAST::Div]),
        numbers(&[i32::MIN])
    );
}

#[test]
fn arithmetic_looks_at_the_top_first() {
    // the left operand is no number: a mismatch, not a division by zero
    let fault = fault_of(vec![CauchemarAST::Bool(true), num(0), CauchemarAST::Div]);
    assert_eq!(fault.kind, FaultKind::TypeMismatch);
    // one operand of the wrong variant: a mismatch, not an underflow
    let fault = fault_of(vec![CauchemarAST::Bool(true), CauchemarAST::Mul]);
    assert_eq!(fault.kind, FaultKind::TypeMismatch);
    let fault = fault_of(vec![num(1), CauchemarAST::Mul]);
    assert_eq!(fault.kind, FaultKind::StackUnderflow);
    let fault = fault_of(vec![CauchemarAST::Sub]);
    assert_eq!(fault.kind, FaultKind::StackUnderflow);
}

#[test]
fn print_emits_values_in_order() {
    let mut vm = machine(vec![
        num(1),
        call("PRINT"),
        text("two"),
        call("PRINT"),
        CauchemarAST::Bool(true),
        call("PRINT"),
    ]);
    assert_eq!(finish(&mut vm), Ok(CauchemarStatus::Halted));
    assert_eq!(
        vm.output,
        vec![
            CauchemarVMValue::Number(1),
            CauchemarVMValue::String("two".to_string()),
            CauchemarVMValue::Bool(true),
        ]
    );
    assert_eq!(fault_of(vec![call("PRINT")]).kind, FaultKind::StackUnderflow);
}

#[test]
fn drop_discards_the_top() {
    assert_eq!(stack_after(vec![num(1), num(2), call("DROP")]), numbers(&[1]));
    assert_eq!(fault_of(vec![call("DROP")]).kind, FaultKind::StackUnderflow);
}

#[test]
fn dup_doubles_the_top() {
    assert_eq!(stack_after(vec![num(1), num(2), call("DUP")]), numbers(&[1, 2, 2]));
}

#[test]
fn swap_needs_two_values() {
    assert_eq!(fault_of(vec![num(1), call("SWAP")]).kind, FaultKind::StackUnderflow);
}

#[test]
fn rot_brings_the_third_value_up() {
    assert_eq!(
        stack_after(vec![num(0), num(1), num(2), num(3), call("ROT")]),
        numbers(&[0, 2, 3, 1])
    );
    assert_eq!(fault_of(vec![num(1), num(2), call("ROT")]).kind, FaultKind::StackUnderflow);
}

#[test]
fn over_copies_the_second_value() {
    assert_eq!(stack_after(vec![num(1), num(2), call("OVER")]), numbers(&[1, 2, 1]));
    assert_eq!(fault_of(vec![num(1), call("OVER")]).kind, FaultKind::StackUnderflow);
}

#[test]
fn equals_compares_by_value() {
    let yes = vec![CauchemarVMValue::Bool(true)];
    let no = vec![CauchemarVMValue::Bool(false)];
    assert_eq!(stack_after(vec![num(4), num(4), call("EQUALS")]), yes);
    assert_eq!(stack_after(vec![num(4), num(5), call("EQUALS")]), no);
    assert_eq!(stack_after(vec![text("ab"), text("ab"), call("EQUALS")]), yes);
    assert_eq!(stack_after(vec![text("ab"), text("ba"), call("EQUALS")]), no);
    assert_eq!(
        stack_after(vec![CauchemarAST::Bool(false), CauchemarAST::Bool(false), call("EQUALS")]),
        yes
    );
    assert_eq!(fault_of(vec![num(1), call("EQUALS")]).kind, FaultKind::StackUnderflow);
}

#[test]
fn equals_across_variants_is_false() {
    let no = vec![CauchemarVMValue::Bool(false)];
    assert_eq!(stack_after(vec![num(1), CauchemarAST::Bool(true), call("EQUALS")]), no);
    assert_eq!(stack_after(vec![num(1), text("1"), call("EQUALS")]), no);
    assert_eq!(stack_after(vec![text("TRUE"), CauchemarAST::Bool(true), call("EQUALS")]), no);
}

#[test]
fn not_negates_a_boolean() {
    assert_eq!(
        stack_after(vec![CauchemarAST::Bool(true), call("NOT")]),
        vec![CauchemarVMValue::Bool(false)]
    );
    assert_eq!(fault_of(vec![num(1), call("NOT")]).kind, FaultKind::TypeMismatch);
    assert_eq!(fault_of(vec![call("NOT")]).kind, FaultKind::StackUnderflow);
}

#[test]
fn or_and_and_join_two_booleans() {
    for a in [false, true] {
        for b in [false, true] {
            assert_eq!(
                stack_after(vec![CauchemarAST::Bool(a), CauchemarAST::Bool(b), call("OR")]),
                vec![CauchemarVMValue::Bool(a || b)]
            );
            assert_eq!(
                stack_after(vec![CauchemarAST::Bool(a), CauchemarAST::Bool(b), call("AND")]),
                vec![CauchemarVMValue::Bool(a && b)]
            );
        }
    }
    assert_eq!(
        fault_of(vec![num(1), CauchemarAST::Bool(true), call("OR")]).kind,
        FaultKind::TypeMismatch
    );
    assert_eq!(fault_of(vec![num(1), call("AND")]).kind, FaultKind::TypeMismatch);
    assert_eq!(
        fault_of(vec![CauchemarAST::Bool(true), call("AND")]).kind,
        FaultKind::StackUnderflow
    );
}

#[test]
fn comparisons_take_left_then_right() {
    let cases = [
        ("GREATER-THAN", [false, false, true]),
        ("GREATER-EQUAL", [false, true, true]),
        ("LESS-THAN", [true, false, false]),
        ("LESS-EQUAL", [true, true, false]),
    ];
    for (name, expected) in cases {
        for (i, (left, right)) in [(1, 2), (2, 2), (3, 2)].into_iter().enumerate() {
            assert_eq!(
                stack_after(vec![num(left), num(right), call(name)]),
                vec![CauchemarVMValue::Bool(expected[i])],
                "{} {} {}",
                left,
                right,
                name
            );
        }
    }
    assert_eq!(
        fault_of(vec![num(1), text("2"), call("LESS-THAN")]).kind,
        FaultKind::TypeMismatch
    );
    assert_eq!(fault_of(vec![num(1), call("LESS-THAN")]).kind, FaultKind::StackUnderflow);
}

#[test]
fn assert_passes_on_true_and_faults_on_false() {
    assert!(stack_after(vec![CauchemarAST::Bool(true), call("ASSERT")]).is_empty());
    let mut vm = machine(vec![num(9), CauchemarAST::Bool(false), call("ASSERT")]);
    let fault = finish(&mut vm).unwrap_err();
    assert_eq!(fault.kind, FaultKind::AssertionFailed);
    assert_eq!(fault.routine, "ASSERT");
    assert_eq!(vm.stack, vec![CauchemarVMValue::Number(9), CauchemarVMValue::Bool(false)]);
    assert_eq!(fault_of(vec![num(1), call("ASSERT")]).kind, FaultKind::TypeMismatch);
    assert_eq!(fault_of(vec![call("ASSERT")]).kind, FaultKind::StackUnderflow);
}

#[test]
fn built_in_routine_shadows_a_user_routine() {
    let mut vm = compile_cauchemar_program(program(vec![
        ("DUP", vec![num(99)]),
        ("PROGRAM", vec![num(1), call("DUP")]),
    ]));
    assert_eq!(finish(&mut vm), Ok(CauchemarStatus::Halted));
    assert_eq!(vm.stack, numbers(&[1, 1]));
}

#[test]
fn later_definition_of_a_routine_wins() {
    let mut vm = compile_cauchemar_program(program(vec![
        ("PROGRAM", vec![num(1)]),
        ("PROGRAM", vec![num(2)]),
    ]));
    assert_eq!(finish(&mut vm), Ok(CauchemarStatus::Halted));
    assert_eq!(vm.stack, numbers(&[2]));
}

#[test]
fn forward_reference_is_resolved_at_the_call() {
    let mut vm = compile_cauchemar_program(program(vec![
        ("PROGRAM", vec![call("LATER"), call("PRINT")]),
        ("LATER", vec![num(5)]),
    ]));
    assert_eq!(finish(&mut vm), Ok(CauchemarStatus::Halted));
    assert_eq!(vm.output, numbers(&[5]));
}

#[test]
fn run_stops_when_the_steps_are_used_up_and_goes_on() {
    let mut vm = machine(vec![CauchemarAST::While(vec![CauchemarAST::Bool(true)])]);
    assert_eq!(run_vm(&mut vm, 0), Ok(CauchemarStatus::Running));
    assert_eq!(vm.ip, vec![CauchemarFrame { routine: "PROGRAM".to_string(), index: 0 }]);
    assert_eq!(run_vm(&mut vm, 100), Ok(CauchemarStatus::Running));
    assert_eq!(run_vm(&mut vm, 100), Ok(CauchemarStatus::Running));
    assert_eq!(vm.ip.len(), 1);
    assert!(vm.stack.len() <= 1);
}

#[test]
fn halted_machine_stays_halted() {
    let mut vm = machine(vec![num(1)]);
    assert_eq!(run_vm(&mut vm, 2), Ok(CauchemarStatus::Halted));
    assert!(vm.halted());
    assert_eq!(run_vm(&mut vm, 5), Ok(CauchemarStatus::Halted));
    assert_eq!(vm.stack, numbers(&[1]));
}

#[test]
fn single_steps_follow_the_frames() {
    let mut vm = compile_cauchemar_program(program(vec![
        ("PROGRAM", vec![call("ONE")]),
        ("ONE", vec![num(1)]),
    ]));
    assert!(vm.step().is_ok());
    assert_eq!(
        vm.ip,
        vec![
            CauchemarFrame { routine: "PROGRAM".to_string(), index: 1 },
            CauchemarFrame { routine: "ONE".to_string(), index: 0 },
        ]
    );
    assert!(vm.step().is_ok());
    assert_eq!(vm.stack, numbers(&[1]));
    assert!(vm.step().is_ok());
    assert_eq!(vm.ip, vec![CauchemarFrame { routine: "PROGRAM".to_string(), index: 1 }]);
    assert!(vm.step().is_ok());
    assert!(vm.halted());
}

#[test]
fn index_outside_the_routine_is_a_fault() {
    let mut routines = NameTable::new();
    routines.insert(
        "PROGRAM".to_string(),
        CauchemarVMRoutine::User(vec![CauchemarVMInstruction::Jump(7)]),
    );
    let mut vm = CauchemarVM {
        ip: vec![CauchemarFrame { routine: "PROGRAM".to_string(), index: 0 }],
        stack: vec![],
        routines,
        output: vec![],
    };
    let fault = finish(&mut vm).unwrap_err();
    assert_eq!(fault.kind, FaultKind::InvalidIndex);
    assert_eq!(fault.index, 7);
    assert_eq!(fault.instruction, None);
}

#[test]
fn residue_lists_the_stack_top_first() {
    let mut vm = machine(vec![num(1), text("x"), CauchemarAST::Bool(true)]);
    assert_eq!(finish(&mut vm), Ok(CauchemarStatus::Halted));
    assert_eq!(
        vm.residue(),
        vec![
            CauchemarVMValue::Bool(true),
            CauchemarVMValue::String("x".to_string()),
            CauchemarVMValue::Number(1),
        ]
    );
}
