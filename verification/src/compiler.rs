//! The compiler: from command trees to bytecode with resolved jump targets,
//! and from a program to a machine that is ready to run it.

use vstd::prelude::*;
use crate::ast::{asts_of, ast_of, lemma_asts_of, Ast, CauchemarAST, CauchemarProgram};
use crate::fault::{CauchemarFault, FaultKind};
use crate::instruction::{code_of, CauchemarVMInstruction, Instr};
use crate::machine::{initial, Routine};
use crate::native::{native_list, native_name, NativeRoutine};
use crate::table::{entries_map, NameTable};
use crate::value::{CauchemarVMValue, Value};
use crate::vm::{CauchemarFrame, CauchemarVM, CauchemarVMRoutine};

verus! {

/// The bytecode of one command whose first instruction stands at position
/// `base` of its routine.
///
/// A conditional is a jump-if-false to the start of its else branch, the then
/// branch, a jump to the closing no-op, the else branch and that no-op. A loop
/// is its body, a jump-if-false to the closing no-op, a jump back to the start
/// of the body and that no-op.
pub open spec fn compile_command(c: Ast, base: int) -> Seq<Instr>
    decreases c,
{
    match c {
        Ast::Number(n) => seq![Instr::Push(Value::Number(n))],
        Ast::Bool(b) => seq![Instr::Push(Value::Bool(b))],
        Ast::Text(s) => seq![Instr::Push(Value::Text(s))],
        Ast::Identifier(name) => seq![Instr::Call(name)],
        Ast::If(then, otherwise) => {
            let then_code = compile_commands(then, base + 1);
            let else_start = base + 1 + then_code.len() + 1;
            let else_code = compile_commands(otherwise, else_start);
            seq![Instr::JumpIfFalse(else_start)] + then_code + seq![
                Instr::Jump(else_start + else_code.len()),
            ] + else_code + seq![Instr::Nop]
        },
        Ast::While(body) => {
            let body_code = compile_commands(body, base);
            let exit = base + body_code.len() + 2;
            body_code + seq![Instr::JumpIfFalse(exit), Instr::Jump(base), Instr::Nop]
        },
        Ast::Add => seq![Instr::Add],
        Ast::Sub => seq![Instr::Sub],
        Ast::Mul => seq![Instr::Mul],
        Ast::Div => seq![Instr::Div],
    }
}

/// The bytecode of a command list whose first instruction stands at position
/// `base`: the bytecode of each command, one after the other.
pub open spec fn compile_commands(cmds: Seq<Ast>, base: int) -> Seq<Instr>
    decreases cmds,
{
    if cmds.len() == 0 {
        Seq::empty()
    } else {
        let head = compile_command(cmds.first(), base);
        head + compile_commands(cmds.drop_first(), base + head.len())
    }
}

/// The bytecode of a routine: that of its commands from position 0, then a
/// return.
pub open spec fn compile_body(cmds: Seq<Ast>) -> Seq<Instr> {
    compile_commands(cmds, 0).push(Instr::Return)
}

/// Compiling two lists one after the other compiles their concatenation.
pub proof fn lemma_compile_concat(a: Seq<Ast>, b: Seq<Ast>, base: int)
    ensures
        compile_commands(a + b, base) == compile_commands(a, base) + compile_commands(
            b,
            base + compile_commands(a, base).len(),
        ),
    decreases a.len(),
{
    if a.len() == 0 {
        assert(a + b =~= b);
        assert(compile_commands(a, base) + compile_commands(b, base) =~= compile_commands(
            b,
            base,
        ));
    } else {
        let head = compile_command(a.first(), base);
        assert((a + b).first() == a.first());
        assert((a + b).drop_first() =~= a.drop_first() + b);
        lemma_compile_concat(a.drop_first(), b, base + head.len());
        let tail_a = compile_commands(a.drop_first(), base + head.len());
        let tail_b = compile_commands(b, base + head.len() + tail_a.len());
        assert(head + (tail_a + tail_b) =~= (head + tail_a) + tail_b);
    }
}

/// The bytecode of a list of one command is that of the command.
pub proof fn lemma_compile_single(c: Ast, base: int)
    ensures
        compile_commands(seq![c], base) == compile_command(c, base),
{
    let one = seq![c];
    let head = compile_command(c, base);
    assert(one.first() == c);
    assert(one.drop_first() =~= Seq::<Ast>::empty());
    assert(compile_commands(one.drop_first(), base + head.len()) =~= Seq::<Instr>::empty());
    assert(head + Seq::<Instr>::empty() =~= head);
}

/// Compiling one more command appends its bytecode.
pub proof fn lemma_compile_take(cmds: Seq<Ast>, i: int, base: int)
    requires
        0 <= i < cmds.len(),
    ensures
        compile_commands(cmds.take(i + 1), base) == compile_commands(cmds.take(i), base)
            + compile_command(cmds[i], base + compile_commands(cmds.take(i), base).len()),
{
    let one = seq![cmds[i]];
    assert(cmds.take(i + 1) =~= cmds.take(i) + one);
    lemma_compile_concat(cmds.take(i), one, base);
    let at = base + compile_commands(cmds.take(i), base).len();
    lemma_compile_single(cmds[i], at);
}

/// Appending an instruction appends its view.
proof fn lemma_code_of_push(v: Seq<CauchemarVMInstruction>, x: CauchemarVMInstruction)
    ensures
        code_of(v.push(x)) == code_of(v).push(x@),
{
    assert(code_of(v.push(x)) =~= code_of(v).push(x@));
}

/// Overwriting an instruction overwrites its view.
proof fn lemma_code_of_update(v: Seq<CauchemarVMInstruction>, i: int, x: CauchemarVMInstruction)
    requires
        0 <= i < v.len(),
    ensures
        code_of(v.update(i, x)) == code_of(v).update(i, x@),
{
    assert(code_of(v.update(i, x)) =~= code_of(v).update(i, x@));
}

/// What the emitting and patching of a conditional leaves behind `before` is
/// the bytecode of the conditional.
proof fn lemma_conditional_layout(
    before: Seq<Instr>,
    then_code: Seq<Instr>,
    else_code: Seq<Instr>,
    after: Seq<Instr>,
)
    requires
        ({
            let at = before.len() as int;
            let else_start = at + 1 + then_code.len() + 1;
            let end = else_start + else_code.len();
            after == (((before.push(Instr::JumpIfFalse(0)) + then_code).push(Instr::Jump(0))
                + else_code).push(Instr::Nop)).update(at, Instr::JumpIfFalse(else_start)).update(
                else_start - 1,
                Instr::Jump(end),
            )
        }),
    ensures
        ({
            let at = before.len() as int;
            let else_start = at + 1 + then_code.len() + 1;
            let end = else_start + else_code.len();
            after == before + (seq![Instr::JumpIfFalse(else_start)] + then_code + seq![
                Instr::Jump(end),
            ] + else_code + seq![Instr::Nop])
        }),
{
    let at = before.len() as int;
    let else_start = at + 1 + then_code.len() + 1;
    let end = else_start + else_code.len();
    assert(after =~= before + (seq![Instr::JumpIfFalse(else_start)] + then_code + seq![
        Instr::Jump(end),
    ] + else_code + seq![Instr::Nop]));
}

/// What the emitting and patching of a loop leaves behind `before` is the
/// bytecode of the loop.
proof fn lemma_loop_layout(before: Seq<Instr>, body_code: Seq<Instr>, after: Seq<Instr>)
    requires
        ({
            let at = before.len() as int;
            let test = at + body_code.len();
            after == (before + body_code).push(Instr::JumpIfFalse(0)).push(Instr::Jump(at)).push(
                Instr::Nop,
            ).update(test, Instr::JumpIfFalse(test + 2))
        }),
    ensures
        ({
            let at = before.len() as int;
            let exit = at + body_code.len() + 2;
            after == before + (body_code + seq![
                Instr::JumpIfFalse(exit),
                Instr::Jump(at),
                Instr::Nop,
            ])
        }),
{
    let at = before.len() as int;
    let exit = at + body_code.len() + 2;
    assert(after =~= before + (body_code + seq![
        Instr::JumpIfFalse(exit),
        Instr::Jump(at),
        Instr::Nop,
    ]));
}

/// Appends the bytecode of `routine` to `instructions`.
///
/// Jumps are emitted with a placeholder target and patched once the position
/// they lead to is known.
pub fn compile_routine(instructions: &mut Vec<CauchemarVMInstruction>, routine: &Vec<CauchemarAST>)
    ensures
        code_of(final(instructions)@) == code_of(old(instructions)@) + compile_commands(
            asts_of(routine@),
            old(instructions)@.len() as int,
        ),
    decreases routine,
{
    let ghost start = instructions@;
    let ghost cmds = asts_of(routine@);
    let ghost base = instructions@.len() as int;
    proof {
        lemma_asts_of(routine@);
        assert(cmds.take(0) =~= Seq::<Ast>::empty());
        assert(code_of(instructions@) =~= code_of(start) + compile_commands(cmds.take(0), base));
    }
    let mut i: usize = 0;
    while i < routine.len()
        invariant
            0 <= i <= routine.len(),
            cmds == asts_of(routine@),
            cmds.len() == routine@.len(),
            base == start.len(),
            code_of(instructions@) == code_of(start) + compile_commands(cmds.take(i as int), base),
        decreases routine.len() - i,
    {
        let ghost before = instructions@;
        let ghost at = instructions@.len() as int;
        proof {
            lemma_asts_of(routine@);
            lemma_compile_take(cmds, i as int, base);
            assert(cmds[i as int] == ast_of(routine@[i as int]));
            assert(code_of(instructions@).len() == instructions@.len());
            assert(code_of(start).len() == start.len());
            assert(at == base + compile_commands(cmds.take(i as int), base).len());
        }
        match &routine[i] {
            CauchemarAST::Number(n) => {
                instructions.push(CauchemarVMInstruction::Push(CauchemarVMValue::Number(*n)));
            },
            CauchemarAST::Bool(b) => {
                instructions.push(CauchemarVMInstruction::Push(CauchemarVMValue::Bool(*b)));
            },
            CauchemarAST::String(s) => {
                instructions.push(
                    CauchemarVMInstruction::Push(CauchemarVMValue::String(s.clone())),
                );
            },
            CauchemarAST::Identifier(s) => {
                instructions.push(CauchemarVMInstruction::Call(s.clone()));
            },
            CauchemarAST::If(then, otherwise) => {
                instructions.push(CauchemarVMInstruction::JumpIfFalse(0));
                let false_jump_index = instructions.len() - 1;
                let ghost opened = instructions@;

                compile_routine(instructions, then);
                let ghost then_done = instructions@;
                let ghost then_code = compile_commands(asts_of(then@), at + 1);
                proof {
                    lemma_code_of_push(before, CauchemarVMInstruction::JumpIfFalse(0));
                    assert(code_of(then_done).len() == then_done.len());
                }
                instructions.push(CauchemarVMInstruction::Jump(0));
                let end_jump_index = instructions.len() - 1;

                let false_jump = end_jump_index + 1;
                let ghost closed = instructions@;
                compile_routine(instructions, otherwise);
                let ghost else_done = instructions@;
                let ghost else_code = compile_commands(asts_of(otherwise@), false_jump as int);
                proof {
                    lemma_code_of_push(then_done, CauchemarVMInstruction::Jump(0));
                    assert(code_of(else_done).len() == else_done.len());
                }

                instructions.push(CauchemarVMInstruction::Nop);
                let end_jump = instructions.len() - 1;
                let ghost ended = instructions@;

                instructions.set(false_jump_index, CauchemarVMInstruction::JumpIfFalse(false_jump));
                let ghost patched = instructions@;
                instructions.set(end_jump_index, CauchemarVMInstruction::Jump(end_jump));
                proof {
                    lemma_code_of_push(else_done, CauchemarVMInstruction::Nop);
                    lemma_code_of_update(
                        ended,
                        false_jump_index as int,
                        CauchemarVMInstruction::JumpIfFalse(false_jump),
                    );
                    lemma_code_of_update(
                        patched,
                        end_jump_index as int,
                        CauchemarVMInstruction::Jump(end_jump),
                    );
                    lemma_conditional_layout(
                        code_of(before),
                        then_code,
                        else_code,
                        code_of(instructions@),
                    );
                }
            },
            CauchemarAST::While(body) => {
                let start_index = instructions.len();
                compile_routine(instructions, body);
                let ghost body_done = instructions@;
                let ghost body_code = compile_commands(asts_of(body@), at);
                proof {
                    assert(code_of(body_done).len() == body_done.len());
                }
                instructions.push(CauchemarVMInstruction::JumpIfFalse(0));
                let false_jump_index = instructions.len() - 1;
                let ghost tested = instructions@;
                instructions.push(CauchemarVMInstruction::Jump(start_index));
                let ghost looped = instructions@;

                instructions.push(CauchemarVMInstruction::Nop);
                let false_jump = instructions.len() - 1;
                let ghost ended = instructions@;

                instructions.set(false_jump_index, CauchemarVMInstruction::JumpIfFalse(false_jump));
                proof {
                    lemma_code_of_push(body_done, CauchemarVMInstruction::JumpIfFalse(0));
                    lemma_code_of_push(tested, CauchemarVMInstruction::Jump(start_index));
                    lemma_code_of_push(looped, CauchemarVMInstruction::Nop);
                    lemma_code_of_update(
                        ended,
                        false_jump_index as int,
                        CauchemarVMInstruction::JumpIfFalse(false_jump),
                    );
                    lemma_loop_layout(code_of(before), body_code, code_of(instructions@));
                }
            },
            CauchemarAST::Add => {
                instructions.push(CauchemarVMInstruction::Add);
            },
            CauchemarAST::Sub => {
                instructions.push(CauchemarVMInstruction::Sub);
            },
            CauchemarAST::Mul => {
                instructions.push(CauchemarVMInstruction::Mul);
            },
            CauchemarAST::Div => {
                instructions.push(CauchemarVMInstruction::Div);
            },
        }
        proof {
            assert(code_of(instructions@) =~= code_of(before) + compile_command(
                cmds[i as int],
                at,
            ));
        }
        i = i + 1;
    }
    proof {
        assert(cmds.take(i as int) =~= cmds);
    }
}

/// What a name of the source stands for: a built-in routine or the commands
/// of a user routine.
pub enum Definition {
    Native(NativeRoutine),
    User(Seq<Ast>),
}

/// The map from their names to the built-in routines of a list.
pub open spec fn native_map(list: Seq<NativeRoutine>) -> Map<Seq<char>, NativeRoutine>
    decreases list.len(),
{
    if list.len() == 0 {
        Map::empty()
    } else {
        native_map(list.drop_last()).insert(native_name(list.last()), list.last())
    }
}

/// The built-in routines by name.
pub open spec fn natives() -> Map<Seq<char>, NativeRoutine> {
    native_map(native_list())
}

/// What each name stands for in a program. A built-in routine takes the
/// place of a user routine of the same name: the built-in routines enter the
/// table last, and the last entry under a name wins.
pub open spec fn environment(program: Map<Seq<char>, Seq<Ast>>) -> Map<Seq<char>, Definition> {
    Map::new(
        |name: Seq<char>| natives().contains_key(name) || program.contains_key(name),
        |name: Seq<char>|
            if natives().contains_key(name) {
                Definition::Native(natives()[name])
            } else {
                Definition::User(program[name])
            },
    )
}

/// The routine that a definition is compiled to.
pub open spec fn compile_definition(d: Definition) -> Routine {
    match d {
        Definition::Native(n) => Routine::Native(n),
        Definition::User(cmds) => Routine::User(compile_body(cmds)),
    }
}

/// The routine table that an environment is compiled to. Names are not
/// resolved: a call of a name that the environment lacks is compiled like any
/// other.
pub open spec fn compile_environment(env: Map<Seq<char>, Definition>) -> Map<Seq<char>, Routine> {
    env.map_values(|d: Definition| compile_definition(d))
}

/// The table of the user routines of a program, before the built-in routines
/// enter it.
pub open spec fn compile_source(program: Map<Seq<char>, Seq<Ast>>) -> Map<Seq<char>, Routine> {
    program.map_values(|cmds: Seq<Ast>| Routine::User(compile_body(cmds)))
}

/// A table with some built-in routines laid over it.
pub open spec fn with_natives(
    base: Map<Seq<char>, Routine>,
    over: Map<Seq<char>, NativeRoutine>,
) -> Map<Seq<char>, Routine> {
    Map::new(
        |name: Seq<char>| over.contains_key(name) || base.contains_key(name),
        |name: Seq<char>|
            if over.contains_key(name) {
                Routine::Native(over[name])
            } else {
                base[name]
            },
    )
}

/// Compiles a program: each user routine to its bytecode, closed by a return,
/// and then the built-in routines under their own names. The machine that
/// comes back is ready to run `PROGRAM`.
///
/// Calls are not resolved here; a routine may call itself or a routine that is
/// defined later, and a call of a name that nothing defines faults when it is
/// executed.
pub fn compile_cauchemar_program(program: CauchemarProgram) -> (vm: CauchemarVM)
    ensures
        vm.table() == compile_environment(environment(program@)),
        vm@ == initial("PROGRAM"@),
{
    let mut routines: NameTable<CauchemarVMRoutine> = NameTable::new();
    let ghost view = |r: CauchemarVMRoutine| r@;
    let ghost body = |b: Vec<CauchemarAST>| asts_of(b@);
    let ghost entries = program.routines.entries@;

    let mut i: usize = 0;
    proof {
        assert(entries.take(0) =~= Seq::<(String, Vec<CauchemarAST>)>::empty());
        assert(routines.map().map_values(view) =~= compile_source(
            entries_map(entries.take(0)).map_values(body),
        ));
    }
    while i < program.routines.entries.len()
        invariant
            0 <= i <= entries.len(),
            entries == program.routines.entries@,
            view == |r: CauchemarVMRoutine| r@,
            body == |b: Vec<CauchemarAST>| asts_of(b@),
            routines.map().map_values(view) == compile_source(
                entries_map(entries.take(i as int)).map_values(body),
            ),
        decreases entries.len() - i,
    {
        let name = program.routines.entries[i].0.clone();
        let mut compiled_routine: Vec<CauchemarVMInstruction> = Vec::new();
        compile_routine(&mut compiled_routine, &program.routines.entries[i].1);
        let ghost bare = compiled_routine@;
        compiled_routine.push(CauchemarVMInstruction::Return);
        let ghost before = routines.map();
        let ghost source = entries_map(entries.take(i as int));
        proof {
            let cmds = asts_of(entries[i as int].1@);
            assert(code_of(Seq::<CauchemarVMInstruction>::empty()) =~= Seq::<Instr>::empty());
            assert(code_of(bare) =~= compile_commands(cmds, 0));
            lemma_code_of_push(bare, CauchemarVMInstruction::Return);
            assert(entries.take(i + 1).drop_last() =~= entries.take(i as int));
            assert(entries_map(entries.take(i + 1)) == source.insert(
                entries[i as int].0@,
                entries[i as int].1,
            ));
        }
        let routine = CauchemarVMRoutine::User(compiled_routine);
        routines.insert(name, routine);
        proof {
            let key = entries[i as int].0@;
            let cmds = asts_of(entries[i as int].1@);
            assert(routine@ == Routine::User(compile_body(cmds)));
            assert(before.insert(key, routine).map_values(view) =~= before.map_values(
                view,
            ).insert(key, routine@));
            assert(source.insert(key, entries[i as int].1).map_values(body) =~= source.map_values(
                body,
            ).insert(key, cmds));
            assert(compile_source(source.map_values(body).insert(key, cmds)) =~= compile_source(
                source.map_values(body),
            ).insert(key, Routine::User(compile_body(cmds))));
        }
        i = i + 1;
    }
    proof {
        assert(entries.take(i as int) =~= entries);
    }

    let built_in = NativeRoutine::all();
    let ghost user = compile_source(program@);
    let mut j: usize = 0;
    proof {
        assert(native_list().take(0) =~= Seq::<NativeRoutine>::empty());
        assert(routines.map().map_values(view) =~= with_natives(
            user,
            native_map(native_list().take(0)),
        ));
    }
    while j < built_in.len()
        invariant
            0 <= j <= built_in@.len(),
            built_in@ == native_list(),
            view == |r: CauchemarVMRoutine| r@,
            routines.map().map_values(view) == with_natives(
                user,
                native_map(native_list().take(j as int)),
            ),
        decreases built_in@.len() - j,
    {
        let native = built_in[j];
        let ghost before = routines.map();
        let ghost over = native_map(native_list().take(j as int));
        let routine = CauchemarVMRoutine::Native(native);
        routines.insert(native.name().to_owned(), routine);
        proof {
            let key = native_name(native);
            assert(native_list().take(j + 1).drop_last() =~= native_list().take(j as int));
            assert(native_map(native_list().take(j + 1)) == over.insert(key, native));
            assert(before.insert(key, routine).map_values(view) =~= before.map_values(
                view,
            ).insert(key, routine@));
            assert(with_natives(user, over).insert(key, Routine::Native(native)) =~= with_natives(
                user,
                over.insert(key, native),
            ));
        }
        j = j + 1;
    }
    proof {
        assert(native_list().take(j as int) =~= native_list());
        assert(with_natives(user, natives()) =~= compile_environment(environment(program@)));
    }

    let mut ip: Vec<CauchemarFrame> = Vec::new();
    ip.push(CauchemarFrame { routine: "PROGRAM".to_owned(), index: 0 });
    let vm = CauchemarVM { ip, stack: Vec::new(), routines, output: Vec::new() };
    proof {
        assert(vm@.frames =~= initial("PROGRAM"@).frames);
        assert(vm@.store.stack =~= initial("PROGRAM"@).store.stack);
        assert(vm@.store.output =~= initial("PROGRAM"@).store.output);
    }
    vm
}

/// Loads a program: compiles it if it defines a routine named `PROGRAM`, and
/// reports the entry routine as missing if it does not.
pub fn load_cauchemar_program(program: CauchemarProgram) -> (r: Result<
    CauchemarVM,
    CauchemarFault,
>)
    ensures
        match r {
            Ok(vm) => program@.contains_key("PROGRAM"@) && vm.table() == compile_environment(
                environment(program@),
            ) && vm@ == initial("PROGRAM"@),
            Err(fault) => !program@.contains_key("PROGRAM"@) && fault.kind
                == FaultKind::MissingEntryRoutine && fault.routine@ == "PROGRAM"@ && fault.index
                == 0 && fault.instruction is None,
        },
{
    let entry = "PROGRAM".to_owned();
    if !program.routines.contains_key(&entry) {
        return Err(
            CauchemarFault {
                kind: FaultKind::MissingEntryRoutine,
                routine: entry,
                index: 0,
                instruction: None,
            },
        );
    }
    Ok(compile_cauchemar_program(program))
}

} // verus!
