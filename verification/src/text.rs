//! Values, instructions and commands as text.

use vstd::prelude::*;
use crate::ast::{ast_of, asts_of, lemma_asts_of, Ast, CauchemarAST};
use crate::instruction::{CauchemarVMInstruction, Instr};
use crate::value::{CauchemarVMValue, Value};

verus! {

/// The character of a decimal digit.
pub open spec fn digit(d: nat) -> char {
    seq!['0', '1', '2', '3', '4', '5', '6', '7', '8', '9'][d as int]
}

/// The decimal digits of a natural number, the most significant first and
/// without leading zeros.
pub open spec fn digits(n: nat) -> Seq<char>
    decreases n,
{
    if n < 10 {
        seq![digit(n)]
    } else {
        digits(n / 10).push(digit(n % 10))
    }
}

/// An integer in decimal, with a minus sign in front of a negative one.
pub open spec fn decimal(n: int) -> Seq<char> {
    if n < 0 {
        seq!['-'] + digits((-n) as nat)
    } else {
        digits(n as nat)
    }
}

/// Appends the character of a decimal digit.
fn write_digit(out: &mut String, d: u64)
    requires
        d < 10,
    ensures
        final(out)@ == old(out)@.push(digit(d as nat)),
{
    let ghost before = out@;
    proof {
        reveal_strlit("0");
        reveal_strlit("1");
        reveal_strlit("2");
        reveal_strlit("3");
        reveal_strlit("4");
        reveal_strlit("5");
        reveal_strlit("6");
        reveal_strlit("7");
        reveal_strlit("8");
        reveal_strlit("9");
    }
    if d == 0 {
        out.append("0");
    } else if d == 1 {
        out.append("1");
    } else if d == 2 {
        out.append("2");
    } else if d == 3 {
        out.append("3");
    } else if d == 4 {
        out.append("4");
    } else if d == 5 {
        out.append("5");
    } else if d == 6 {
        out.append("6");
    } else if d == 7 {
        out.append("7");
    } else if d == 8 {
        out.append("8");
    } else {
        out.append("9");
    }
    assert(out@ =~= before.push(digit(d as nat)));
}

/// Appends the decimal digits of a natural number.
fn write_natural(out: &mut String, n: u64)
    ensures
        final(out)@ == old(out)@ + digits(n as nat),
    decreases n,
{
    let ghost before = out@;
    if n >= 10 {
        write_natural(out, n / 10);
    }
    write_digit(out, n % 10);
    assert(out@ =~= before + digits(n as nat));
}

/// The text of a natural number.
pub fn natural_text(n: u64) -> (r: String)
    ensures
        r@ == digits(n as nat),
{
    let mut out = String::new();
    write_natural(&mut out, n);
    assert(out@ =~= digits(n as nat));
    out
}

/// The text of a number.
pub fn number_text(n: i32) -> (r: String)
    ensures
        r@ == decimal(n as int),
{
    if n < 0 {
        let mut out = String::new();
        proof {
            reveal_strlit("-");
        }
        out.append("-");
        write_natural(&mut out, (-(n as i64)) as u64);
        assert(out@ =~= decimal(n as int));
        out
    } else {
        natural_text(n as u64)
    }
}

/// How a value is printed: a number in decimal, a boolean as `TRUE` or
/// `FALSE`, text as it is.
pub open spec fn value_text(v: Value) -> Seq<char> {
    match v {
        Value::Number(n) => decimal(n as int),
        Value::Bool(b) => if b {
            "TRUE"@
        } else {
            "FALSE"@
        },
        Value::Text(s) => s,
    }
}

/// How an instruction is listed: its mnemonic and, behind a blank, its
/// operand if it has one.
pub open spec fn instruction_text(i: Instr) -> Seq<char> {
    match i {
        Instr::Push(v) => "PUSH "@ + value_text(v),
        Instr::Call(name) => "CALL "@ + name,
        Instr::Jump(target) => "JUMP "@ + decimal(target),
        Instr::JumpIfFalse(target) => "JUMP_IF_FALSE "@ + decimal(target),
        Instr::Add => "ADD"@,
        Instr::Sub => "SUB"@,
        Instr::Mul => "MUL"@,
        Instr::Div => "DIV"@,
        Instr::Return => "RETURN"@,
        Instr::Nop => "NOP"@,
    }
}

/// How a command is written out. Text stands between double quotes. The
/// commands of a branch or of a body are each followed by a blank; a
/// conditional always shows its `ELSE`.
pub open spec fn ast_text(c: Ast) -> Seq<char>
    decreases c,
{
    match c {
        Ast::Number(n) => decimal(n as int),
        Ast::Bool(b) => if b {
            "TRUE"@
        } else {
            "FALSE"@
        },
        Ast::Text(s) => "\""@ + s + "\""@,
        Ast::Identifier(name) => name,
        Ast::If(then, otherwise) => "IF "@ + asts_text(then) + "ELSE "@ + asts_text(otherwise)
            + "THEN"@,
        Ast::While(body) => "DO"@ + asts_text(body) + "WHILE"@,
        Ast::Add => "+"@,
        Ast::Sub => "-"@,
        Ast::Mul => "*"@,
        Ast::Div => "/"@,
    }
}

/// How a command list is written out: each command followed by a blank.
pub open spec fn asts_text(cmds: Seq<Ast>) -> Seq<char>
    decreases cmds,
{
    if cmds.len() == 0 {
        Seq::empty()
    } else {
        asts_text(cmds.drop_last()) + ast_text(cmds.last()) + " "@
    }
}

impl CauchemarVMValue {
    /// The value as `PRINT` shows it.
    pub fn to_text(&self) -> (r: String)
        ensures
            r@ == value_text(self@),
    {
        match self {
            CauchemarVMValue::Number(n) => number_text(*n),
            CauchemarVMValue::Bool(true) => "TRUE".to_owned(),
            CauchemarVMValue::Bool(false) => "FALSE".to_owned(),
            CauchemarVMValue::String(s) => s.clone(),
        }
    }
}

impl CauchemarVMInstruction {
    /// The instruction as a listing shows it.
    pub fn to_text(&self) -> (r: String)
        ensures
            r@ == instruction_text(self@),
    {
        match self {
            CauchemarVMInstruction::Push(v) => {
                let operand = v.to_text();
                "PUSH ".to_owned().concat(operand.as_str())
            },
            CauchemarVMInstruction::Call(name) => "CALL ".to_owned().concat(name.as_str()),
            CauchemarVMInstruction::Jump(target) => {
                let operand = natural_text(*target as u64);
                "JUMP ".to_owned().concat(operand.as_str())
            },
            CauchemarVMInstruction::JumpIfFalse(target) => {
                let operand = natural_text(*target as u64);
                "JUMP_IF_FALSE ".to_owned().concat(operand.as_str())
            },
            CauchemarVMInstruction::Add => "ADD".to_owned(),
            CauchemarVMInstruction::Sub => "SUB".to_owned(),
            CauchemarVMInstruction::Mul => "MUL".to_owned(),
            CauchemarVMInstruction::Div => "DIV".to_owned(),
            CauchemarVMInstruction::Return => "RETURN".to_owned(),
            CauchemarVMInstruction::Nop => "NOP".to_owned(),
        }
    }
}

/// Appends the text of a command list to `out`.
fn write_commands(out: &mut String, cmds: &Vec<CauchemarAST>)
    ensures
        final(out)@ == old(out)@ + asts_text(asts_of(cmds@)),
    decreases cmds,
{
    let ghost start = out@;
    let ghost asts = asts_of(cmds@);
    proof {
        lemma_asts_of(cmds@);
        assert(asts.take(0) =~= Seq::<Ast>::empty());
        assert(out@ =~= start + asts_text(asts.take(0)));
    }
    let mut i: usize = 0;
    while i < cmds.len()
        invariant
            0 <= i <= cmds.len(),
            asts == asts_of(cmds@),
            asts.len() == cmds@.len(),
            out@ == start + asts_text(asts.take(i as int)),
        decreases cmds.len() - i,
    {
        let one = cmds[i].to_text();
        proof {
            lemma_asts_of(cmds@);
            assert(asts.take(i + 1).drop_last() =~= asts.take(i as int));
            assert(asts.take(i + 1).last() == ast_of(cmds@[i as int]));
            let sofar = asts_text(asts.take(i as int));
            assert((start + sofar) + one@ + " "@ =~= start + (sofar + one@ + " "@));
        }
        out.append(one.as_str());
        out.append(" ");
        i = i + 1;
    }
    proof {
        assert(asts.take(i as int) =~= asts);
    }
}

impl CauchemarAST {
    /// The command as it is written in a source.
    pub fn to_text(&self) -> (r: String)
        ensures
            r@ == ast_text(self@),
        decreases self,
    {
        match self {
            CauchemarAST::Number(n) => number_text(*n),
            CauchemarAST::Bool(true) => "TRUE".to_owned(),
            CauchemarAST::Bool(false) => "FALSE".to_owned(),
            CauchemarAST::String(s) => "\"".to_owned().concat(s.as_str()).concat("\""),
            CauchemarAST::Identifier(s) => s.clone(),
            CauchemarAST::If(then, otherwise) => {
                let mut out = "IF ".to_owned();
                write_commands(&mut out, then);
                out.append("ELSE ");
                write_commands(&mut out, otherwise);
                out.append("THEN");
                out
            },
            CauchemarAST::While(body) => {
                let mut out = "DO".to_owned();
                write_commands(&mut out, body);
                out.append("WHILE");
                out
            },
            CauchemarAST::Add => "+".to_owned(),
            CauchemarAST::Sub => "-".to_owned(),
            CauchemarAST::Mul => "*".to_owned(),
            CauchemarAST::Div => "/".to_owned(),
        }
    }
}

} // verus!
