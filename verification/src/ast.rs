//! Programs as command trees: what the compiler takes in.

use vstd::prelude::*;
use crate::table::NameTable;

verus! {

/// A command as the specifications see it.
pub enum Ast {
    Number(i32),
    Bool(bool),
    Text(Seq<char>),
    Identifier(Seq<char>),
    If(Seq<Ast>, Seq<Ast>),
    While(Seq<Ast>),
    Add,
    Sub,
    Mul,
    Div,
}

/// One command of a routine.
#[derive(Debug, PartialEq, Eq)]
pub enum CauchemarAST {
    Number(i32),
    Bool(bool),
    String(String),
    Identifier(String),
    If(Vec<CauchemarAST>, Vec<CauchemarAST>),
    While(Vec<CauchemarAST>),
    Add,
    Sub,
    Mul,
    Div,
}

/// The command that an executable command stands for.
pub open spec fn ast_of(c: CauchemarAST) -> Ast
    decreases c,
{
    match c {
        CauchemarAST::Number(n) => Ast::Number(n),
        CauchemarAST::Bool(b) => Ast::Bool(b),
        CauchemarAST::String(s) => Ast::Text(s@),
        CauchemarAST::Identifier(s) => Ast::Identifier(s@),
        CauchemarAST::If(then, otherwise) => Ast::If(asts_of(then@), asts_of(otherwise@)),
        CauchemarAST::While(body) => Ast::While(asts_of(body@)),
        CauchemarAST::Add => Ast::Add,
        CauchemarAST::Sub => Ast::Sub,
        CauchemarAST::Mul => Ast::Mul,
        CauchemarAST::Div => Ast::Div,
    }
}

/// The commands that a list of executable commands stands for, in order.
pub open spec fn asts_of(s: Seq<CauchemarAST>) -> Seq<Ast>
    decreases s,
{
    if s.len() == 0 {
        Seq::empty()
    } else {
        asts_of(s.drop_last()).push(ast_of(s.last()))
    }
}

impl View for CauchemarAST {
    type V = Ast;

    open spec fn view(&self) -> Ast {
        ast_of(*self)
    }
}

/// `asts_of` keeps the length of a list and maps it command by command.
pub proof fn lemma_asts_of(s: Seq<CauchemarAST>)
    ensures
        asts_of(s).len() == s.len(),
        forall|i: int| 0 <= i < s.len() ==> #[trigger] asts_of(s)[i] == ast_of(s[i]),
    decreases s.len(),
{
    if s.len() > 0 {
        lemma_asts_of(s.drop_last());
    }
}

/// A program: its routines by name, each an ordered list of commands. A
/// routine defined twice stands as it was defined last.
#[derive(Debug, PartialEq, Eq)]
pub struct CauchemarProgram {
    pub routines: NameTable<Vec<CauchemarAST>>,
}

impl View for CauchemarProgram {
    type V = Map<Seq<char>, Seq<Ast>>;

    open spec fn view(&self) -> Map<Seq<char>, Seq<Ast>> {
        self.routines.map().map_values(|body: Vec<CauchemarAST>| asts_of(body@))
    }
}

} // verus!
